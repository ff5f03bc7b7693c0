//! Replies of the model as they stream in, in either protocol.
use vstd::prelude::*;
use std::collections::HashMap;
use vstd::utf8::{decode_utf8, valid_utf8};
use crate::json::{items_view, json_render, json_text, lemma_items_view, Json, JsonView};
use crate::llm::sse::{parse_sse_event, sse_event};
use crate::llm::{call_views, delta_views, CallView, Delta, DeltaView, FunctionCall, ToolCall};
use crate::text::{
    after_prefix, chars_of, ends_with, find, find_chars, find_from, has_suffix, lemma_find_from,
    occurs_at, opt_view, same, string_of, strip_prefix, trim, trimmed,
};

verus! {

// ---------- bytes ----------

/// The error of `core::str::from_utf8`.
#[verifier::external_type_specification]
#[verifier::external_body]
pub struct ExUtf8Error(core::str::Utf8Error);

/// `core::str::from_utf8`: bytes that are UTF-8 are handed back as the string they encode, others
/// are an error.
pub assume_specification[ core::str::from_utf8 ](v: &[u8]) -> (r: Result<&str, core::str::Utf8Error>)
    ensures
        match r {
            Ok(s) => valid_utf8(v@) && s@ == decode_utf8(v@),
            Err(_) => !valid_utf8(v@),
        },
;

/// The text of a chunk of bytes. A chunk that is no UTF-8 by itself counts as empty.
pub open spec fn chunk_text(bytes: Seq<u8>) -> Seq<char> {
    if valid_utf8(bytes) {
        decode_utf8(bytes)
    } else {
        Seq::empty()
    }
}

pub fn text_of_chunk(bytes: &[u8]) -> (r: String)
    ensures
        r@ == chunk_text(bytes@),
{
    match core::str::from_utf8(bytes) {
        Ok(s) => s.to_owned(),
        Err(_) => {
            let none = String::new();
            assert(none@ =~= Seq::empty());
            none
        },
    }
}

// ---------- what both protocols share ----------

/// What a reply ends with: the calls it asks for, or that it was cut off, and then its end.
pub open spec fn closing(calls: Seq<CallView>, cut: bool) -> Seq<DeltaView> {
    if calls.len() > 0 {
        seq![DeltaView::ToolCalls(calls), DeltaView::Final]
    } else if cut {
        seq![DeltaView::Truncated, DeltaView::Final]
    } else {
        seq![DeltaView::Final]
    }
}

fn close(calls: Vec<ToolCall>, cut: bool) -> (r: Vec<Delta>)
    ensures
        delta_views(r@) == closing(call_views(calls@), cut),
{
    let mut r: Vec<Delta> = Vec::new();
    if calls.len() > 0 {
        r.push(Delta::ToolCalls(calls));
    } else if cut {
        r.push(Delta::Truncated);
    }
    r.push(Delta::Final);
    assert(delta_views(r@) =~= closing(call_views(calls@), cut));
    r
}

// ---------- Chat Completions ----------

pub open spec fn empty_call() -> CallView {
    CallView { id: ""@, kind: "function"@, name: ""@, arguments: ""@ }
}

/// The calls with empty ones added up to the length `n`.
pub open spec fn padded(calls: Seq<CallView>, n: nat) -> Seq<CallView> {
    if calls.len() >= n {
        calls
    } else {
        calls + Seq::new((n - calls.len()) as nat, |i: int| empty_call())
    }
}

/// A call with one fragment taken in: what the fragment names replaces what was there, its
/// arguments are added behind.
pub open spec fn with_fragment(c: CallView, d: JsonView) -> CallView {
    let f = d.get("function"@);
    CallView {
        id: match d.text_at("id"@) {
            Some(id) => id,
            None => c.id,
        },
        kind: match d.text_at("type"@) {
            Some(kind) => kind,
            None => c.kind,
        },
        name: match f {
            Some(f) => match f.text_at("name"@) {
                Some(name) => name,
                None => c.name,
            },
            None => c.name,
        },
        arguments: match f {
            Some(f) => match f.text_at("arguments"@) {
                Some(args) => c.arguments + args,
                None => c.arguments,
            },
            None => c.arguments,
        },
    }
}

/// Which call a fragment belongs to: the first where it does not say.
pub open spec fn fragment_index(d: JsonView) -> usize {
    match d.uint_at("index"@) {
        Some(i) => i as usize,
        None => 0,
    }
}

pub open spec fn merged_one(calls: Seq<CallView>, d: JsonView) -> Seq<CallView> {
    let i = fragment_index(d) as int;
    let all = padded(calls, (i + 1) as nat);
    all.update(i, with_fragment(all[i], d))
}

pub open spec fn merged(calls: Seq<CallView>, fragments: Seq<JsonView>) -> Seq<CallView>
    decreases fragments.len(),
{
    if fragments.len() == 0 {
        calls
    } else {
        merged_one(merged(calls, fragments.drop_last()), fragments.last())
    }
}

fn merge_one(out: &mut Vec<ToolCall>, d: &Json)
    ensures
        call_views(final(out)@) == merged_one(call_views(old(out)@), d@),
{
    let i: usize = match d.u64_at("index") {
        Some(i) => i as usize,
        None => 0,
    };
    let ghost before = call_views(out@);
    let ghost all = padded(before, (i + 1) as nat);
    while out.len() <= i
        invariant
            before.len() <= out@.len(),
            out@.len() <= before.len() || out@.len() <= i + 1,
            forall|k: int| 0 <= k < before.len() ==> (#[trigger] out@[k])@ == before[k],
            forall|k: int| before.len() <= k < out@.len() ==> (#[trigger] out@[k])@ == empty_call(),
        decreases i + 1 - out@.len(),
    {
        out.push(
            ToolCall {
                id: "".to_owned(),
                kind: "function".to_owned(),
                function: FunctionCall { name: "".to_owned(), arguments: "".to_owned() },
            },
        );
    }
    assert(call_views(out@) =~= all);
    let mut call = out[i].duplicate();
    if let Some(id) = d.text_at("id") {
        call.id = id.to_owned();
    }
    if let Some(kind) = d.text_at("type") {
        call.kind = kind.to_owned();
    }
    if let Some(f) = d.get("function") {
        if let Some(name) = f.text_at("name") {
            call.function.name = name.to_owned();
        }
        if let Some(args) = f.text_at("arguments") {
            call.function.arguments.append(args);
        }
    }
    assert(call@ == with_fragment(all[i as int], d@));
    let ghost padded_calls = out@;
    out.set(i, call);
    assert(call_views(out@) =~= all.update(i as int, call@));
}

/// Takes in the fragments of tool calls that one chunk of the stream brings. A fragment names its
/// call by position; the first one of a call brings its id and name, the later ones add to its
/// arguments.
pub fn merge_tool_call_deltas(out: &mut Vec<ToolCall>, fragments: &Json)
    ensures
        call_views(final(out)@) == match fragments@.array() {
            Some(a) => merged(call_views(old(out)@), a),
            None => call_views(old(out)@),
        },
{
    if let Some(a) = fragments.as_array() {
        let ghost all = items_view(a@);
        let ghost before = call_views(out@);
        let mut k: usize = 0;
        proof {
            lemma_items_view(a@);
        }
        while k < a.len()
            invariant
                k <= a@.len(),
                all == items_view(a@),
                all.len() == a@.len(),
                call_views(out@) == merged(before, all.take(k as int)),
            decreases a@.len() - k,
        {
            proof {
                lemma_items_view(a@);
            }
            assert(all.take(k + 1).drop_last() =~= all.take(k as int));
            merge_one(out, &a[k]);
            k += 1;
        }
        assert(all.take(all.len() as int) =~= all);
    }
}

/// What has been read of a reply, apart from the text that is still waiting for its line end.
#[verifier::ext_equal]
pub struct CompletionsView {
    pub calls: Seq<CallView>,
    pub finish: Option<Seq<char>>,
    pub done: bool,
}

/// What one value of the stream does.
pub open spec fn on_value(st: CompletionsView, v: JsonView) -> (CompletionsView, Seq<DeltaView>) {
    match v.get("choices"@) {
        Some(choices) => match choices.at(0) {
            Some(choice) => on_choice(st, choice),
            None => (st, Seq::empty()),
        },
        None => (st, Seq::empty()),
    }
}

pub open spec fn on_choice(st: CompletionsView, choice: JsonView) -> (
    CompletionsView,
    Seq<DeltaView>,
) {
    let delta = choice.get("delta"@);
    let text = match delta {
        Some(d) => d.text_at("content"@),
        None => None,
    };
    let fragments = match delta {
        Some(d) => d.array_at("tool_calls"@),
        None => None,
    };
    (
        CompletionsView {
            calls: match fragments {
                Some(a) => merged(st.calls, a),
                None => st.calls,
            },
            finish: match choice.text_at("finish_reason"@) {
                Some(f) => Some(f),
                None => st.finish,
            },
            done: st.done,
        },
        match text {
            Some(t) => if t.len() > 0 {
                seq![DeltaView::Text(t)]
            } else {
                Seq::empty()
            },
            None => Seq::empty(),
        },
    )
}

/// What one line of the stream does. Empty lines, comments, lines of another field and data that
/// is no JSON are passed over.
pub open spec fn on_line(st: CompletionsView, line: Seq<char>) -> (CompletionsView, Seq<DeltaView>) {
    let t = trimmed(line);
    match after_prefix(t, "data: "@) {
        Some(data) => if data == "[DONE]"@ {
            (CompletionsView { done: true, ..st }, Seq::empty())
        } else {
            match json_text(data) {
                Some(v) => on_value(st, v),
                None => (st, Seq::empty()),
            }
        },
        None => (st, Seq::empty()),
    }
}

/// Reading on in `buf`, line by line, until the stream says that it is done or no whole line is
/// left. Gives the new state, the text left and what came out.
pub open spec fn read_lines(st: CompletionsView, buf: Seq<char>) -> (
    CompletionsView,
    Seq<char>,
    Seq<DeltaView>,
)
    decreases buf.len(),
{
    if st.done {
        (st, buf, Seq::empty())
    } else {
        match find(buf, "\n"@) {
            Some(i) => if 0 <= i < buf.len() {
                let (st1, out1) = on_line(st, buf.take(i + 1));
                let (st2, rest, out2) = read_lines(st1, buf.skip(i + 1));
                (st2, rest, out1 + out2)
            } else {
                (st, buf, Seq::empty())
            },
            None => (st, buf, Seq::empty()),
        }
    }
}

/// What a chunk of bytes does. Once the stream has said that it is done, nothing more is read.
pub open spec fn completion_fed(st: CompletionsView, buf: Seq<char>, bytes: Seq<u8>) -> (
    CompletionsView,
    Seq<char>,
    Seq<DeltaView>,
) {
    if st.done {
        (st, buf, Seq::empty())
    } else {
        read_lines(st, buf + chunk_text(bytes))
    }
}

/// A reply in the Chat Completions protocol, as far as it has come in.
pub struct CompletionsStream {
    pub buf: String,
    pub calls: Vec<ToolCall>,
    pub finish_reason: Option<String>,
    pub done: bool,
}

impl View for CompletionsStream {
    type V = CompletionsView;

    open spec fn view(&self) -> CompletionsView {
        CompletionsView {
            calls: call_views(self.calls@),
            finish: opt_view(self.finish_reason),
            done: self.done,
        }
    }
}

pub open spec fn no_completion() -> CompletionsView {
    CompletionsView { calls: Seq::empty(), finish: None, done: false }
}

impl CompletionsStream {
    pub fn new() -> (r: CompletionsStream)
        ensures
            r@ == no_completion(),
            r.buf@.len() == 0,
    {
        let r = CompletionsStream {
            buf: String::new(),
            calls: Vec::new(),
            finish_reason: None,
            done: false,
        };
        assert(r@ =~= no_completion());
        r
    }

    /// Takes in one value of the stream.
    pub fn take_value(&mut self, v: &Json) -> (r: Option<Delta>)
        ensures
            (final(self)@, opt_delta(r)) == on_value(old(self)@, v@),
            final(self).buf == old(self).buf,
    {
        let choices = match v.get("choices") {
            Some(c) => c,
            None => return None,
        };
        let choice = match choices.at(0) {
            Some(c) => c,
            None => return None,
        };
        let mut r: Option<Delta> = None;
        if let Some(delta) = choice.get("delta") {
            if let Some(text) = delta.text_at("content") {
                if !text.is_empty() {
                    r = Some(Delta::Text(text.to_owned()));
                }
            }
            if let Some(fragments) = delta.get("tool_calls") {
                merge_tool_call_deltas(&mut self.calls, fragments);
            }
        }
        if let Some(f) = choice.text_at("finish_reason") {
            self.finish_reason = Some(f.to_owned());
        }
        assert(self@ =~= on_choice(old(self)@, choice@).0);
        assert(opt_delta(r) =~= on_choice(old(self)@, choice@).1);
        r
    }

    fn take_line(&mut self, line: &str) -> (r: Option<Delta>)
        ensures
            (final(self)@, opt_delta(r)) == on_line(old(self)@, line@),
            final(self).buf == old(self).buf,
    {
        let t = trim(line);
        match strip_prefix(t.as_str(), "data: ") {
            Some(data) => {
                if same(data.as_str(), "[DONE]") {
                    self.done = true;
                    return None;
                }
                match Json::parse(data.as_str()) {
                    Some(v) => self.take_value(&v),
                    None => None,
                }
            },
            None => None,
        }
    }

    /// Takes in one chunk of bytes and gives the text that it brings.
    pub fn feed(&mut self, bytes: &[u8]) -> (r: Vec<Delta>)
        ensures
            (final(self)@, final(self).buf@, delta_views(r@)) == completion_fed(
                old(self)@,
                old(self).buf@,
                bytes@,
            ),
    {
        let mut r: Vec<Delta> = Vec::new();
        if self.done {
            assert(delta_views(r@) =~= Seq::empty());
            return r;
        }
        let text = text_of_chunk(bytes);
        self.buf.append(text.as_str());
        let v = chars_of(self.buf.as_str());
        let newline = chars_of("\n");
        let n: usize = v.len();
        let mut from: usize = 0;
        let ghost start = self@;
        let ghost goal = read_lines(start, v@);
        let ghost buf0 = self.buf;
        proof {
            reveal_strlit("\n");
            assert(v@.skip(0) =~= v@);
            assert(delta_views(r@) =~= Seq::empty());
            assert(Seq::empty() + goal.2 =~= goal.2);
        }
        while !self.done
            invariant
                from <= n,
                n == v@.len(),
                newline@ == "\n"@,
                "\n"@.len() == 1,
                ({
                    let rest = read_lines(self@, v@.skip(from as int));
                    goal == (rest.0, rest.1, delta_views(r@) + rest.2)
                }),
            ensures
                ({
                    let rest = read_lines(self@, v@.skip(from as int));
                    rest == (self@, v@.skip(from as int), Seq::<DeltaView>::empty())
                }),
            decreases n - from,
        {
            let ghost buf = v@.skip(from as int);
            proof {
                lemma_find_skip(v@, "\n"@, from as int);
            }
            match find_chars(&v, &newline, from) {
                Some(i) => {
                    let line = string_of(&v, from, i + 1);
                    assert(line@ =~= buf.take(i - from + 1));
                    assert(v@.skip(i + 1) =~= buf.skip(i - from + 1));
                    let ghost before = r@;
                    let ghost was = self@;
                    let d = self.take_line(line.as_str());
                    if let Some(delta) = d {
                        r.push(delta);
                        assert(delta_views(r@) =~= delta_views(before) + opt_delta(Some(delta)));
                    } else {
                        assert(delta_views(r@) =~= delta_views(before) + opt_delta(None));
                    }
                    from = i + 1;
                    proof {
                        let rest = read_lines(self@, v@.skip(from as int));
                        let was_rest = read_lines(was, buf);
                        assert(delta_views(before) + was_rest.2 =~= delta_views(r@) + rest.2);
                    }
                },
                None => {
                    break;
                },
            }
        }
        self.buf = string_of(&v, from, n);
        assert(self.buf@ =~= v@.skip(from as int));
        assert(delta_views(r@) + Seq::empty() =~= delta_views(r@));
        r
    }

    /// What the reply ends with, once the stream is over.
    pub fn finish(self) -> (r: Vec<Delta>)
        ensures
            delta_views(r@) == closing(self@.calls, self@.finish == Some("length"@)),
    {
        let cut = match &self.finish_reason {
            Some(f) => same(f.as_str(), "length"),
            None => false,
        };
        close(self.calls, cut)
    }
}

pub open spec fn opt_delta(d: Option<Delta>) -> Seq<DeltaView> {
    match d {
        Some(d) => seq![d@],
        None => Seq::empty(),
    }
}

/// Searching behind the first `k` characters.
pub proof fn lemma_find_skip(s: Seq<char>, p: Seq<char>, k: int)
    requires
        0 <= k <= s.len(),
        p.len() > 0,
    ensures
        match find_from(s, p, k) {
            Some(i) => find(s.skip(k), p) == Some(i - k) && k <= i && i + p.len() <= s.len(),
            None => find(s.skip(k), p) is None,
        },
{
    lemma_find_shift(s, p, k, 0);
    lemma_find_from(s, p, k);
}

proof fn lemma_find_shift(s: Seq<char>, p: Seq<char>, k: int, i: int)
    requires
        0 <= k <= s.len(),
        0 <= i,
    ensures
        find_from(s.skip(k), p, i) == match find_from(s, p, k + i) {
            Some(j) => Some(j - k),
            None => None,
        },
    decreases s.len() + 1 - k - i,
{
    if k + i + p.len() <= s.len() {
        assert(s.skip(k).subrange(i, i + p.len()) =~= s.subrange(k + i, k + i + p.len()));
        lemma_find_shift(s, p, k, i + 1);
    }
}

// ---------- Responses ----------

/// What has been read of a reply: the calls begun, which call each output position stands for,
/// the status, and how the stream ended.
#[verifier::ext_equal]
pub struct ResponsesView {
    pub calls: Seq<CallView>,
    pub positions: Map<u64, usize>,
    pub status: Option<Seq<char>>,
    pub ended: bool,
    pub failed: bool,
}

/// The first call at or after `i` whose id ends with `id`.
pub open spec fn call_ending(calls: Seq<CallView>, id: Seq<char>, i: int) -> Option<int>
    decreases calls.len() - i,
{
    if i < 0 || i >= calls.len() {
        None
    } else if ends_with(calls[i].id, id) {
        Some(i)
    } else {
        call_ending(calls, id, i + 1)
    }
}

/// Which call an event about arguments is about: the one at its output position, else the one
/// that its item id ends, else the first.
pub open spec fn call_of_event(
    calls: Seq<CallView>,
    positions: Map<u64, usize>,
    v: JsonView,
) -> int {
    match v.uint_at("output_index"@) {
        Some(i) => if positions.contains_key(i) {
            positions[i] as int
        } else {
            call_of_item(calls, v.text_at("item_id"@))
        },
        None => call_of_item(calls, v.text_at("item_id"@)),
    }
}

pub open spec fn call_of_item(calls: Seq<CallView>, item: Option<Seq<char>>) -> int {
    match item {
        Some(id) => if id.len() > 0 && call_ending(calls, id, 0) is Some {
            call_ending(calls, id, 0)->0
        } else {
            0
        },
        None => 0,
    }
}

/// The calls with `fragment` added to the arguments of the call that the event is about.
pub open spec fn appended(
    calls: Seq<CallView>,
    positions: Map<u64, usize>,
    v: JsonView,
    fragment: Seq<char>,
) -> Seq<CallView> {
    let i = call_of_event(calls, positions, v);
    if i < calls.len() {
        calls.update(i, CallView { arguments: calls[i].arguments + fragment, ..calls[i] })
    } else {
        calls
    }
}

/// The calls with `whole` as the arguments of the call that the event is about.
pub open spec fn with_arguments(
    calls: Seq<CallView>,
    positions: Map<u64, usize>,
    v: JsonView,
    whole: Seq<char>,
) -> Seq<CallView> {
    let i = call_of_event(calls, positions, v);
    if i < calls.len() {
        calls.update(i, CallView { arguments: whole, ..calls[i] })
    } else {
        calls
    }
}

pub open spec fn or_empty(s: Option<Seq<char>>) -> Seq<char> {
    match s {
        Some(s) => s,
        None => ""@,
    }
}

/// A call that an output item begins.
pub open spec fn begun(item: JsonView) -> CallView {
    CallView {
        id: or_empty(item.text_at("call_id"@)),
        kind: "function"@,
        name: or_empty(item.text_at("name"@)),
        arguments: ""@,
    }
}

pub open spec fn on_item(st: ResponsesView, v: JsonView) -> ResponsesView {
    match v.get("item"@) {
        Some(item) => if item.text_at("type"@) == Some("function_call"@) {
            ResponsesView {
                positions: st.positions.insert(
                    match v.uint_at("output_index"@) {
                        Some(i) => i,
                        None => 0,
                    },
                    st.calls.len() as usize,
                ),
                calls: st.calls.push(begun(item)),
                ..st
            }
        } else {
            st
        },
        None => st,
    }
}

pub open spec fn failure_text(v: JsonView) -> Seq<char> {
    let error = match v.get("response"@) {
        Some(r) => r.get("error"@),
        None => None,
    };
    "LLM response 失败: "@ + match error {
        Some(e) => json_render(e),
        None => "response failed"@,
    }
}

pub open spec fn error_text(v: JsonView) -> Seq<char> {
    "LLM error 事件: "@ + match v.text_at("message"@) {
        Some(m) => m,
        None => "unknown error"@,
    }
}

/// What one event of the stream does. Events of other types are passed over.
pub open spec fn on_event(st: ResponsesView, kind: Seq<char>, v: JsonView) -> (
    ResponsesView,
    Seq<Result<DeltaView, Seq<char>>>,
) {
    if kind == "response.output_text.delta"@ {
        (
            st,
            match v.text_at("delta"@) {
                Some(t) => if t.len() > 0 {
                    seq![Ok(DeltaView::Text(t))]
                } else {
                    Seq::empty()
                },
                None => Seq::empty(),
            },
        )
    } else if kind == "response.output_item.added"@ {
        (on_item(st, v), Seq::empty())
    } else if kind == "response.function_call_arguments.delta"@ {
        (on_arguments(st, v, v.text_at("delta"@)), Seq::empty())
    } else if kind == "response.function_call_arguments.done"@ {
        (on_arguments_done(st, v, v.text_at("arguments"@)), Seq::empty())
    } else if kind == "response.completed"@ {
        let status = match v.get("response"@) {
            Some(r) => r.text_at("status"@),
            None => None,
        };
        (
            ResponsesView {
                status: match status {
                    Some(s) => Some(s),
                    None => st.status,
                },
                ended: true,
                ..st
            },
            Seq::empty(),
        )
    } else if kind == "response.incomplete"@ {
        (ResponsesView { status: Some("incomplete"@), ended: true, ..st }, Seq::empty())
    } else if kind == "response.failed"@ {
        (ResponsesView { failed: true, ..st }, seq![Err(failure_text(v))])
    } else if kind == "error"@ {
        (ResponsesView { failed: true, ..st }, seq![Err(error_text(v))])
    } else {
        (st, Seq::empty())
    }
}

pub open spec fn on_arguments(st: ResponsesView, v: JsonView, fragment: Option<Seq<char>>) -> ResponsesView {
    match fragment {
        Some(f) => if f.len() > 0 {
            ResponsesView { calls: appended(st.calls, st.positions, v, f), ..st }
        } else {
            st
        },
        None => st,
    }
}

/// The whole arguments of a call take the place of the pieces that came before.
pub open spec fn on_arguments_done(st: ResponsesView, v: JsonView, whole: Option<Seq<char>>) -> ResponsesView {
    match whole {
        Some(w) => if w.len() > 0 {
            ResponsesView { calls: with_arguments(st.calls, st.positions, v, w), ..st }
        } else {
            st
        },
        None => st,
    }
}

/// The type of an event: the one that a line names, else the one in the data.
pub open spec fn event_kind(named: Seq<char>, v: JsonView) -> Seq<char> {
    if named.len() > 0 {
        named
    } else {
        or_empty(v.text_at("type"@))
    }
}

/// What the text of one event does. An event without data, or whose data is no JSON, is passed
/// over.
pub open spec fn on_block(st: ResponsesView, block: Seq<char>) -> (
    ResponsesView,
    Seq<Result<DeltaView, Seq<char>>>,
) {
    let (kind, data) = sse_event(block);
    if data.len() == 0 {
        (st, Seq::empty())
    } else {
        match json_text(data) {
            Some(v) => on_event(st, event_kind(kind, v), v),
            None => (st, Seq::empty()),
        }
    }
}

/// Reading on in `buf`, event by event, until one reports a failure or no whole event is left.
pub open spec fn read_events(st: ResponsesView, buf: Seq<char>) -> (
    ResponsesView,
    Seq<char>,
    Seq<Result<DeltaView, Seq<char>>>,
)
    decreases buf.len(),
{
    if st.failed {
        (st, buf, Seq::empty())
    } else {
        match find(buf, "\n\n"@) {
            Some(i) => if 0 <= i && i + 2 <= buf.len() {
                let (st1, out1) = on_block(st, buf.take(i + 2));
                let (st2, rest, out2) = read_events(st1, buf.skip(i + 2));
                (st2, rest, out1 + out2)
            } else {
                (st, buf, Seq::empty())
            },
            None => (st, buf, Seq::empty()),
        }
    }
}

pub open spec fn opt_item(d: Option<Result<Delta, String>>) -> Seq<Result<DeltaView, Seq<char>>> {
    match d {
        Some(Ok(d)) => seq![Ok(d@)],
        Some(Err(e)) => seq![Err(e@)],
        None => Seq::empty(),
    }
}

pub open spec fn item_view(d: Result<Delta, String>) -> Result<DeltaView, Seq<char>> {
    match d {
        Ok(d) => Ok(d@),
        Err(e) => Err(e@),
    }
}

pub open spec fn item_views(items: Seq<Result<Delta, String>>) -> Seq<Result<DeltaView, Seq<char>>> {
    items.map_values(|d: Result<Delta, String>| item_view(d))
}

/// What a chunk of bytes does. Once an event has ended the reply, no further chunk is read; once
/// one has reported a failure, no further event is.
pub open spec fn response_fed(st: ResponsesView, buf: Seq<char>, bytes: Seq<u8>) -> (
    ResponsesView,
    Seq<char>,
    Seq<Result<DeltaView, Seq<char>>>,
) {
    if st.ended || st.failed {
        (st, buf, Seq::empty())
    } else {
        read_events(st, buf + chunk_text(bytes))
    }
}

/// A reply in the Responses protocol, as far as it has come in.
pub struct ResponsesStream {
    pub buf: String,
    pub calls: Vec<ToolCall>,
    pub positions: HashMap<u64, usize>,
    pub status: Option<String>,
    pub ended: bool,
    pub failed: bool,
}

impl View for ResponsesStream {
    type V = ResponsesView;

    open spec fn view(&self) -> ResponsesView {
        ResponsesView {
            calls: call_views(self.calls@),
            positions: self.positions@,
            status: opt_view(self.status),
            ended: self.ended,
            failed: self.failed,
        }
    }
}

pub open spec fn no_response() -> ResponsesView {
    ResponsesView {
        calls: Seq::empty(),
        positions: Map::empty(),
        status: None,
        ended: false,
        failed: false,
    }
}

fn find_call_ending(calls: &Vec<ToolCall>, id: &str) -> (r: Option<usize>)
    ensures
        match r {
            Some(i) => call_ending(call_views(calls@), id@, 0) == Some(i as int) && i < calls@.len(),
            None => call_ending(call_views(calls@), id@, 0) is None,
        },
{
    let ghost all = call_views(calls@);
    let mut i: usize = 0;
    while i < calls.len()
        invariant
            i <= calls@.len(),
            all == call_views(calls@),
            call_ending(all, id@, 0) == call_ending(all, id@, i as int),
        decreases calls@.len() - i,
    {
        assert(all[i as int] == calls@[i as int]@);
        if has_suffix(calls[i].id.as_str(), id) {
            return Some(i);
        }
        i += 1;
    }
    None
}

fn locate_call(calls: &Vec<ToolCall>, positions: &HashMap<u64, usize>, v: &Json) -> (r: usize)
    ensures
        r == call_of_event(call_views(calls@), positions@, v@),
{
    broadcast use vstd::std_specs::hash::group_hash_axioms;

    let known: Option<usize> = match v.u64_at("output_index") {
        Some(i) => match positions.get(&i) {
            Some(p) => Some(*p),
            None => None,
        },
        None => None,
    };
    match known {
        Some(p) => p,
        None => match v.text_at("item_id") {
            Some(id) => {
                if !id.is_empty() {
                    match find_call_ending(calls, id) {
                        Some(p) => p,
                        None => 0,
                    }
                } else {
                    0
                }
            },
            None => 0,
        },
    }
}

/// Adds a fragment of arguments to the call that the event is about.
pub fn append_call_args(
    calls: &mut Vec<ToolCall>,
    positions: &HashMap<u64, usize>,
    v: &Json,
    fragment: &str,
)
    ensures
        call_views(final(calls)@) == appended(call_views(old(calls)@), positions@, v@, fragment@),
{
    let i: usize = locate_call(calls, positions, v);
    let ghost before = call_views(calls@);
    if i < calls.len() {
        let mut call = calls[i].duplicate();
        call.function.arguments.append(fragment);
        assert(call@ == (CallView { arguments: before[i as int].arguments + fragment@, ..before[i as int] }));
        calls.set(i, call);
        assert(call_views(calls@) =~= before.update(i as int, call@));
    }
}

/// Sets the arguments of the call that the event is about.
pub fn set_call_args(
    calls: &mut Vec<ToolCall>,
    positions: &HashMap<u64, usize>,
    v: &Json,
    whole: &str,
)
    ensures
        call_views(final(calls)@) == with_arguments(call_views(old(calls)@), positions@, v@, whole@),
{
    let i: usize = locate_call(calls, positions, v);
    let ghost before = call_views(calls@);
    if i < calls.len() {
        let mut call = calls[i].duplicate();
        call.function.arguments = whole.to_owned();
        assert(call@ == (CallView { arguments: whole@, ..before[i as int] }));
        calls.set(i, call);
        assert(call_views(calls@) =~= before.update(i as int, call@));
    }
}

impl ResponsesStream {
    pub fn new() -> (r: ResponsesStream)
        ensures
            r@ == no_response(),
            r.buf@.len() == 0,
    {
        let r = ResponsesStream {
            buf: String::new(),
            calls: Vec::new(),
            positions: HashMap::new(),
            status: None,
            ended: false,
            failed: false,
        };
        assert(r@ =~= no_response());
        r
    }

    fn take_item(&mut self, v: &Json)
        ensures
            final(self)@ == on_item(old(self)@, v@),
            final(self).buf == old(self).buf,
    {
        broadcast use vstd::std_specs::hash::group_hash_axioms;

        if let Some(item) = v.get("item") {
            let is_call = match item.text_at("type") {
                Some(t) => same(t, "function_call"),
                None => false,
            };
            if is_call {
                let index: u64 = match v.u64_at("output_index") {
                    Some(i) => i,
                    None => 0,
                };
                let id = match item.text_at("call_id") {
                    Some(s) => s,
                    None => "",
                };
                let name = match item.text_at("name") {
                    Some(s) => s,
                    None => "",
                };
                let call = ToolCall {
                    id: id.to_owned(),
                    kind: "function".to_owned(),
                    function: FunctionCall { name: name.to_owned(), arguments: "".to_owned() },
                };
                let position: usize = self.calls.len();
                self.positions.insert(index, position);
                let ghost before = self.calls@;
                self.calls.push(call);
                assert(call@ == begun(item@));
                assert(call_views(self.calls@) =~= call_views(before).push(call@));
                assert(self@ =~= on_item(old(self)@, v@));
            }
        }
    }

    fn take_arguments(&mut self, v: &Json, fragment: Option<&str>)
        ensures
            final(self)@ == on_arguments(
                old(self)@,
                v@,
                match fragment {
                    Some(f) => Some(f@),
                    None => None,
                },
            ),
            final(self).buf == old(self).buf,
    {
        if let Some(f) = fragment {
            if !f.is_empty() {
                append_call_args(&mut self.calls, &self.positions, v, f);
            }
        }
    }

    /// Takes in one event of the stream.
    pub fn take_event(&mut self, kind: &str, v: &Json) -> (r: Option<Result<Delta, String>>)
        ensures
            (final(self)@, opt_item(r)) == on_event(old(self)@, kind@, v@),
            final(self).buf == old(self).buf,
    {
        if same(kind, "response.output_text.delta") {
            if let Some(t) = v.text_at("delta") {
                if !t.is_empty() {
                    return Some(Ok(Delta::Text(t.to_owned())));
                }
            }
            None
        } else if same(kind, "response.output_item.added") {
            self.take_item(v);
            None
        } else if same(kind, "response.function_call_arguments.delta") {
            self.take_arguments(v, v.text_at("delta"));
            None
        } else if same(kind, "response.function_call_arguments.done") {
            if let Some(whole) = v.text_at("arguments") {
                if !whole.is_empty() {
                    set_call_args(&mut self.calls, &self.positions, v, whole);
                }
            }
            None
        } else if same(kind, "response.completed") {
            if let Some(r) = v.get("response") {
                if let Some(s) = r.text_at("status") {
                    self.status = Some(s.to_owned());
                }
            }
            self.ended = true;
            None
        } else if same(kind, "response.incomplete") {
            self.status = Some("incomplete".to_owned());
            self.ended = true;
            None
        } else if same(kind, "response.failed") {
            self.failed = true;
            let mut text = "LLM response 失败: ".to_owned();
            let error = match v.get("response") {
                Some(r) => r.get("error"),
                None => None,
            };
            match error {
                Some(e) => text.append(e.render().as_str()),
                None => text.append("response failed"),
            }
            Some(Err(text))
        } else if same(kind, "error") {
            self.failed = true;
            let mut text = "LLM error 事件: ".to_owned();
            match v.text_at("message") {
                Some(m) => text.append(m),
                None => text.append("unknown error"),
            }
            Some(Err(text))
        } else {
            None
        }
    }

    fn take_block(&mut self, block: &str) -> (r: Option<Result<Delta, String>>)
        ensures
            (final(self)@, opt_item(r)) == on_block(old(self)@, block@),
            final(self).buf == old(self).buf,
    {
        let (kind, data) = parse_sse_event(block);
        if data.as_str().is_empty() {
            return None;
        }
        match Json::parse(data.as_str()) {
            Some(v) => {
                if !kind.as_str().is_empty() {
                    self.take_event(kind.as_str(), &v)
                } else {
                    match v.text_at("type") {
                        Some(t) => self.take_event(t, &v),
                        None => self.take_event("", &v),
                    }
                }
            },
            None => None,
        }
    }

    /// Takes in one chunk of bytes and gives what its events bring.
    pub fn feed(&mut self, bytes: &[u8]) -> (r: Vec<Result<Delta, String>>)
        ensures
            (final(self)@, final(self).buf@, item_views(r@)) == response_fed(
                old(self)@,
                old(self).buf@,
                bytes@,
            ),
    {
        let mut r: Vec<Result<Delta, String>> = Vec::new();
        if self.ended || self.failed {
            assert(item_views(r@) =~= Seq::empty());
            return r;
        }
        let text = text_of_chunk(bytes);
        self.buf.append(text.as_str());
        let v = chars_of(self.buf.as_str());
        let blank = chars_of("\n\n");
        let n: usize = v.len();
        let mut from: usize = 0;
        let ghost goal = read_events(self@, v@);
        proof {
            reveal_strlit("\n\n");
            assert(v@.skip(0) =~= v@);
            assert(item_views(r@) =~= Seq::empty());
            assert(Seq::empty() + goal.2 =~= goal.2);
        }
        while !self.failed
            invariant
                from <= n,
                n == v@.len(),
                blank@ == "\n\n"@,
                "\n\n"@.len() == 2,
                ({
                    let rest = read_events(self@, v@.skip(from as int));
                    goal == (rest.0, rest.1, item_views(r@) + rest.2)
                }),
            ensures
                ({
                    let rest = read_events(self@, v@.skip(from as int));
                    rest == (
                        self@,
                        v@.skip(from as int),
                        Seq::<Result<DeltaView, Seq<char>>>::empty(),
                    )
                }),
            decreases n - from,
        {
            let ghost buf = v@.skip(from as int);
            proof {
                lemma_find_skip(v@, "\n\n"@, from as int);
            }
            match find_chars(&v, &blank, from) {
                Some(i) => {
                    let block = string_of(&v, from, i + 2);
                    assert(block@ =~= buf.take(i - from + 2));
                    assert(v@.skip(i + 2) =~= buf.skip(i - from + 2));
                    let ghost before = r@;
                    let ghost was = self@;
                    let d = self.take_block(block.as_str());
                    if let Some(item) = d {
                        r.push(item);
                        assert(opt_item(Some(item)) =~= seq![item_view(item)]);
                        assert(item_views(r@) =~= item_views(before) + seq![item_view(item)]);
                    } else {
                        assert(item_views(r@) =~= item_views(before) + opt_item(None));
                    }
                    from = i + 2;
                    proof {
                        let rest = read_events(self@, v@.skip(from as int));
                        let was_rest = read_events(was, buf);
                        assert(item_views(before) + was_rest.2 =~= item_views(r@) + rest.2);
                    }
                },
                None => {
                    break;
                },
            }
        }
        self.buf = string_of(&v, from, n);
        assert(self.buf@ =~= v@.skip(from as int));
        assert(item_views(r@) + Seq::empty() =~= item_views(r@));
        r
    }

    /// What the reply ends with, once the stream is over. After a failure there is nothing more.
    pub fn finish(self) -> (r: Vec<Delta>)
        ensures
            delta_views(r@) == if self.failed {
                Seq::empty()
            } else {
                closing(self@.calls, self@.status == Some("incomplete"@))
            },
    {
        if self.failed {
            let none: Vec<Delta> = Vec::new();
            assert(delta_views(none@) =~= Seq::empty());
            return none;
        }
        let cut = match &self.status {
            Some(s) => same(s.as_str(), "incomplete"),
            None => false,
        };
        close(self.calls, cut)
    }
}

// ---------- laws ----------

/// A find in the first part of a text is a find in the whole.
pub proof fn lemma_find_extend(x: Seq<char>, y: Seq<char>, p: Seq<char>, i: int)
    requires
        0 <= i,
        p.len() > 0,
        find_from(x, p, i) is Some,
    ensures
        find_from(x + y, p, i) == find_from(x, p, i),
    decreases x.len() + 1 - i,
{
    assert(x.subrange(i, i + p.len()) =~= (x + y).subrange(i, i + p.len()));
    if !occurs_at(x, p, i) {
        lemma_find_extend(x, y, p, i + 1);
    }
}

proof fn lemma_read_lines_add(st: CompletionsView, x: Seq<char>, y: Seq<char>)
    ensures
        ({
            let (st1, rest1, out1) = read_lines(st, x);
            let (st2, rest2, out2) = read_lines(st1, rest1 + y);
            read_lines(st, x + y) == (st2, rest2, out1 + out2)
        }),
    decreases x.len(),
{
    let (st1, rest1, out1) = read_lines(st, x);
    reveal_strlit("\n");
    lemma_find_from(x, "\n"@, 0);
    if !st.done && find(x, "\n"@) is Some {
        let i = find(x, "\n"@)->0;
        lemma_find_extend(x, y, "\n"@, 0);
        assert((x + y).take(i + 1) =~= x.take(i + 1));
        assert((x + y).skip(i + 1) =~= x.skip(i + 1) + y);
        let (sta, outa) = on_line(st, x.take(i + 1));
        lemma_read_lines_add(sta, x.skip(i + 1), y);
        let (stb, restb, outb) = read_lines(sta, x.skip(i + 1));
        let (stc, restc, outc) = read_lines(stb, restb + y);
        assert(outa + (outb + outc) =~= (outa + outb) + outc);
    } else {
        let (st2, rest2, out2) = read_lines(st, x + y);
        assert(Seq::<DeltaView>::empty() + out2 =~= out2);
    }
}

/// How the bytes of a Chat Completions reply are cut into chunks makes no difference, as long as
/// no character is cut apart: two chunks one after the other bring what the two bring as one.
pub proof fn completion_chunks_may_be_cut(st: CompletionsView, buf: Seq<char>, a: Seq<u8>, b: Seq<u8>)
    requires
        valid_utf8(a),
        valid_utf8(b),
    ensures
        ({
            let (st1, rest1, out1) = completion_fed(st, buf, a);
            let (st2, rest2, out2) = completion_fed(st1, rest1, b);
            let (st3, rest3, out3) = completion_fed(st, buf, a + b);
            &&& st3 == st2
            &&& out3 == out1 + out2
            &&& !st1.done ==> rest3 == rest2
        }),
{
    lemma_chunk_add(a, b);
    lemma_read_lines_add(st, buf + chunk_text(a), chunk_text(b));
    assert(buf + (chunk_text(a) + chunk_text(b)) =~= buf + chunk_text(a) + chunk_text(b));
    let (st1, rest1, out1) = completion_fed(st, buf, a);
    assert(out1 + Seq::<DeltaView>::empty() =~= out1);
}

pub proof fn lemma_chunk_add(a: Seq<u8>, b: Seq<u8>)
    requires
        valid_utf8(a),
        valid_utf8(b),
    ensures
        valid_utf8(a + b),
        chunk_text(a + b) == chunk_text(a) + chunk_text(b),
    decreases a.len(),
{
    vstd::utf8::valid_utf8_concat(a, b);
    if a.len() == 0 {
        assert(a + b =~= b);
        assert(chunk_text(a) + chunk_text(b) =~= chunk_text(b));
    } else {
        vstd::utf8::decode_utf8_encode_utf8(a);
        vstd::utf8::decode_utf8_encode_utf8(b);
        lemma_encode_add(decode_utf8(a), decode_utf8(b));
        vstd::utf8::encode_utf8_decode_utf8(decode_utf8(a) + decode_utf8(b));
    }
}

proof fn lemma_encode_add(x: Seq<char>, y: Seq<char>)
    ensures
        vstd::utf8::encode_utf8(x + y) == vstd::utf8::encode_utf8(x) + vstd::utf8::encode_utf8(y),
    decreases x.len(),
{
    if x.len() == 0 {
        assert(x + y =~= y);
        assert(vstd::utf8::encode_utf8(x) + vstd::utf8::encode_utf8(y) =~= vstd::utf8::encode_utf8(y));
    } else {
        assert((x + y).drop_first() =~= x.drop_first() + y);
        lemma_encode_add(x.drop_first(), y);
        assert((x + y)[0] == x[0]);
        assert(vstd::utf8::encode_utf8(x + y) =~= vstd::utf8::encode_utf8(x) + vstd::utf8::encode_utf8(y));
    }
}

proof fn lemma_read_events_add(st: ResponsesView, x: Seq<char>, y: Seq<char>)
    ensures
        ({
            let (st1, rest1, out1) = read_events(st, x);
            let (st2, rest2, out2) = read_events(st1, rest1 + y);
            read_events(st, x + y) == (st2, rest2, out1 + out2)
        }),
    decreases x.len(),
{
    let (st1, rest1, out1) = read_events(st, x);
    reveal_strlit("\n\n");
    lemma_find_from(x, "\n\n"@, 0);
    if !st.failed && find(x, "\n\n"@) is Some {
        let i = find(x, "\n\n"@)->0;
        lemma_find_extend(x, y, "\n\n"@, 0);
        assert((x + y).take(i + 2) =~= x.take(i + 2));
        assert((x + y).skip(i + 2) =~= x.skip(i + 2) + y);
        let (sta, outa) = on_block(st, x.take(i + 2));
        lemma_read_events_add(sta, x.skip(i + 2), y);
        let (stb, restb, outb) = read_events(sta, x.skip(i + 2));
        let (stc, restc, outc) = read_events(stb, restb + y);
        assert(outa + (outb + outc) =~= (outa + outb) + outc);
    } else {
        let (st2, rest2, out2) = read_events(st, x + y);
        assert(Seq::<Result<DeltaView, Seq<char>>>::empty() + out2 =~= out2);
    }
}

/// The whole arguments of a call win over the pieces: whatever came in before, they are the
/// arguments of the call from then on, and nothing else changes.
pub proof fn whole_arguments_win(st: ResponsesView, v: JsonView, whole: Seq<char>)
    requires
        v.text_at("arguments"@) == Some(whole),
        whole.len() > 0,
        call_of_event(st.calls, st.positions, v) < st.calls.len(),
    ensures
        ({
            let i = call_of_event(st.calls, st.positions, v);
            let (after, out) = on_event(st, "response.function_call_arguments.done"@, v);
            &&& after.calls[i].arguments == whole
            &&& after == ResponsesView {
                calls: st.calls.update(i, CallView { arguments: whole, ..st.calls[i] }),
                ..st
            }
            &&& out.len() == 0
        }),
{
    reveal_strlit("response.output_text.delta");
    reveal_strlit("response.output_item.added");
    reveal_strlit("response.function_call_arguments.delta");
    reveal_strlit("response.function_call_arguments.done");
    assert("response.function_call_arguments.done"@.len()
        != "response.function_call_arguments.delta"@.len());
    assert("response.function_call_arguments.done"@.len() != "response.output_text.delta"@.len());
    assert("response.function_call_arguments.done"@.len() != "response.output_item.added"@.len());
    lemma_call_of_event(st.calls, st.positions, v);
}

proof fn lemma_call_of_event(calls: Seq<CallView>, positions: Map<u64, usize>, v: JsonView)
    ensures
        call_of_event(calls, positions, v) >= 0,
{
    if let Some(id) = v.text_at("item_id"@) {
        lemma_call_ending(calls, id, 0);
    }
}

proof fn lemma_call_ending(calls: Seq<CallView>, id: Seq<char>, i: int)
    ensures
        call_ending(calls, id, i) matches Some(k) ==> i <= k < calls.len() && 0 <= k,
    decreases calls.len() - i,
{
    if 0 <= i < calls.len() {
        lemma_call_ending(calls, id, i + 1);
    }
}

/// How the bytes of a Responses reply are cut into chunks makes no difference either, as long as
/// no character is cut apart and the first chunk does not end the reply.
pub proof fn response_chunks_may_be_cut(st: ResponsesView, buf: Seq<char>, a: Seq<u8>, b: Seq<u8>)
    requires
        valid_utf8(a),
        valid_utf8(b),
        !response_fed(st, buf, a).0.ended,
    ensures
        ({
            let (st1, rest1, out1) = response_fed(st, buf, a);
            let (st2, rest2, out2) = response_fed(st1, rest1, b);
            let (st3, rest3, out3) = response_fed(st, buf, a + b);
            &&& st3 == st2
            &&& out3 == out1 + out2
            &&& !st1.failed ==> rest3 == rest2
        }),
{
    lemma_chunk_add(a, b);
    lemma_read_events_add(st, buf + chunk_text(a), chunk_text(b));
    assert(buf + (chunk_text(a) + chunk_text(b)) =~= buf + chunk_text(a) + chunk_text(b));
    let (st1, rest1, out1) = response_fed(st, buf, a);
    assert(out1 + Seq::<Result<DeltaView, Seq<char>>>::empty() =~= out1);
}

} // verus!
