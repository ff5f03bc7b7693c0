//! Laws of streamed replies: what the stream brings comes out whole and in its order.
use vstd::prelude::*;
use vstd::utf8::{encode_utf8, valid_utf8};
use crate::json::{json_render, json_text, JsonView, NumberView};
use crate::laws::texts::{ends_are_taken_off, prefixes_come_off, trimming_keeps_the_core};
use crate::llm::sse::{event_fields, sse_event};
use crate::llm::stream::{
    call_ending, call_of_event, chunk_text, closing, completion_fed, merged, merged_one, no_completion,
    no_response, on_block, on_event, on_line, on_value, read_events, read_lines, response_fed,
    CompletionsView, ResponsesView,
};
use crate::llm::{CallView, DeltaView};
use crate::text::{
    find, is_white_space, joined, lemma_find_from, line_pieces, occurs_at, CharClass,
};

verus! {

/// What a reply ends with: all its calls in their order, in one item, or the word that it was cut
/// off; and then its end.
pub proof fn all_calls_are_handed_over(calls: Seq<CallView>, cut: bool)
    ensures
        closing(calls, cut).len() == (if calls.len() > 0 || cut {
            2int
        } else {
            1
        }),
        closing(calls, cut).last() is Final,
        calls.len() > 0 ==> closing(calls, cut)[0] is ToolCalls,
        calls.len() > 0 ==> closing(calls, cut)[0]->ToolCalls_0.len() == calls.len(),
        forall|k: int|
            #![trigger calls[k]]
            0 <= k < calls.len() ==> closing(calls, cut)[0]->ToolCalls_0[k].id == calls[k].id
                && closing(calls, cut)[0]->ToolCalls_0[k].kind == calls[k].kind
                && closing(calls, cut)[0]->ToolCalls_0[k].name == calls[k].name
                && closing(calls, cut)[0]->ToolCalls_0[k].arguments == calls[k].arguments,
        calls.len() > 0 ==> closing(calls, cut)[0]->ToolCalls_0 == calls,
        calls.len() == 0 && cut ==> closing(calls, cut)[0] is Truncated,
{
}

/// The field of an object; nothing of any other value, nor where the object does not name it.
pub open spec fn field(v: JsonView, key: Seq<char>) -> Option<JsonView> {
    if v is Object && v->Object_0.dom().contains(key) {
        Some(v->Object_0[key])
    } else {
        None
    }
}

/// The field of an object where it is a text.
pub open spec fn text_field(v: JsonView, key: Seq<char>) -> Option<Seq<char>> {
    if field(v, key) is Some && field(v, key)->0 is Str {
        Some(field(v, key)->0->Str_0)
    } else {
        None
    }
}

/// The field of an object where it is an integer that is not negative.
pub open spec fn count_field(v: JsonView, key: Seq<char>) -> Option<u64> {
    if field(v, key) is Some && field(v, key)->0 is Number && field(v, key)->0->Number_0 is Unsigned {
        Some(field(v, key)->0->Number_0->Unsigned_0)
    } else {
        None
    }
}

/// The field of an object where it is an array.
pub open spec fn list_field(v: JsonView, key: Seq<char>) -> Option<Seq<JsonView>> {
    if field(v, key) is Some && field(v, key)->0 is Array {
        Some(field(v, key)->0->Array_0)
    } else {
        None
    }
}

/// The field of a field.
pub open spec fn inner_text(v: JsonView, outer: Seq<char>, key: Seq<char>) -> Option<Seq<char>> {
    if field(v, outer) is Some {
        text_field(field(v, outer)->0, key)
    } else {
        None
    }
}

pub open spec fn text_or(t: Option<Seq<char>>, other: Seq<char>) -> Seq<char> {
    if t is Some {
        t->0
    } else {
        other
    }
}

/// Values are read as they are.
pub proof fn values_are_read_as_they_are(v: JsonView, key: Seq<char>, i: int)
    ensures
        v.get(key) == field(v, key),
        v.text_at(key) == text_field(v, key),
        v.uint_at(key) == count_field(v, key),
        v.array_at(key) == list_field(v, key),
        v is Array && 0 <= i < v->Array_0.len() ==> v.at(i) == Some(v->Array_0[i]),
        !(v is Array && 0 <= i < v->Array_0.len()) ==> v.at(i) is None,
        v.text() is Some == v is Str,
        v is Str ==> v.text()->0 == v->Str_0,
        v.truth() is Some == v is Bool,
        v is Bool ==> v.truth()->0 == v->Bool_0,
        v.truth_at(key) == (if field(v, key) is Some && field(v, key)->0 is Bool {
            Some(field(v, key)->0->Bool_0)
        } else {
            None
        }),
        v.array() is Some == v is Array,
        v is Array ==> v.array()->0 == v->Array_0,
        v is Number && v->Number_0 is Unsigned ==> v.uint() == Some(v->Number_0->Unsigned_0),
        !(v is Number && v->Number_0 is Unsigned) ==> v.uint() is None,
        v is Number && v->Number_0 is Negative ==> v.sint() == Some(v->Number_0->Negative_0),
        v is Number && v->Number_0 is Unsigned && v->Number_0->Unsigned_0 <= i64::MAX ==> v.sint() is Some
            && v.sint()->0 == v->Number_0->Unsigned_0,
        v is Number && v->Number_0 is Unsigned && v->Number_0->Unsigned_0 > i64::MAX ==> v.sint() is None,
        !(v is Number) ==> v.sint() is None,
        v.sint_at(key) == (if field(v, key) is Some {
            field(v, key)->0.sint()
        } else {
            None
        }),
{
}

/// An integer keeps its value as a number.
pub proof fn numbers_keep_their_value(n: i64)
    ensures
        n >= 0 ==> NumberView::of(n) is Unsigned && NumberView::of(n)->Unsigned_0 == n,
        n < 0 ==> NumberView::of(n) is Negative && NumberView::of(n)->Negative_0 == n,
{
}

/// A fragment of a call changes the call at its index and no other: what it names takes the place
/// of what was there, and its arguments go behind those that came before. Calls before that index
/// are made room for.
pub proof fn a_fragment_changes_its_call(calls: Seq<CallView>, d: JsonView, at: int)
    requires
        at == (if count_field(d, "index"@) is Some {
            count_field(d, "index"@)->0 as int
        } else {
            0
        }),
        at <= usize::MAX,
    ensures
        ({
            let all = merged_one(calls, d);
            let had = if at < calls.len() {
                calls[at]
            } else {
                CallView { id: ""@, kind: "function"@, name: ""@, arguments: ""@ }
            };
            &&& all.len() == if at < calls.len() {
                calls.len() as int
            } else {
                at + 1
            }
            &&& forall|k: int| 0 <= k < calls.len() && k != at ==> #[trigger] all[k] == calls[k]
            &&& forall|k: int|
                calls.len() <= k < at ==> (#[trigger] all[k]).id == ""@ && all[k].kind == "function"@
                    && all[k].name == ""@ && all[k].arguments == ""@
            &&& all[at].id == text_or(text_field(d, "id"@), had.id)
            &&& all[at].kind == text_or(text_field(d, "type"@), had.kind)
            &&& all[at].name == text_or(inner_text(d, "function"@, "name"@), had.name)
            &&& inner_text(d, "function"@, "arguments"@) is None ==> all[at].arguments == had.arguments
            &&& inner_text(d, "function"@, "arguments"@) matches Some(more) ==> all[at].arguments
                == had.arguments + more
        }),
{
}

/// Fragments are taken in one after the other, all of them.
pub proof fn fragments_are_all_taken_in(calls: Seq<CallView>, a: Seq<JsonView>, d: JsonView, b: Seq<JsonView>)
    ensures
        merged(calls, Seq::empty()) == calls,
        merged(calls, seq![d]) == merged_one(calls, d),
        merged(calls, a + b) == merged(merged(calls, a), b),
    decreases b.len(),
{
    assert(seq![d].drop_last() =~= Seq::<JsonView>::empty());
    assert(merged(calls, Seq::empty()) == calls);
    if b.len() == 0 {
        assert(a + b =~= a);
    } else {
        fragments_are_all_taken_in(calls, a, d, b.drop_last());
        assert((a + b).drop_last() =~= a + b.drop_last());
        assert((a + b).last() == b.last());
    }
}

/// Whether a fragment brings the whole call at `k`.
pub open spec fn brings(d: JsonView, k: int, id: Seq<char>, name: Seq<char>, args: Seq<char>) -> bool {
    &&& count_field(d, "index"@) is Some
    &&& count_field(d, "index"@)->0 == k
    &&& text_field(d, "id"@) == Some(id)
    &&& text_field(d, "type"@) is None
    &&& inner_text(d, "function"@, "name"@) == Some(name)
    &&& inner_text(d, "function"@, "arguments"@) == Some(args)
}

/// The calls that a stream brings, however many, are the calls that the reply ends with, in their
/// order, with their ids, names and arguments.
pub proof fn streamed_calls_come_through(
    fragments: Seq<JsonView>,
    ids: Seq<Seq<char>>,
    names: Seq<Seq<char>>,
    args: Seq<Seq<char>>,
    cut: bool,
)
    requires
        0 < fragments.len() <= usize::MAX,
        fragments.len() == ids.len() == names.len() == args.len(),
        forall|k: int|
            0 <= k < fragments.len() ==> brings(#[trigger] fragments[k], k, ids[k], names[k], args[k]),
    ensures
        ({
            let end = closing(merged(no_completion().calls, fragments), cut);
            &&& end.len() == 2
            &&& end[0] is ToolCalls
            &&& end[0]->ToolCalls_0.len() == fragments.len()
            &&& forall|k: int|
                #![trigger end[0]->ToolCalls_0[k]]
                0 <= k < fragments.len() ==> end[0]->ToolCalls_0[k] == (CallView {
                    id: ids[k],
                    kind: "function"@,
                    name: names[k],
                    arguments: args[k],
                })
            &&& end[1] is Final
        }),
{
    lemma_streamed(fragments, ids, names, args);
    all_calls_are_handed_over(merged(Seq::empty(), fragments), cut);
}

proof fn lemma_streamed(
    fragments: Seq<JsonView>,
    ids: Seq<Seq<char>>,
    names: Seq<Seq<char>>,
    args: Seq<Seq<char>>,
)
    requires
        fragments.len() <= usize::MAX,
        fragments.len() == ids.len() == names.len() == args.len(),
        forall|k: int|
            0 <= k < fragments.len() ==> brings(#[trigger] fragments[k], k, ids[k], names[k], args[k]),
    ensures
        ({
            let all = merged(Seq::empty(), fragments);
            &&& all.len() == fragments.len()
            &&& forall|k: int|
                0 <= k < fragments.len() ==> #[trigger] all[k] == (CallView {
                    id: ids[k],
                    kind: "function"@,
                    name: names[k],
                    arguments: args[k],
                })
        }),
    decreases fragments.len(),
{
    if fragments.len() > 0 {
        let n = fragments.len() - 1;
        let (f, i, m, a) = (fragments.drop_last(), ids.drop_last(), names.drop_last(), args.drop_last());
        assert forall|k: int| 0 <= k < f.len() implies brings(#[trigger] f[k], k, i[k], m[k], a[k]) by {
            assert(f[k] == fragments[k]);
        }
        lemma_streamed(f, i, m, a);
        let before = merged(Seq::empty(), f);
        assert(brings(fragments[n], n, ids[n], names[n], args[n]));
        a_fragment_changes_its_call(before, fragments[n], n);
        let all = merged(Seq::empty(), fragments);
        assert(all == merged_one(before, fragments[n]));
        reveal_strlit("");
        assert(""@ + args[n] =~= args[n]);
        assert forall|k: int| 0 <= k < fragments.len() implies #[trigger] all[k] == (CallView {
            id: ids[k],
            kind: "function"@,
            name: names[k],
            arguments: args[k],
        }) by {
            if k < n {
                assert(all[k] == before[k]);
            }
        }
    }
}

/// One value of a stream: its text is handed on, its fragments are taken in, and the reason for
/// the end is noted; of values without a choice nothing is.
pub proof fn values_are_taken_in(st: CompletionsView, v: JsonView, choice: JsonView)
    requires
        list_field(v, "choices"@) is Some && list_field(v, "choices"@)->0.len() > 0 ==> choice == list_field(
            v,
            "choices"@,
        )->0[0],
    ensures
        ({
            let (after, out) = on_value(st, v);
            if list_field(v, "choices"@) is Some && list_field(v, "choices"@)->0.len() > 0 {
                let said = inner_text(choice, "delta"@, "content"@);
                &&& after.done == st.done
                &&& text_field(choice, "finish_reason"@) is Some ==> after.finish == text_field(
                    choice,
                    "finish_reason"@,
                )
                &&& text_field(choice, "finish_reason"@) is None ==> after.finish == st.finish
                &&& said is Some && said->0.len() > 0 ==> out == seq![DeltaView::Text(said->0)]
                &&& said is None || said->0.len() == 0 ==> out.len() == 0
                &&& field(choice, "delta"@) is Some && list_field(field(choice, "delta"@)->0, "tool_calls"@)
                    is Some ==> after.calls == merged(
                    st.calls,
                    list_field(field(choice, "delta"@)->0, "tool_calls"@)->0,
                )
                &&& field(choice, "delta"@) is None || list_field(
                    field(choice, "delta"@)->0,
                    "tool_calls"@,
                ) is None ==> after.calls == st.calls
            } else {
                after == st && out.len() == 0
            }
        }),
{
}

/// One line of a stream: a data line is taken in, the end mark ends the stream, any other line
/// changes nothing.
pub proof fn lines_are_taken_in(
    st: CompletionsView,
    before: Seq<char>,
    core: Seq<char>,
    after: Seq<char>,
)
    requires
        forall|i: int| 0 <= i < before.len() ==> is_white_space(#[trigger] before[i]),
        forall|i: int| 0 <= i < after.len() ==> is_white_space(#[trigger] after[i]),
        core.len() > 0 ==> !is_white_space(core[0]) && !is_white_space(core.last()),
    ensures
        core == "data: [DONE]"@ ==> on_line(st, before + core + after) == (
            CompletionsView { calls: st.calls, finish: st.finish, done: true },
            Seq::<DeltaView>::empty(),
        ),
        forall|data: Seq<char>|
            core == #[trigger] ("data: "@ + data) && data != "[DONE]"@ && json_text(data) is Some
                ==> on_line(st, before + core + after) == on_value(st, json_text(data)->0),
        forall|data: Seq<char>|
            core == #[trigger] ("data: "@ + data) && data != "[DONE]"@ && json_text(data) is None
                ==> on_line(st, before + core + after) == (st, Seq::<DeltaView>::empty()),
        (forall|data: Seq<char>| core != #[trigger] ("data: "@ + data)) ==> on_line(
            st,
            before + core + after,
        ) == (st, Seq::<DeltaView>::empty()),
{
    trimming_keeps_the_core(before, core, after);
    crate::laws::texts::parts_are_there(core, "data: "@);
    reveal_strlit("data: [DONE]");
    reveal_strlit("data: ");
    reveal_strlit("[DONE]");
    assert("data: [DONE]"@ =~= "data: "@ + "[DONE]"@);
    prefixes_come_off("data: "@, "[DONE]"@);
    assert forall|data: Seq<char>| core == #[trigger] ("data: "@ + data) implies crate::text::after_prefix(
        core,
        "data: "@,
    ) == Some(data) by {
        prefixes_come_off("data: "@, data);
    }
}

/// Whether a text holds no line end.
pub open spec fn one_line(s: Seq<char>) -> bool {
    forall|i: int| 0 <= i < s.len() ==> #[trigger] s[i] != '\n'
}

pub proof fn lemma_first_line(line: Seq<char>, rest: Seq<char>)
    requires
        one_line(line),
    ensures
        find(line + seq!['\n'] + rest, "\n"@) == Some(line.len() as int),
        find(line, "\n"@) is None,
{
    reveal_strlit("\n");
    let s = line + seq!['\n'] + rest;
    lemma_find_from(s, "\n"@, 0);
    lemma_find_from(line, "\n"@, 0);
    assert(s.subrange(line.len() as int, line.len() as int + 1) =~= "\n"@);
    assert(occurs_at(s, "\n"@, line.len() as int));
    assert forall|j: int| 0 <= j < line.len() implies !#[trigger] occurs_at(s, "\n"@, j) by {
        if occurs_at(s, "\n"@, j) {
            assert(s.subrange(j, j + 1)[0] == line[j]);
        }
    }
    assert forall|j: int| 0 <= j implies !#[trigger] occurs_at(line, "\n"@, j) by {
        if occurs_at(line, "\n"@, j) {
            assert(line.subrange(j, j + 1)[0] == line[j]);
        }
    }
}

/// Lines are taken in one by one, each as soon as its end is there; what has no end yet waits, and
/// once the stream is done nothing more is taken in.
pub proof fn streams_are_read_line_by_line(st: CompletionsView, line: Seq<char>, rest: Seq<char>)
    requires
        one_line(line),
    ensures
        st.done ==> read_lines(st, line) == (st, line, Seq::<DeltaView>::empty()),
        !st.done ==> read_lines(st, line) == (st, line, Seq::<DeltaView>::empty()),
        !st.done ==> ({
            let (then, out) = on_line(st, line + seq!['\n']);
            let (end, left, more) = read_lines(then, rest);
            read_lines(st, line + seq!['\n'] + rest) == (end, left, out + more)
        }),
{
    lemma_first_line(line, rest);
    let s = line + seq!['\n'] + rest;
    assert(s.take(line.len() as int + 1) =~= line + seq!['\n']);
    assert(s.skip(line.len() as int + 1) =~= rest);
}

/// The bytes of a text bring the text, behind what is waiting; bytes that are no text bring
/// nothing. After the end nothing is read.
pub proof fn bytes_bring_their_text(st: CompletionsView, rs: ResponsesView, buf: Seq<char>, text: Seq<char>, bytes: Seq<u8>)
    ensures
        chunk_text(encode_utf8(text)) == text,
        !valid_utf8(bytes) ==> chunk_text(bytes).len() == 0,
        !st.done ==> completion_fed(st, buf, encode_utf8(text)) == read_lines(st, buf + text),
        st.done ==> completion_fed(st, buf, bytes) == (st, buf, Seq::<DeltaView>::empty()),
        !rs.ended && !rs.failed ==> response_fed(rs, buf, encode_utf8(text)) == read_events(rs, buf + text),
        rs.ended || rs.failed ==> response_fed(rs, buf, bytes) == (
            rs,
            buf,
            Seq::<Result<DeltaView, Seq<char>>>::empty(),
        ),
{
    vstd::utf8::encode_utf8_valid_utf8(text);
    vstd::utf8::encode_utf8_decode_utf8(text);
}

/// A stream begins with nothing.
pub proof fn streams_begin_empty()
    ensures
        no_completion().calls.len() == 0 && no_completion().finish is None && !no_completion().done,
        no_response().calls.len() == 0 && no_response().status is None && !no_response().ended
            && !no_response().failed,
        forall|i: u64| !no_response().positions.dom().contains(i),
{
}

/// The lines of an event: the last line that names a type gives it, every data line gives one
/// part, and other lines give nothing.
#[verifier::spinoff_prover]
#[verifier::rlimit(50)]
pub proof fn event_lines_are_read(lines: Seq<Seq<char>>, rest: Seq<char>, end: Seq<char>)
    requires
        forall|i: int| 0 <= i < end.len() ==> (#[trigger] end[i] == '\n' || end[i] == '\r'),
        rest.len() > 0 ==> rest.last() != '\n' && rest.last() != '\r',
    ensures
        event_fields(lines.push("event:"@ + rest + end)).1 == event_fields(lines).1,
        !is_white_space(rest[0]) && rest.len() > 0 && !is_white_space(rest.last()) ==> event_fields(
            lines.push("event:"@ + rest + end),
        ).0 == rest,
        !is_white_space(rest[0]) && rest.len() > 0 && !is_white_space(rest.last()) ==> event_fields(
            lines.push("event: "@ + rest + end),
        ).0 == rest,
        event_fields(lines.push("data:"@ + rest + end)).0 == event_fields(lines).0,
        rest.len() == 0 || rest[0] != ' ' ==> event_fields(lines.push("data:"@ + rest + end)).1
            == event_fields(lines).1.push(rest),
        rest.len() == 0 || rest[0] != ' ' ==> event_fields(lines.push("data: "@ + rest + end)).1
            == event_fields(lines).1.push(rest),
        event_fields(Seq::empty()).0.len() == 0,
        event_fields(Seq::empty()).1.len() == 0,
{
    reveal_strlit("event:");
    reveal_strlit("event: ");
    reveal_strlit("data:");
    reveal_strlit("data: ");
    assert forall|i: int| 0 <= i < end.len() implies CharClass::LineEnd.has(#[trigger] end[i]) by {}
    let blank = seq![' '];
    assert forall|i: int| 0 <= i < blank.len() implies CharClass::Just(' ').has(#[trigger] blank[i]) by {}
    assert forall|i: int| 0 <= i < blank.len() implies is_white_space(#[trigger] blank[i]) by {}
    let none = Seq::<char>::empty();
    // Type lines.
    let e = "event:"@ + rest;
    assert(e.last() == if rest.len() > 0 { rest.last() } else { ':' });
    ends_are_taken_off(e, end, CharClass::LineEnd);
    prefixes_come_off("event:"@, rest);
    assert(lines.push(e + end).drop_last() =~= lines);
    if rest.len() > 0 && !is_white_space(rest[0]) && !is_white_space(rest.last()) {
        trimming_keeps_the_core(none, rest, none);
        assert(none + rest + none =~= rest);
        let f = "event: "@ + rest;
        assert(f =~= "event:"@ + (blank + rest));
        ends_are_taken_off(f, end, CharClass::LineEnd);
        prefixes_come_off("event:"@, blank + rest);
        trimming_keeps_the_core(blank, rest, none);
        assert(blank + rest + none =~= blank + rest);
        assert(lines.push(f + end).drop_last() =~= lines);
    }
    // Data lines.
    let d = "data:"@ + rest;
    assert(d.last() == if rest.len() > 0 { rest.last() } else { ':' });
    ends_are_taken_off(d, end, CharClass::LineEnd);
    prefixes_come_off("data:"@, rest);
    assert(!crate::text::starts_with(d, "event:"@)) by {
        if crate::text::starts_with(d, "event:"@) {
            assert(d.take(6)[0] == 'e');
            assert(d[0] == 'd');
        }
    }
    assert(lines.push(d + end).drop_last() =~= lines);
    if rest.len() == 0 || rest[0] != ' ' {
        ends_are_taken_off(rest, none, CharClass::Just(' '));
        assert(none + rest =~= rest);
        let g = "data: "@ + rest;
        assert(g =~= "data:"@ + (blank + rest));
        assert(g.last() == if rest.len() > 0 { rest.last() } else { ' ' });
        ends_are_taken_off(g, end, CharClass::LineEnd);
        prefixes_come_off("data:"@, blank + rest);
        ends_are_taken_off(rest, blank, CharClass::Just(' '));
        assert(!crate::text::starts_with(g, "event:"@)) by {
            if crate::text::starts_with(g, "event:"@) {
                assert(g.take(6)[0] == 'e');
                assert(g[0] == 'd');
            }
        }
        assert(lines.push(g + end).drop_last() =~= lines);
    }
}

/// The text of an event is read line by line, and the parts of its data are joined by line ends.
pub proof fn events_are_read_line_by_line(block: Seq<char>)
    ensures
        sse_event(block).0 == event_fields(line_pieces(block)).0,
        sse_event(block).1 == joined(event_fields(line_pieces(block)).1, "\n"@),
{
}

/// Any other line of an event gives nothing.
pub proof fn other_event_lines_give_nothing(lines: Seq<Seq<char>>, other: Seq<char>, end: Seq<char>)
    requires
        forall|i: int| 0 <= i < end.len() ==> (#[trigger] end[i] == '\n' || end[i] == '\r'),
        other.len() > 0 ==> other.last() != '\n' && other.last() != '\r',
        forall|rest: Seq<char>| other != #[trigger] ("event:"@ + rest),
        forall|rest: Seq<char>| other != #[trigger] ("data:"@ + rest),
    ensures
        event_fields(lines.push(other + end)) == event_fields(lines),
{
    assert forall|i: int| 0 <= i < end.len() implies CharClass::LineEnd.has(#[trigger] end[i]) by {}
    ends_are_taken_off(other, end, CharClass::LineEnd);
    crate::laws::texts::parts_are_there(other, "event:"@);
    crate::laws::texts::parts_are_there(other, "data:"@);
    if crate::text::starts_with(other, "event:"@) {
        assert(other == "event:"@ + other.skip("event:"@.len() as int));
    }
    if crate::text::starts_with(other, "data:"@) {
        assert(other == "data:"@ + other.skip("data:"@.len() as int));
    }
    assert(lines.push(other + end).drop_last() =~= lines);
}

/// Which call a piece of arguments is for: the one that began at the output position it names;
/// else the first whose id ends in the item id it names; else the first of all.
pub proof fn pieces_find_their_call(calls: Seq<CallView>, positions: Map<u64, usize>, v: JsonView, k: int)
    requires
        0 <= k < calls.len(),
    ensures
        ({
            let at = call_of_event(calls, positions, v);
            let by_place = count_field(v, "output_index"@) is Some && positions.dom().contains(
                count_field(v, "output_index"@)->0,
            );
            let id = text_field(v, "item_id"@);
            &&& by_place ==> at == positions[count_field(v, "output_index"@)->0]
            &&& !by_place && id is Some && id->0.len() > 0 && ends_in(calls[k].id, id->0) && (forall|j: int|
                0 <= j < k ==> !ends_in(#[trigger] calls[j].id, id->0)) ==> at == k
            &&& !by_place && id is Some && (forall|j: int|
                0 <= j < calls.len() ==> !ends_in(#[trigger] calls[j].id, id->0)) ==> at == 0
            &&& !by_place && (id is None || id->0.len() == 0) ==> at == 0
        }),
{
    let id = text_field(v, "item_id"@);
    if id is Some {
        lemma_call_ending(calls, id->0, 0, k);
    }
}

/// Whether a text ends in another.
pub open spec fn ends_in(s: Seq<char>, p: Seq<char>) -> bool {
    s.len() >= p.len() && s.skip(s.len() - p.len()) == p
}

proof fn lemma_call_ending(calls: Seq<CallView>, id: Seq<char>, i: int, k: int)
    requires
        0 <= i,
        k < calls.len(),
    ensures
        i <= k && ends_in(calls[k].id, id) && (forall|j: int| i <= j < k ==> !ends_in(#[trigger] calls[j].id, id))
            ==> call_ending(calls, id, i) == Some(k),
        (forall|j: int| i <= j < calls.len() ==> !ends_in(#[trigger] calls[j].id, id)) ==> call_ending(calls, id, i)
            is None,
        call_ending(calls, id, i) matches Some(at) ==> i <= at < calls.len(),
    decreases calls.len() - i,
{
    if i < calls.len() {
        assert(crate::text::ends_with(calls[i].id, id) == ends_in(calls[i].id, id));
        lemma_call_ending(calls, id, i + 1, k);
    }
}

/// What each event does: text is handed on; an item that is a call begins one with its id and name
/// and without arguments; pieces of arguments go behind those that are there, and whole arguments
/// take their place; the end and its status are noted; a failure is handed on with its words.
#[verifier::spinoff_prover]
#[verifier::rlimit(50)]
pub proof fn events_do_what_they_say(st: ResponsesView, v: JsonView)
    requires
        st.calls.len() <= usize::MAX,
    ensures
        ({
            let (after, out) = on_event(st, "response.output_text.delta"@, v);
            let said = text_field(v, "delta"@);
            &&& after == st
            &&& said is Some && said->0.len() > 0 ==> out.len() == 1 && out[0] == Ok::<DeltaView, Seq<char>>(
                DeltaView::Text(said->0),
            )
            &&& said is None || said->0.len() == 0 ==> out.len() == 0
        }),
        ({
            let (after, out) = on_event(st, "response.output_item.added"@, v);
            let item = field(v, "item"@);
            let is_call = item is Some && text_field(item->0, "type"@) == Some("function_call"@);
            let place = if count_field(v, "output_index"@) is Some {
                count_field(v, "output_index"@)->0
            } else {
                0
            };
            &&& out.len() == 0
            &&& !is_call ==> after == st
            &&& after.status == st.status && after.ended == st.ended && after.failed == st.failed
            &&& is_call ==> after.calls.len() == st.calls.len() + 1
            &&& is_call ==> after.calls.take(st.calls.len() as int) == st.calls
            &&& is_call ==> after.calls.last().id == text_or(text_field(item->0, "call_id"@), ""@)
            &&& is_call ==> after.calls.last().name == text_or(text_field(item->0, "name"@), ""@)
            &&& is_call ==> after.calls.last().kind == "function"@
            &&& is_call ==> after.calls.last().arguments == ""@
            &&& is_call ==> after.positions.dom().contains(place) && after.positions[place] == st.calls.len()
            &&& is_call ==> forall|i: u64|
                i != place ==> #[trigger] after.positions.dom().contains(i) == st.positions.dom().contains(i)
            &&& is_call ==> forall|i: u64|
                i != place && st.positions.dom().contains(i) ==> #[trigger] after.positions[i]
                    == st.positions[i]
        }),
        ({
            let (after, out) = on_event(st, "response.completed"@, v);
            &&& out.len() == 0
            &&& after.calls == st.calls && after.positions == st.positions && after.failed == st.failed
            &&& after.ended
            &&& after.status == if inner_text(v, "response"@, "status"@) is Some {
                inner_text(v, "response"@, "status"@)
            } else {
                st.status
            }
        }),
        ({
            let (after, out) = on_event(st, "response.incomplete"@, v);
            &&& out.len() == 0
            &&& after.calls == st.calls && after.positions == st.positions && after.failed == st.failed
            &&& after.ended
            &&& after.status == Some("incomplete"@)
        }),
        ({
            let (after, out) = on_event(st, "response.failed"@, v);
            let why = if field(v, "response"@) is Some {
                field(field(v, "response"@)->0, "error"@)
            } else {
                None
            };
            &&& after.calls == st.calls && after.failed
            &&& out.len() == 1
            &&& out[0] == Err::<DeltaView, Seq<char>>(
                "LLM response 失败: "@ + if why is Some {
                    json_render(why->0)
                } else {
                    "response failed"@
                },
            )
        }),
        ({
            let (after, out) = on_event(st, "error"@, v);
            &&& after.calls == st.calls && after.failed
            &&& out.len() == 1
            &&& out[0] == Err::<DeltaView, Seq<char>>(
                "LLM error 事件: "@ + text_or(text_field(v, "message"@), "unknown error"@),
            )
        }),
{
    lemma_kinds();
    let (after, out) = on_event(st, "response.output_item.added"@, v);
    if after.calls.len() > st.calls.len() {
        assert(after.calls.take(st.calls.len() as int) =~= st.calls);
    }
}

/// Arguments: a piece goes behind what the call has, the whole takes the place of what it has, and
/// no other call is touched.
pub proof fn arguments_reach_their_call(st: ResponsesView, v: JsonView, k: int)
    requires
        0 <= k < st.calls.len(),
    ensures
        ({
            let at = call_of_event(st.calls, st.positions, v);
            let (after, out) = on_event(st, "response.function_call_arguments.delta"@, v);
            let more = text_field(v, "delta"@);
            &&& out.len() == 0
            &&& after.calls.len() == st.calls.len()
            &&& after.positions == st.positions && after.status == st.status && after.ended == st.ended
                && after.failed == st.failed
            &&& k != at || more is None ==> after.calls[k] == st.calls[k]
            &&& k == at && more is Some ==> after.calls[k] == (CallView {
                arguments: st.calls[k].arguments + more->0,
                ..st.calls[k]
            })
        }),
        ({
            let at = call_of_event(st.calls, st.positions, v);
            let (after, out) = on_event(st, "response.function_call_arguments.done"@, v);
            let whole = text_field(v, "arguments"@);
            &&& out.len() == 0
            &&& after.calls.len() == st.calls.len()
            &&& after.positions == st.positions && after.status == st.status && after.ended == st.ended
                && after.failed == st.failed
            &&& k != at || whole is None || whole->0.len() == 0 ==> after.calls[k] == st.calls[k]
            &&& k == at && whole is Some && whole->0.len() > 0 ==> after.calls[k] == (CallView {
                arguments: whole->0,
                ..st.calls[k]
            })
        }),
{
    lemma_kinds();
    let more = text_field(v, "delta"@);
    if text_field(v, "item_id"@) is Some {
        lemma_call_ending(st.calls, text_field(v, "item_id"@)->0, 0, k);
    }
    if more is Some && more->0.len() == 0 {
        assert(st.calls[k].arguments + more->0 =~= st.calls[k].arguments);
    }
}

proof fn lemma_kinds()
    ensures
        "response.output_text.delta"@.len() == 26,
        "response.output_item.added"@.len() == 26,
        "response.output_text.delta"@ != "response.output_item.added"@,
        "response.function_call_arguments.delta"@.len() == 38,
        "response.function_call_arguments.done"@.len() == 37,
        "response.completed"@.len() == 18,
        "response.incomplete"@.len() == 19,
        "response.failed"@.len() == 15,
        "error"@.len() == 5,
{
    reveal_strlit("response.output_text.delta");
    reveal_strlit("response.output_item.added");
    reveal_strlit("response.function_call_arguments.delta");
    reveal_strlit("response.function_call_arguments.done");
    reveal_strlit("response.completed");
    reveal_strlit("response.incomplete");
    reveal_strlit("response.failed");
    reveal_strlit("error");
    assert("response.output_text.delta"@[16] == 't');
    assert("response.output_item.added"@[16] == 'i');
}

/// An event is named by its line or, where no line names it, by its data; an event without data, or
/// whose data is no value, does nothing.
pub proof fn events_are_named(st: ResponsesView, block: Seq<char>)
    ensures
        ({
            let (name, data) = sse_event(block);
            if data.len() > 0 && json_text(data) is Some {
                let v = json_text(data)->0;
                on_block(st, block) == if name.len() > 0 {
                    on_event(st, name, v)
                } else {
                    on_event(st, text_or(text_field(v, "type"@), ""@), v)
                }
            } else {
                on_block(st, block) == (st, Seq::<Result<DeltaView, Seq<char>>>::empty())
            }
        }),
{
}

/// Events are taken in one by one, each as soon as the empty line behind it is there; after a
/// failure nothing more is.
pub proof fn streams_are_read_event_by_event(st: ResponsesView, block: Seq<char>, rest: Seq<char>)
    requires
        forall|i: int| 0 <= i && i + 1 < block.len() ==> !(#[trigger] block[i] == '\n' && block[i + 1] == '\n'),
        block.len() > 0 ==> block.last() != '\n',
    ensures
        read_events(st, block) == (st, block, Seq::<Result<DeltaView, Seq<char>>>::empty()),
        st.failed ==> read_events(st, block + seq!['\n', '\n'] + rest) == (
            st,
            block + seq!['\n', '\n'] + rest,
            Seq::<Result<DeltaView, Seq<char>>>::empty(),
        ),
        !st.failed ==> ({
            let (then, out) = on_block(st, block + seq!['\n', '\n']);
            let (end, left, more) = read_events(then, rest);
            read_events(st, block + seq!['\n', '\n'] + rest) == (end, left, out + more)
        }),
{
    reveal_strlit("\n\n");
    let s = block + seq!['\n', '\n'] + rest;
    let p = "\n\n"@;
    let n = block.len() as int;
    lemma_find_from(s, p, 0);
    lemma_find_from(block, p, 0);
    assert(s.subrange(n, n + 2) =~= p);
    assert(occurs_at(s, p, n));
    assert forall|j: int| 0 <= j < n implies !#[trigger] occurs_at(s, p, j) by {
        if occurs_at(s, p, j) {
            assert(s.subrange(j, j + 2)[0] == block[j]);
            assert(s.subrange(j, j + 2)[1] == s[j + 1]);
        }
    }
    assert forall|j: int| 0 <= j implies !#[trigger] occurs_at(block, p, j) by {
        if occurs_at(block, p, j) {
            assert(block.subrange(j, j + 2)[0] == block[j]);
            assert(block.subrange(j, j + 2)[1] == block[j + 1]);
        }
    }
    assert(s.take(n + 2) =~= block + seq!['\n', '\n']);
    assert(s.skip(n + 2) =~= rest);
}

} // verus!
