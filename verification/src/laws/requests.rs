//! Laws of requests and replies: nothing that is said is lost on the way to the model or back.
use vstd::prelude::*;
use crate::agent::{
    bracketed, call_arguments, description_of, dispatched, extracted, is_mcp, last_at, mcp_summary, statements,
    statements_of, tool_line, tool_lines,
};
use crate::json::{json_read, json_text, JsonView};
use crate::laws::jobs::is_core;
use crate::laws::streams::{field, list_field, text_field, text_or};
use crate::laws::texts::{joining_is_piecewise, trimming_keeps_the_core};
use crate::llm::body::{
    call_item, call_json, completions_body, content_parts, input_items, input_of, message_json, messages_json,
    responses_body, tool_schema, tools_schema, ToolInfo,
};
use crate::llm::protocol::{
    body_for, endpoint, is_unsupported, learned, protocol, request_failure, verdict, ApiType, Fallback, Verdict,
};
use crate::llm::reply::{
    completion_text, items_text, listed_ids, model_ids, models_failure, parts_text, responses_text,
};
use crate::llm::{CallView, LlmConfig, MessageView};
use crate::text::{is_white_space, joined, lemma_run_is, trimmed, words, CharClass};

verus! {

// ---------- what is sent ----------

/// Whether the field of an object is a text, or not there where there is none.
pub open spec fn holds_text(v: JsonView, key: Seq<char>, t: Option<Seq<char>>) -> bool {
    &&& t is Some ==> text_field(v, key) == t
    &&& t is None ==> field(v, key) is None
}

/// Whether an object is a call: its id, its kind, its name and its arguments.
pub open spec fn is_call(v: JsonView, c: CallView) -> bool {
    &&& text_field(v, "id"@) == Some(c.id)
    &&& text_field(v, "type"@) == Some(c.kind)
    &&& field(v, "function"@) is Some
    &&& text_field(field(v, "function"@)->0, "name"@) == Some(c.name)
    &&& text_field(field(v, "function"@)->0, "arguments"@) == Some(c.arguments)
}

proof fn lemma_keys()
    ensures
        "id"@.len() == 2 && "type"@.len() == 4 && "role"@.len() == 4 && "name"@.len() == 4 && "text"@.len() == 4,
        "function"@.len() == 8 && "arguments"@.len() == 9 && "content"@.len() == 7 && "tool_calls"@.len() == 10,
        "tool_call_id"@.len() == 12 && "cache_control"@.len() == 13 && "model"@.len() == 5,
        "messages"@.len() == 8 && "tools"@.len() == 5 && "stream"@.len() == 6 && "input"@.len() == 5,
        "stream_options"@.len() == 14 && "include_usage"@.len() == 13 && "description"@.len() == 11,
        "parameters"@.len() == 10 && "call_id"@.len() == 7 && "output"@.len() == 6,
        "role"@ != "name"@ && "type"@ != "role"@ && "type"@ != "name"@ && "type"@ != "text"@,
        "model"@ != "tools"@ && "model"@ != "input"@ && "tools"@ != "input"@,
        "assistant"@.len() == 9 && "tool"@.len() == 4 && "user"@.len() == 4 && "system"@.len() == 6,
        "tool"@ != "user"@,
{
    reveal_strlit("id");
    reveal_strlit("type");
    reveal_strlit("role");
    reveal_strlit("name");
    reveal_strlit("text");
    reveal_strlit("function");
    reveal_strlit("arguments");
    reveal_strlit("content");
    reveal_strlit("tool_calls");
    reveal_strlit("tool_call_id");
    reveal_strlit("cache_control");
    reveal_strlit("model");
    reveal_strlit("messages");
    reveal_strlit("tools");
    reveal_strlit("stream");
    reveal_strlit("input");
    reveal_strlit("stream_options");
    reveal_strlit("include_usage");
    reveal_strlit("description");
    reveal_strlit("parameters");
    reveal_strlit("call_id");
    reveal_strlit("output");
    reveal_strlit("assistant");
    reveal_strlit("tool");
    reveal_strlit("user");
    reveal_strlit("system");
    assert("role"@[0] == 'r' && "name"@[0] == 'n' && "type"@[0] == 't' && "text"@[0] == 't');
    assert("type"@[1] == 'y' && "text"@[1] == 'e');
    assert("model"@[0] == 'm' && "tools"@[0] == 't' && "input"@[0] == 'i');
    assert("tool"@[0] == 't' && "user"@[0] == 'u');
}

/// A call is sent with its id, its kind, its name and its arguments.
pub proof fn calls_are_sent_whole(c: CallView)
    ensures
        is_call(call_json(c), c),
{
    lemma_keys();
}

/// A message is sent with all it has and nothing else.
pub proof fn messages_are_sent_whole(m: MessageView, key: Seq<char>)
    ensures
        ({
            let v = message_json(m);
            &&& text_field(v, "role"@) == Some(m.role)
            &&& holds_text(v, "content"@, m.content)
            &&& holds_text(v, "tool_call_id"@, m.tool_call_id)
            &&& holds_text(v, "name"@, m.name)
            &&& m.tool_calls is None ==> field(v, "tool_calls"@) is None
            &&& m.tool_calls is Some ==> list_field(v, "tool_calls"@) is Some
            &&& m.tool_calls matches Some(calls) ==> list_field(v, "tool_calls"@)->0.len() == calls.len()
                && forall|k: int|
                0 <= k < calls.len() ==> is_call(#[trigger] list_field(v, "tool_calls"@)->0[k], calls[k])
            &&& field(v, key) is Some ==> key == "role"@ || key == "content"@ || key == "tool_call_id"@ || key
                == "name"@ || key == "tool_calls"@
        }),
{
    lemma_keys();
    if m.tool_calls is Some {
        let calls = m.tool_calls->0;
        let all = list_field(message_json(m), "tool_calls"@)->0;
        assert forall|k: int| 0 <= k < calls.len() implies is_call(#[trigger] all[k], calls[k]) by {
            calls_are_sent_whole(calls[k]);
        }
    }
}

/// All messages are sent, in their order. Where the cache is asked for, a system message at the start
/// is marked, and otherwise sent as it is.
pub proof fn all_messages_are_sent(messages: Seq<MessageView>, cached: bool, i: int, key: Seq<char>)
    requires
        0 <= i < messages.len(),
    ensures
        messages_json(messages, cached).len() == messages.len(),
        !cached || i > 0 || messages[i].role != "system"@ ==> messages_json(messages, cached)[i] == message_json(
            messages[i],
        ),
        cached && messages[0].role == "system"@ ==> {
            let marked = messages_json(messages, cached)[0];
            &&& field(marked, "cache_control"@) is Some
            &&& text_field(field(marked, "cache_control"@)->0, "type"@) == Some("ephemeral"@)
            &&& key != "cache_control"@ ==> field(marked, key) == field(message_json(messages[0]), key)
        },
{
    lemma_keys();
}

/// The body of a request has the model, all messages, all tools, and whether the reply is streamed.
pub proof fn completion_requests_are_complete(
    model: Seq<char>,
    messages: Seq<MessageView>,
    tools: Seq<JsonView>,
    cached: bool,
    stream: bool,
)
    ensures
        ({
            let v = completions_body(model, messages, tools, cached, stream);
            &&& text_field(v, "model"@) == Some(model)
            &&& list_field(v, "messages"@) == Some(messages_json(messages, cached))
            &&& list_field(v, "tools"@) == Some(tools)
            &&& field(v, "stream"@) == Some(JsonView::Bool(stream))
            &&& field(v, "stream_options"@) is Some == stream
            &&& stream ==> field(field(v, "stream_options"@)->0, "include_usage"@) == Some(JsonView::Bool(false))
        }),
{
    lemma_keys();
}

/// The body of a request has the model, all input items, the tools where there are any, and whether
/// the reply is streamed.
pub proof fn response_requests_are_complete(
    model: Seq<char>,
    messages: Seq<MessageView>,
    tools: Seq<JsonView>,
    stream: bool,
)
    ensures
        ({
            let v = responses_body(model, messages, tools, stream);
            &&& text_field(v, "model"@) == Some(model)
            &&& list_field(v, "input"@) == Some(input_of(messages))
            &&& tools.len() > 0 ==> list_field(v, "tools"@) == Some(tools)
            &&& tools.len() == 0 ==> field(v, "tools"@) is None
            &&& field(v, "stream"@) == Some(JsonView::Bool(stream))
        }),
{
    lemma_keys();
}

/// A tool is described to the model by its name, what it does and what it takes; all tools are, in
/// their order.
pub proof fn tools_are_described(tools: Seq<ToolInfo>, k: int)
    requires
        0 <= k < tools.len(),
    ensures
        tools_schema(tools).len() == tools.len(),
        tools_schema(tools)[k] == tool_schema(tools[k]),
        ({
            let v = tool_schema(tools[k]);
            &&& text_field(v, "type"@) == Some("function"@)
            &&& field(v, "function"@) is Some
            &&& text_field(field(v, "function"@)->0, "name"@) == Some(tools[k].name@)
            &&& text_field(field(v, "function"@)->0, "description"@) == Some(tools[k].description@)
            &&& field(field(v, "function"@)->0, "parameters"@) == Some(tools[k].parameters@)
        }),
{
    lemma_keys();
}

/// Whether an item is a message of a role with just this text, marked as such.
pub open spec fn is_said(v: JsonView, role: Seq<char>, kind: Seq<char>, text: Seq<char>) -> bool {
    &&& text_field(v, "type"@) == Some("message"@)
    &&& text_field(v, "role"@) == Some(role)
    &&& list_field(v, "content"@) is Some
    &&& list_field(v, "content"@)->0.len() == 1
    &&& text_field(list_field(v, "content"@)->0[0], "type"@) == Some(kind)
    &&& text_field(list_field(v, "content"@)->0[0], "text"@) == Some(text)
}

/// Whether an item is a call.
pub open spec fn is_call_item(v: JsonView, c: CallView) -> bool {
    &&& text_field(v, "type"@) == Some("function_call"@)
    &&& text_field(v, "call_id"@) == Some(c.id)
    &&& text_field(v, "name"@) == Some(c.name)
    &&& text_field(v, "arguments"@) == Some(c.arguments)
}

proof fn lemma_call_item(c: CallView)
    ensures
        is_call_item(call_item(c), c),
{
    lemma_keys();
}

/// What a message gives as input: what the model said and then each of its calls in their order; the
/// output of a tool under the id of its call; for any other role what was said.
pub proof fn items_say_what_was_said(m: MessageView, said: Seq<char>, calls: Seq<CallView>)
    requires
        said == text_or(m.content, Seq::empty()),
        calls == (if m.tool_calls is Some {
            m.tool_calls->0
        } else {
            Seq::empty()
        }),
    ensures
        m.role == "assistant"@ && said.len() > 0 ==> {
            &&& input_items(m).len() == calls.len() + 1
            &&& is_said(input_items(m)[0], "assistant"@, "output_text"@, said)
            &&& forall|k: int|
                #![trigger calls[k]]
                0 <= k < calls.len() ==> is_call_item(input_items(m)[k + 1], calls[k])
        },
        m.role == "assistant"@ && said.len() == 0 ==> {
            &&& input_items(m).len() == calls.len()
            &&& forall|k: int|
                #![trigger calls[k]]
                0 <= k < calls.len() ==> is_call_item(input_items(m)[k], calls[k])
        },
        m.role == "tool"@ ==> {
            &&& input_items(m).len() == 1
            &&& text_field(input_items(m)[0], "type"@) == Some("function_call_output"@)
            &&& text_field(input_items(m)[0], "call_id"@) == Some(text_or(m.tool_call_id, ""@))
            &&& text_field(input_items(m)[0], "output"@) == Some(said)
        },
        m.role != "assistant"@ && m.role != "tool"@ ==> {
            &&& input_items(m).len() == 1
            &&& is_said(input_items(m)[0], m.role, "input_text"@, said)
        },
        content_parts(m).len() == 1,
{
    lemma_keys();
    reveal_strlit("");
    assert(""@ =~= Seq::<char>::empty());
    assert forall|k: int| #![trigger calls[k]] 0 <= k < calls.len() implies is_call_item(call_item(calls[k]), calls[k]) by {
        lemma_call_item(calls[k]);
    }
}

/// The input is made of what each message gives, one after the other.
pub proof fn input_goes_by_messages(a: Seq<MessageView>, b: Seq<MessageView>, m: MessageView)
    ensures
        input_of(Seq::empty()) == Seq::<JsonView>::empty(),
        input_of(seq![m]) == input_items(m),
        input_of(a + b) == input_of(a) + input_of(b),
    decreases b.len(),
{
    assert(seq![m].drop_last() =~= Seq::empty());
    assert(input_of(Seq::empty()) + input_items(m) =~= input_items(m));
    if b.len() == 0 {
        assert(a + b =~= a);
        assert(input_of(a) + input_of(b) =~= input_of(a));
    } else {
        input_goes_by_messages(a, b.drop_last(), m);
        assert((a + b).drop_last() =~= a + b.drop_last());
        assert(input_of(a + b) =~= input_of(a) + input_of(b));
    }
}

// ---------- where it is sent ----------

/// Where a request goes and what it holds, by protocol.
pub proof fn requests_go_by_protocol(
    cfg: LlmConfig,
    messages: Seq<MessageView>,
    tools: Seq<JsonView>,
    stream: bool,
    known: Fallback,
)
    ensures
        known.found is None ==> protocol(known) == ApiType::Responses,
        known.found is Some ==> protocol(known) == ApiType::ChatCompletions,
        endpoint(cfg.api_base@, ApiType::Responses) == cfg.api_base@ + "/responses"@,
        endpoint(cfg.api_base@, ApiType::ChatCompletions) == cfg.api_base@ + "/chat/completions"@,
        body_for(ApiType::Responses, cfg, messages, tools, stream) == responses_body(
            cfg.model@,
            messages,
            tools,
            stream,
        ),
        body_for(ApiType::ChatCompletions, cfg, messages, tools, stream) == completions_body(
            cfg.model@,
            messages,
            tools,
            cfg.prompt_cache_control,
            stream,
        ),
{
}

/// A success is read. Where the newer protocol is not there, the older one is tried, once and for
/// all; anything else is a failure, and nothing is learned of it.
pub proof fn answers_are_judged_by_status(known: Fallback, asked: ApiType, status: u16)
    ensures
        verdict(asked, status) == Verdict::Read <==> 200 <= status <= 299,
        verdict(asked, status) == Verdict::Retry <==> asked == ApiType::Responses && (status == 400 || status == 404
            || status == 405),
        is_unsupported(status) <==> status == 400 || status == 404 || status == 405,
        verdict(asked, status) == Verdict::Retry ==> protocol(learned(known, asked, status))
            == ApiType::ChatCompletions,
        verdict(asked, status) != Verdict::Retry ==> learned(known, asked, status) == known,
        protocol(known) == ApiType::ChatCompletions ==> protocol(learned(known, asked, status))
            == ApiType::ChatCompletions,
{
}

/// A failure is told with its status and all its text.
pub proof fn failures_are_told(status: Seq<char>, text: Seq<char>)
    ensures
        request_failure(true, status, text) == "LLM 流式请求失败 ["@ + status + "]: "@ + text,
        request_failure(false, status, text) == "LLM 非流式请求失败 ["@ + status + "]: "@ + text,
        models_failure(status, text) == "获取模型列表失败 ["@ + status + "]: "@ + text,
{
}

// ---------- what comes back ----------

/// The text of a reply is that of its parts, one after the other; parts without text add nothing, and
/// items that are no messages are passed over.
pub proof fn reply_text_is_piecewise(parts: Seq<JsonView>, items: Seq<JsonView>, p: JsonView, v: JsonView)
    ensures
        parts_text(Seq::empty()).len() == 0,
        parts_text(parts.push(p)) == parts_text(parts) + text_or(text_field(p, "text"@), Seq::empty()),
        items_text(Seq::empty()).len() == 0,
        text_field(p, "type"@) == Some("message"@) && list_field(p, "content"@) is Some ==> items_text(
            items.push(p),
        ) == items_text(items) + parts_text(list_field(p, "content"@)->0),
        text_field(p, "type"@) != Some("message"@) || list_field(p, "content"@) is None ==> items_text(
            items.push(p),
        ) == items_text(items),
        list_field(v, "output"@) is Some ==> responses_text(v) == items_text(list_field(v, "output"@)->0),
        list_field(v, "output"@) is None ==> responses_text(v).len() == 0,
{
    assert(parts.push(p).drop_last() =~= parts);
    assert(items.push(p).drop_last() =~= items);
    assert(items_text(items) + Seq::<char>::empty() =~= items_text(items));
}

/// The text of a reply is the content of the message of its first choice, all of it.
pub proof fn completion_text_is_the_content(v: JsonView, choices: Seq<JsonView>, message: JsonView)
    ensures
        list_field(v, "choices"@) == Some(choices) && choices.len() > 0 && field(choices[0], "message"@) == Some(
            message,
        ) ==> completion_text(v) == text_or(text_field(message, "content"@), Seq::empty()),
        list_field(v, "choices"@) is None ==> completion_text(v).len() == 0,
        list_field(v, "choices"@) == Some(choices) && (choices.len() == 0 || field(choices[0], "message"@) is None)
            ==> completion_text(v).len() == 0,
{
}

/// Every model with an id is listed.
pub proof fn models_are_listed(models: Seq<JsonView>, m: JsonView, v: JsonView)
    ensures
        listed_ids(Seq::empty()).len() == 0,
        text_field(m, "id"@) is Some ==> listed_ids(models.push(m)) == listed_ids(models).push(
            text_field(m, "id"@)->0,
        ),
        text_field(m, "id"@) is None ==> listed_ids(models.push(m)) == listed_ids(models),
        list_field(v, "data"@) is Some ==> model_ids(v) == listed_ids(list_field(v, "data"@)->0),
        list_field(v, "data"@) is None ==> model_ids(v).len() == 0,
{
    assert(models.push(m).drop_last() =~= models);
}

// ---------- statements worth keeping ----------

proof fn lemma_last_at(s: Seq<char>, c: char, rest: Seq<char>)
    requires
        forall|i: int| 0 <= i < rest.len() ==> #[trigger] rest[i] != c,
    ensures
        last_at(s + seq![c] + rest, c) == s.len(),
        last_at(rest, c) == -1,
    decreases rest.len(),
{
    let t = s + seq![c] + rest;
    if rest.len() == 0 {
        assert(t.last() == c);
    } else {
        let front = rest.drop_last();
        assert forall|i: int| 0 <= i < front.len() implies #[trigger] front[i] != c by {
            assert(front[i] == rest[i]);
        }
        lemma_last_at(s, c, front);
        assert(t.drop_last() =~= s + seq![c] + front);
        assert(t.last() == rest[rest.len() - 1]);
        assert(rest.last() == rest[rest.len() - 1]);
    }
}

/// The part in brackets goes from the first opening bracket to the last closing one.
#[verifier::spinoff_prover]
#[verifier::rlimit(50)]
pub proof fn brackets_are_found(before: Seq<char>, inner: Seq<char>, after: Seq<char>)
    requires
        forall|i: int| 0 <= i < before.len() ==> #[trigger] before[i] != '[',
        forall|i: int| 0 <= i < after.len() ==> #[trigger] after[i] != ']',
    ensures
        bracketed(before + seq!['['] + inner + seq![']'] + after) == Some(seq!['['] + inner + seq![']']),
        bracketed(before) is None,
        bracketed(after) is None,
        bracketed(before + seq!['['] + after) is None,
{
    let open = seq!['['];
    let close = seq![']'];
    let s = before + open + inner + close + after;
    let k = CharClass::Just('[');
    assert(s =~= before + (open + inner + close + after));
    assert forall|i: int| 0 <= i < before.len() implies k.has(#[trigger] s[i]) == false by {
        assert(s[i] == before[i]);
    }
    assert(s[before.len() as int] == '[');
    lemma_run_is(s, k, false, before.len());
    lemma_last_at(before + open + inner, ']', after);
    assert(s.subrange(before.len() as int, (before + open + inner).len() as int + 1) =~= open + inner + close);
    assert forall|i: int| 0 <= i < before.len() implies k.has(#[trigger] before[i]) == false by {}
    lemma_run_is(before, k, false, before.len());
    crate::text::lemma_run_len(after, k, false);
    lemma_last_at(Seq::empty(), ']', after);
    let t = before + open + after;
    assert forall|i: int| 0 <= i < before.len() implies k.has(#[trigger] t[i]) == false by {
        assert(t[i] == before[i]);
    }
    assert(t[before.len() as int] == '[');
    lemma_run_is(t, k, false, before.len());
    lemma_last_before(before + open, ']', after);
}

proof fn lemma_last_before(s: Seq<char>, c: char, rest: Seq<char>)
    requires
        forall|i: int| 0 <= i < rest.len() ==> #[trigger] rest[i] != c,
        s.len() > 0 && s.last() != c,
    ensures
        last_at(s + rest, c) < s.len() - 1,
    decreases rest.len(),
{
    let t = s + rest;
    if rest.len() == 0 {
        assert(t =~= s);
        lemma_last_bound(s.drop_last(), c);
    } else {
        let front = rest.drop_last();
        assert forall|i: int| 0 <= i < front.len() implies #[trigger] front[i] != c by {
            assert(front[i] == rest[i]);
        }
        lemma_last_before(s, c, front);
        assert(t.drop_last() =~= s + front);
        assert(t.last() == rest[rest.len() - 1]);
    }
}

proof fn lemma_last_bound(s: Seq<char>, c: char)
    ensures
        last_at(s, c) < s.len(),
    decreases s.len(),
{
    if s.len() > 0 {
        lemma_last_bound(s.drop_last(), c);
    }
}

/// Each text of a list that is not blank is a statement, without white space at its ends; nothing
/// else is.
pub proof fn statements_are_all_taken(items: Seq<JsonView>, item: JsonView, before: Seq<char>, core: Seq<char>, after: Seq<char>)
    requires
        forall|i: int| 0 <= i < before.len() ==> is_white_space(#[trigger] before[i]),
        forall|i: int| 0 <= i < after.len() ==> is_white_space(#[trigger] after[i]),
        is_core(core),
    ensures
        statements(Seq::empty()).len() == 0,
        statements(items.push(JsonView::Str(before + core + after))) == statements(items).push(core),
        statements(items.push(JsonView::Str(before))) == statements(items),
        !(item is Str) ==> statements(items.push(item)) == statements(items),
        statements_of(JsonView::Array(items)) == statements(items),
        !(item is Array) ==> statements_of(item).len() == 0,
{
    trimming_keeps_the_core(before, core, after);
    let none = Seq::<char>::empty();
    trimming_keeps_the_core(before, none, none);
    assert(before + none + none =~= before);
    assert(items.push(JsonView::Str(before + core + after)).drop_last() =~= items);
    assert(items.push(JsonView::Str(before)).drop_last() =~= items);
    assert(items.push(item).drop_last() =~= items);
}

/// What the model gives back is read by the list in it, whatever stands around the list; what holds no
/// list holds no statement.
#[verifier::spinoff_prover]
#[verifier::rlimit(50)]
pub proof fn lists_are_read_out(before: Seq<char>, inner: Seq<char>, after: Seq<char>)
    requires
        forall|i: int| 0 <= i < before.len() ==> #[trigger] before[i] != '[',
        forall|i: int| 0 <= i < after.len() ==> #[trigger] after[i] != ']',
    ensures
        ({
            let list = seq!['['] + inner + seq![']'];
            let found = extracted(before + seq!['['] + inner + seq![']'] + after);
            &&& json_text(list) is Some ==> found == statements_of(json_text(list)->0)
            &&& json_text(list) is None ==> found.len() == 0
        }),
        extracted(before).len() == 0,
        extracted(after).len() == 0,
{
    let list = seq!['['] + inner + seq![']'];
    let s = before + seq!['['] + inner + seq![']'] + after;
    assert(s =~= before + list + after);
    let (x, y) = lemma_trimmed_around(before, list, after);
    assert forall|i: int| 0 <= i < x.len() implies #[trigger] x[i] != '[' by {
        let k = choose|k: int| 0 <= k < before.len() && before[k] == x[i];
        assert(before[k] != '[');
    }
    assert forall|i: int| 0 <= i < y.len() implies #[trigger] y[i] != ']' by {
        let k = choose|k: int| 0 <= k < after.len() && after[k] == y[i];
        assert(after[k] != ']');
    }
    assert(trimmed(s) =~= x + seq!['['] + inner + seq![']'] + y);
    brackets_are_found(x, inner, y);
    lemma_nothing_listed(before, '[');
    lemma_nothing_listed(after, ']');
}

/// Trimming reaches no further than what stands around a part without white space at its ends.
proof fn lemma_trimmed_around(before: Seq<char>, part: Seq<char>, after: Seq<char>) -> (r: (Seq<char>, Seq<char>))
    requires
        is_core(part),
    ensures
        trimmed(before + part + after) == r.0 + part + r.1,
        forall|i: int| 0 <= i < r.0.len() ==> before.contains(#[trigger] r.0[i]),
        forall|i: int| 0 <= i < r.1.len() ==> after.contains(#[trigger] r.1[i]),
{
    let s = before + part + after;
    crate::laws::texts::trimming_takes_white_space_only(s);
    let t = trimmed(s);
    let (a, b) = choose|a: Seq<char>, b: Seq<char>|
        #![trigger a + t + b]
        s == a + t + b && crate::tools::skill::all_blank(a) && crate::tools::skill::all_blank(b);
    lemma_ends_cut(before, part, after, a, t, b);
    let (x, y) = (before.skip(a.len() as int), after.take(after.len() - b.len()));
    assert forall|i: int| 0 <= i < x.len() implies before.contains(#[trigger] x[i]) by {
        assert(x[i] == before[i + a.len()]);
    }
    assert forall|i: int| 0 <= i < y.len() implies after.contains(#[trigger] y[i]) by {
        assert(y[i] == after[i]);
    }
    (x, y)
}

#[verifier::spinoff_prover]
#[verifier::rlimit(50)]
proof fn lemma_ends_cut(before: Seq<char>, part: Seq<char>, after: Seq<char>, a: Seq<char>, t: Seq<char>, b: Seq<char>)
    requires
        is_core(part),
        before + part + after == a + t + b,
        forall|i: int| 0 <= i < a.len() ==> is_white_space(#[trigger] a[i]),
        forall|i: int| 0 <= i < b.len() ==> is_white_space(#[trigger] b[i]),
    ensures
        a.len() <= before.len(),
        b.len() <= after.len(),
        t == before.skip(a.len() as int) + part + after.take(after.len() - b.len()),
{
    let s = before + part + after;
    let s2 = a + t + b;
    let n = before.len() as int;
    let m = before.len() + part.len() - 1;
    assert(s.len() == s2.len());
    assert(s[n] == part[0] && s[m] == part[part.len() - 1]);
    if a.len() > n {
        assert(s2[n] == a[n]);
    }
    if b.len() > after.len() {
        assert(s2[m] == b[m - a.len() - t.len()]);
    }
    let r = before.skip(a.len() as int) + part + after.take(after.len() - b.len());
    assert(r.len() == t.len());
    assert forall|i: int| 0 <= i < t.len() implies t[i] == r[i] by {
        assert(s2[a.len() + i] == t[i]);
        assert(s[a.len() + i] == r[i]);
    }
    assert(t =~= r);
}

proof fn lemma_nothing_listed(s: Seq<char>, c: char)
    requires
        c == '[' || c == ']',
        forall|i: int| 0 <= i < s.len() ==> #[trigger] s[i] != c,
    ensures
        extracted(s).len() == 0,
{
    crate::laws::texts::trimming_takes_white_space_only(s);
    let t = trimmed(s);
    let (a, b) = choose|a: Seq<char>, b: Seq<char>|
        #![trigger a + t + b]
        s == a + t + b && crate::tools::skill::all_blank(a) && crate::tools::skill::all_blank(b);
    assert forall|i: int| 0 <= i < t.len() implies #[trigger] t[i] != c by {
        assert(t[i] == s[a.len() + i]);
    }
    if c == '[' {
        brackets_are_found(t, t, Seq::empty());
    } else {
        brackets_are_found(Seq::empty(), t, t);
    }
}

// ---------- tools ----------

/// A tool is told by its name and, on one line, by what its first description says.
pub proof fn tools_are_told(name: Seq<char>, description: Seq<char>, tools: Seq<ToolInfo>, k: int)
    requires
        0 <= k < tools.len(),
        forall|j: int| 0 <= j < k ==> (#[trigger] tools[j]).name@ != tools[k].name@,
    ensures
        trimmed(description).len() == 0 ==> tool_line(name, description) == "- `"@ + name + "`"@,
        trimmed(description).len() > 0 ==> tool_line(name, description) == "- `"@ + name + ("`："@ + joined(
            words(trimmed(description)),
            " "@,
        )),
        description_of(tools, tools[k].name@, 0) == tools[k].description@,
        (forall|j: int| 0 <= j < tools.len() ==> (#[trigger] tools[j]).name@ != name) ==> description_of(tools, name, 0).len()
            == 0,
{
    lemma_description(tools, 0, k);
    if forall|j: int| 0 <= j < tools.len() ==> (#[trigger] tools[j]).name@ != name {
        lemma_no_description(tools, name, 0);
    }
}

proof fn lemma_no_description(tools: Seq<ToolInfo>, name: Seq<char>, i: int)
    requires
        0 <= i <= tools.len(),
        forall|j: int| 0 <= j < tools.len() ==> (#[trigger] tools[j]).name@ != name,
    ensures
        description_of(tools, name, i).len() == 0,
    decreases tools.len() - i,
{
    reveal_strlit("");
    if i < tools.len() {
        assert(tools[i].name@ != name);
        lemma_no_description(tools, name, i + 1);
    }
}

proof fn lemma_description(tools: Seq<ToolInfo>, i: int, k: int)
    requires
        0 <= i <= k < tools.len(),
        forall|j: int| i <= j < k ==> (#[trigger] tools[j]).name@ != tools[k].name@,
    ensures
        description_of(tools, tools[k].name@, i) == tools[k].description@,
    decreases k - i,
{
    if i < k {
        assert(tools[i].name@ != tools[k].name@);
        lemma_description(tools, i + 1, k);
    }
}

/// The summary of outside tools has a line for each of them, in their order; without such tools there
/// is none.
pub proof fn outside_tools_are_all_told(names: Seq<Seq<char>>, name: Seq<char>, tools: Seq<ToolInfo>)
    ensures
        mcp_summary(Seq::empty(), tools).len() == 0,
        names.len() > 0 ==> joined(tool_lines(names.push(name), tools), "\n"@) == joined(
            tool_lines(names, tools),
            "\n"@,
        ) + "\n"@ + tool_line(name, description_of(tools, name, 0)),
        joined(tool_lines(seq![name], tools), "\n"@) == tool_line(name, description_of(tools, name, 0)),
        names.len() > 0 ==> mcp_summary(names, tools)
            == "\n\n## MCP 工具（可用清单 + 使用准则）\n以下是以 `mcp__` 开头的外部能力工具（联网、浏览器、数据库等），按各自描述提供能力：\n\n"@
            + joined(tool_lines(names, tools), "\n"@)
            + "\n\n**通用准则**：当用户的请求落在某个工具的能力范围内时，主动调用它——不要凭自身记忆回答需要实时/外部数据的问题（如最新资讯、网页内容、外部系统数据），也不要反问「要不要用某工具」。按工具描述判断是否匹配即可。"@,
        is_mcp(name) <==> exists|r: Seq<char>| name == #[trigger] ("mcp__"@ + r),
{
    reveal_strlit("");
    let one = tool_lines(seq![name], tools);
    let line = tool_line(name, description_of(tools, name, 0));
    assert(one =~= seq![line]);
    assert(joined(one, "\n"@) == line);
    if names.len() > 0 {
        assert(tool_lines(names.push(name), tools) =~= tool_lines(names, tools) + one);
        joining_is_piecewise(tool_lines(names, tools), one, "\n"@);
    }
    crate::laws::texts::parts_are_there(name, "mcp__"@);
    if exists|r: Seq<char>| name == #[trigger] ("mcp__"@ + r) {
        let r = choose|r: Seq<char>| name == #[trigger] ("mcp__"@ + r);
        crate::laws::texts::prefixes_come_off("mcp__"@, r);
    }
}

/// The arguments of a call are read as they stand; where there are none, the tool gets an empty
/// object. A tool that is not there is told by its name, whatever the arguments.
pub proof fn arguments_are_read(name: Seq<char>, text: Seq<char>, blank: Seq<char>)
    requires
        forall|i: int| 0 <= i < blank.len() ==> is_white_space(#[trigger] blank[i]),
        exists|i: int| 0 <= i < text.len() && !is_white_space(#[trigger] text[i]),
    ensures
        dispatched(false, name, text) == Err::<JsonView, Seq<char>>("未知工具: "@ + name),
        dispatched(true, name, text) == json_read(text),
        call_arguments(blank) is Ok && call_arguments(blank)->Ok_0 is Object && call_arguments(
            blank,
        )->Ok_0->Object_0.dom() =~= Set::empty(),
        dispatched(true, name, blank) == call_arguments(blank),
{
    let none = Seq::<char>::empty();
    trimming_keeps_the_core(blank, none, none);
    assert(blank + none + none =~= blank);
    crate::laws::texts::trimming_takes_white_space_only(text);
    let t = trimmed(text);
    if t.len() == 0 {
        let (a, b) = choose|a: Seq<char>, b: Seq<char>|
            #![trigger a + t + b]
            text == a + t + b && crate::tools::skill::all_blank(a) && crate::tools::skill::all_blank(b);
        let i = choose|i: int| 0 <= i < text.len() && !is_white_space(#[trigger] text[i]);
        if i < a.len() {
            assert(text[i] == a[i]);
        } else {
            assert(text[i] == b[i - a.len()]);
        }
    }
}

} // verus!
