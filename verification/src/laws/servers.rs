//! Laws of outside tool servers: what is asked of them, how their answers are found, and whose tools
//! are offered.
use vstd::prelude::*;
use vstd::utf8::encode_utf8;
use crate::config::McpServerConfig;
use crate::json::{json_render, json_text, JsonView};
use crate::laws::streams::{bytes_bring_their_text, count_field, field, lemma_first_line, one_line, text_field};
use crate::laws::texts::{ends_are_taken_off, prefixes_come_off};
use crate::llm::body::{ToolInfo, ToolView};
use crate::llm::stream::{no_completion, no_response};
use crate::mcp::{
    answer_in, answered, call_params, collected, content_texts, failed_text, fed, gotten, initialize_params, next_number,
    not_found, notify_body, offers, on_line, read_lines, request_body, sent_headers, Content, ReaderView,
};
use crate::text::{nat_text, starts_with, CharClass};
use crate::tools::{names_differ, tool_views, with_tool};

verus! {

proof fn lemma_rpc_keys()
    ensures
        "jsonrpc"@.len() == 7 && "id"@.len() == 2 && "method"@.len() == 6 && "params"@.len() == 6,
        "method"@ != "params"@,
        "name"@.len() == 4 && "arguments"@.len() == 9 && "version"@.len() == 7,
        "protocolVersion"@.len() == 15 && "capabilities"@.len() == 12 && "clientInfo"@.len() == 10,
{
    reveal_strlit("jsonrpc");
    reveal_strlit("id");
    reveal_strlit("method");
    reveal_strlit("params");
    reveal_strlit("name");
    reveal_strlit("arguments");
    reveal_strlit("version");
    reveal_strlit("protocolVersion");
    reveal_strlit("capabilities");
    reveal_strlit("clientInfo");
    assert("method"@[0] == 'm' && "params"@[0] == 'p');
}

/// A request has its number, its method and its parameters; a notification has no number. A call names
/// its tool and hands on the arguments as they are.
pub proof fn requests_are_whole(id: u64, method: Seq<char>, params: JsonView, name: Seq<char>)
    ensures
        ({
            let v = request_body(id, method, params);
            &&& text_field(v, "jsonrpc"@) == Some("2.0"@)
            &&& count_field(v, "id"@) == Some(id)
            &&& text_field(v, "method"@) == Some(method)
            &&& field(v, "params"@) == Some(params)
        }),
        ({
            let v = notify_body(method, params);
            &&& text_field(v, "jsonrpc"@) == Some("2.0"@)
            &&& field(v, "id"@) is None
            &&& text_field(v, "method"@) == Some(method)
            &&& field(v, "params"@) == Some(params)
        }),
        text_field(call_params(name, params), "name"@) == Some(name),
        field(call_params(name, params), "arguments"@) == Some(params),
        text_field(initialize_params(), "protocolVersion"@) == Some("2025-06-18"@),
        field(initialize_params(), "capabilities"@) is Some,
        field(initialize_params(), "clientInfo"@) is Some,
        text_field(field(initialize_params(), "clientInfo"@)->0, "name"@) == Some("applepi"@),
{
    lemma_rpc_keys();
}

/// Requests are numbered one by one, and from zero again behind the last number there is.
pub proof fn requests_are_numbered(n: u64)
    ensures
        n < u64::MAX ==> next_number(n) == n + 1,
        n == u64::MAX ==> next_number(n) == 0,
{
}

/// Every request has the two headers of the protocol, all of the server's own, and the session where
/// there is one.
pub proof fn all_headers_are_sent(own: Seq<(Seq<char>, Seq<char>)>, session: Seq<char>, k: int)
    requires
        0 <= k < own.len(),
    ensures
        sent_headers(own, None).len() == own.len() + 2,
        sent_headers(own, Some(session)).len() == own.len() + 3,
        sent_headers(own, None)[0] == ("Accept"@, "application/json, text/event-stream"@),
        sent_headers(own, None)[1] == ("Content-Type"@, "application/json"@),
        sent_headers(own, None)[k + 2] == own[k],
        sent_headers(own, Some(session)).take(own.len() as int + 2) == sent_headers(own, None),
        sent_headers(own, Some(session)).last() == ("Mcp-Session-Id"@, session),
{
    assert(sent_headers(own, Some(session)).take(own.len() as int + 2) =~= sent_headers(own, None));
}

/// The answer to a request is the message with its number.
pub proof fn answers_go_by_number(data: Seq<char>, target: u64)
    ensures
        json_text(data) is Some && count_field(json_text(data)->0, "id"@) == Some(target) ==> answer_in(data, target)
            == json_text(data),
        json_text(data) is None || count_field(json_text(data)->0, "id"@) != Some(target) ==> answer_in(data, target)
            is None,
{
}

/// The lines of an answer: data lines are put together, one line each; an empty line ends the message,
/// which is the answer where it has the number, and is dropped where it has not; other lines change
/// nothing.
#[verifier::spinoff_prover]
#[verifier::rlimit(50)]
pub proof fn answer_lines_are_read(
    st: ReaderView,
    target: u64,
    data: Seq<char>,
    end: Seq<char>,
    other: Seq<char>,
)
    requires
        forall|i: int| 0 <= i < end.len() ==> (#[trigger] end[i] == '\n' || end[i] == '\r'),
        data.len() > 0 ==> data.last() != '\n' && data.last() != '\r',
        other.len() > 0 && other.last() != '\n' && other.last() != '\r' && !starts_with(other, "data:"@),
    ensures
        st.data.len() == 0 && (data.len() == 0 || data[0] != ' ') ==> on_line(st, target, "data:"@ + data + end) == (
        ReaderView { data, found: st.found }),
        st.data.len() > 0 && (data.len() == 0 || data[0] != ' ') ==> on_line(st, target, "data:"@ + data + end) == (
        ReaderView { data: st.data + "\n"@ + data, found: st.found }),
        st.data.len() == 0 ==> on_line(st, target, "data: "@ + data + end) == (ReaderView {
            data,
            found: st.found,
        }),
        st.data.len() > 0 ==> on_line(st, target, "data: "@ + data + end) == (ReaderView {
            data: st.data + "\n"@ + data,
            found: st.found,
        }),
        on_line(st, target, other + end) == st,
        st.data.len() == 0 ==> on_line(st, target, end) == st,
        st.data.len() > 0 && json_text(st.data) is Some && count_field(json_text(st.data)->0, "id"@) == Some(target)
            ==> on_line(st, target, end).found == json_text(st.data),
        st.data.len() > 0 && (json_text(st.data) is None || count_field(json_text(st.data)->0, "id"@) != Some(target))
            ==> on_line(st, target, end).data.len() == 0 && on_line(st, target, end).found == st.found,
{
    reveal_strlit("");
    reveal_strlit(" ");
    reveal_strlit("data:");
    reveal_strlit("data: ");
    let none = Seq::<char>::empty();
    let k = CharClass::LineEnd;
    assert forall|i: int| 0 <= i < end.len() implies k.has(#[trigger] end[i]) by {}
    ends_are_taken_off(none, end, k);
    assert(none + end =~= end);
    ends_are_taken_off(other, end, k);
    let a = "data:"@ + data;
    assert(a.last() == if data.len() > 0 { data.last() } else { ':' });
    ends_are_taken_off(a, end, k);
    prefixes_come_off("data:"@, data);
    if starts_with(data, " "@) {
        assert(data.take(1)[0] == data[0]);
    }
    let b = "data: "@ + data;
    assert(b.last() == if data.len() > 0 { data.last() } else { ' ' });
    ends_are_taken_off(b, end, k);
    assert(b =~= "data:"@ + (" "@ + data));
    prefixes_come_off("data:"@, " "@ + data);
    prefixes_come_off(" "@, data);
}

/// Lines are taken in one by one until the answer is there; what has no line end yet waits.
pub proof fn answers_are_read_line_by_line(st: ReaderView, target: u64, line: Seq<char>, rest: Seq<char>)
    requires
        one_line(line),
    ensures
        st.found is Some ==> read_lines(st, target, rest) == (st, rest),
        read_lines(st, target, line) == (st, line),
        st.found is None ==> read_lines(st, target, line + seq!['\n'] + rest) == read_lines(
            on_line(st, target, line + seq!['\n']),
            target,
            rest,
        ),
{
    lemma_first_line(line, rest);
    let s = line + seq!['\n'] + rest;
    assert(s.take(line.len() as int + 1) =~= line + seq!['\n']);
    assert(s.skip(line.len() as int + 1) =~= rest);
}

/// The bytes of a text bring the text, behind what is waiting; once the answer is there nothing more is
/// read.
pub proof fn answer_bytes_bring_their_text(st: ReaderView, target: u64, buf: Seq<char>, text: Seq<char>, bytes: Seq<u8>)
    ensures
        st.found is None ==> fed(st, target, buf, encode_utf8(text)) == read_lines(st, target, buf + text),
        st.found is Some ==> fed(st, target, buf, bytes) == (st, buf),
        not_found(target) == "SSE 流结束，未找到 id="@ + nat_text(target as nat) + " 的响应"@,
{
    bytes_bring_their_text(no_completion(), no_response(), buf, text, bytes);
}

/// An answer that holds an error is an error, with all of it; else its result is what it holds.
pub proof fn answers_hold_a_result_or_an_error(msg: JsonView, status: Seq<char>, text: Seq<char>)
    ensures
        field(msg, "error"@) matches Some(e) ==> answered(msg) == Err::<JsonView, Seq<char>>(
            "MCP error: "@ + json_render(e),
        ),
        field(msg, "error"@) is None && field(msg, "result"@) is Some ==> answered(msg) == Ok::<JsonView, Seq<char>>(
            field(msg, "result"@)->0,
        ),
        field(msg, "error"@) is None && field(msg, "result"@) is None ==> answered(msg) == Err::<JsonView, Seq<char>>(
            "MCP 响应缺少 result 字段: "@ + json_render(msg),
        ),
        failed_text(true, status, text) == "MCP notify 失败 ["@ + status + "]: "@ + text,
        failed_text(false, status, text) == "MCP 请求失败 ["@ + status + "]: "@ + text,
{
}

/// Every text among the parts of a result is given back, in its order; other parts are not.
pub proof fn all_texts_are_given_back(parts: Seq<Content>, p: Content)
    ensures
        content_texts(Seq::empty()).len() == 0,
        p.kind@ == "text"@ ==> content_texts(parts.push(p)) == content_texts(parts).push(p.text@),
        p.kind@ != "text"@ ==> content_texts(parts.push(p)) == content_texts(parts),
{
    assert(parts.push(p).drop_last() =~= parts);
}

/// All tools of each server that is switched on and answered are offered, server by server; of the
/// others none is.
pub proof fn all_tools_are_offered(
    servers: Seq<McpServerConfig>,
    got: Seq<Result<Vec<ToolInfo>, String>>,
    n: nat,
)
    requires
        n < servers.len(),
        n < got.len(),
    ensures
        offers(servers, gotten(got), 0).len() == 0,
        servers[n as int].enabled && got[n as int] is Ok ==> offers(servers, gotten(got), n + 1) == offers(
            servers,
            gotten(got),
            n,
        ) + got[n as int]->Ok_0@.map_values(
            |t: ToolInfo|
                ToolView { name: t.name@, description: t.description@, parameters: t.parameters@ },
        ),
        !servers[n as int].enabled || got[n as int] is Err ==> offers(servers, gotten(got), n + 1) == offers(
            servers,
            gotten(got),
            n,
        ),
{
    let before = offers(servers, gotten(got), n);
    assert(before + Seq::<ToolView>::empty() =~= before);
    if got[n as int] is Ok {
        let tools = got[n as int]->Ok_0@;
        assert(tool_views(tools) =~= tools.map_values(
            |t: ToolInfo|
                ToolView { name: t.name@, description: t.description@, parameters: t.parameters@ },
        ));
    }
}

/// Offers are collected in their order: each takes the place of the one of its name, or goes to the end.
pub proof fn offers_are_collected_in_order(tools: Seq<ToolView>, t: ToolView)
    ensures
        collected(Seq::empty()).len() == 0,
        collected(tools.push(t)) == with_tool(collected(tools), t),
        forall|i: int, j: int|
            names_differ(tools) && 0 <= i < j < tools.len() ==> (#[trigger] tools[i]).name != (
            #[trigger] tools[j]).name,
{
    assert(tools.push(t).drop_last() =~= tools);
}

} // verus!
