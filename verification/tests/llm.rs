use applepi::json::Json;
use applepi::llm::body::{
    build_chat_completions_body, build_responses_body, build_tools_schema, message_to_json, ToolInfo,
};
use applepi::llm::protocol::{
    new_fallback, request, request_error, should_fallback, ApiType, Fallback, Verdict,
};
use applepi::llm::reply::{
    extract_completion_text, extract_responses_text, list_models, models_error,
};
use applepi::llm::sse::parse_sse_event;
use applepi::llm::stream::{merge_tool_call_deltas, CompletionsStream, ResponsesStream};
use applepi::llm::{Delta, FunctionCall, LlmConfig, Message, ToolCall};

fn cfg() -> LlmConfig {
    LlmConfig {
        api_base: "https://example.invalid/v1".into(),
        api_key: "k".into(),
        model: "m".into(),
        prompt_cache_control: false,
    }
}

fn json(text: &str) -> Json {
    Json::parse(text).unwrap()
}

fn call(id: &str, name: &str, arguments: &str) -> ToolCall {
    ToolCall {
        id: id.into(),
        kind: "function".into(),
        function: FunctionCall { name: name.into(), arguments: arguments.into() },
    }
}

/// A delta in brief.
fn brief(d: &Delta) -> String {
    match d {
        Delta::Text(t) => format!("text:{t}"),
        Delta::ToolCalls(calls) => {
            let all: Vec<String> = calls
                .iter()
                .map(|c| format!("{}/{}/{}/{}", c.id, c.kind, c.function.name, c.function.arguments))
                .collect();
            format!("calls:{}", all.join(";"))
        }
        Delta::Final => "final".to_string(),
        Delta::Truncated => "truncated".to_string(),
    }
}

fn briefs(ds: &[Delta]) -> Vec<String> {
    ds.iter().map(brief).collect()
}

fn item(d: &Result<Delta, String>) -> String {
    match d {
        Ok(d) => brief(d),
        Err(e) => format!("error:{e}"),
    }
}

// ---- protocol ----

#[test]
fn fallback_status_triggers_on_not_found_bad_request_method_not_allowed() {
    assert!(should_fallback(404));
    assert!(should_fallback(400));
    assert!(should_fallback(405));
}

#[test]
fn fallback_status_does_not_trigger_on_auth_rate_limit_or_server_errors() {
    assert!(!should_fallback(401));
    assert!(!should_fallback(403));
    assert!(!should_fallback(429));
    assert!(!should_fallback(500));
    assert!(!should_fallback(502));
    assert!(!should_fallback(503));
}

#[test]
fn fallback_starts_none() {
    let fb = new_fallback();
    assert!(fb.found.is_none());
}

#[test]
fn responses_is_tried_first_and_a_refusal_is_remembered() {
    let mut known = new_fallback();
    let messages = vec![Message::user("hi")];
    let first = request(&known, &cfg(), &messages, &vec![], true);
    assert_eq!(first.api, ApiType::Responses);
    assert_eq!(first.url, "https://example.invalid/v1/responses");
    assert_eq!(first.body.render(), build_responses_body(&cfg(), &messages, &vec![], true).render());

    assert_eq!(known.on_status(first.api, 404), Verdict::Retry);
    assert_eq!(known, Fallback { found: Some(ApiType::ChatCompletions) });
    let second = request(&known, &cfg(), &messages, &vec![], true);
    assert_eq!(second.api, ApiType::ChatCompletions);
    assert_eq!(second.url, "https://example.invalid/v1/chat/completions");
    assert_eq!(known.on_status(second.api, 404), Verdict::Fail);
    assert_eq!(known.on_status(second.api, 200), Verdict::Read);
    assert_eq!(known.found, Some(ApiType::ChatCompletions));
}

#[test]
fn other_answers_do_not_change_the_protocol() {
    let mut known = new_fallback();
    assert_eq!(known.on_status(ApiType::Responses, 200), Verdict::Read);
    assert_eq!(known.on_status(ApiType::Responses, 299), Verdict::Read);
    assert_eq!(known.on_status(ApiType::Responses, 300), Verdict::Fail);
    assert_eq!(known.on_status(ApiType::Responses, 429), Verdict::Fail);
    assert!(known.found.is_none());
    assert_eq!(request_error(true, "500 X", "oops"), "LLM 流式请求失败 [500 X]: oops");
    assert_eq!(request_error(false, "500 X", "oops"), "LLM 非流式请求失败 [500 X]: oops");
}

// ---- events ----

#[test]
fn sse_event_parses_type_and_data() {
    let block = "event: response.output_text.delta\ndata: {\"delta\":\"hi\"}\n\n";
    let (ty, data) = parse_sse_event(block);
    assert_eq!(ty, "response.output_text.delta");
    assert_eq!(data, "{\"delta\":\"hi\"}");
}

#[test]
fn sse_event_strips_optional_space_after_colon() {
    let block = "event:response.completed\ndata: {\"a\":1}\n\n";
    let (ty, data) = parse_sse_event(block);
    assert_eq!(ty, "response.completed");
    assert_eq!(data, "{\"a\":1}");
}

#[test]
fn sse_event_multiline_data_joined() {
    let block = "event: x\ndata: line1\ndata:line2\n\n";
    let (_, data) = parse_sse_event(block);
    assert_eq!(data, "line1\nline2");
}

#[test]
fn sse_event_missing_event_returns_empty_type() {
    let (_, data) = parse_sse_event("data: {}\n\n");
    assert_eq!(data, "{}");
}

#[test]
fn sse_event_type_is_empty_and_carriage_returns_go() {
    assert_eq!(parse_sse_event("data: {}\n\n").0, "");
    let (ty, data) = parse_sse_event("event:  a b \r\ndata:   x\r\nid: 3\r\n\r\n");
    assert_eq!(ty, "a b");
    assert_eq!(data, "x");
    let (ty, data) = parse_sse_event("event: a\nevent: b\n");
    assert_eq!((ty.as_str(), data.as_str()), ("b", ""));
}

// ---- whole replies ----

#[test]
fn extract_text_single_message() {
    let v = json(r#"{"output":[{"type":"message","content":[{"type":"output_text","text":"你好"}]}]}"#);
    assert_eq!(extract_responses_text(&v), "你好");
}

#[test]
fn extract_text_skips_function_call_items() {
    let v = json(
        r#"{"output":[
            {"type":"function_call","call_id":"c1","name":"f","arguments":"{}"},
            {"type":"message","content":[{"type":"output_text","text":"done"}]}
        ]}"#,
    );
    assert_eq!(extract_responses_text(&v), "done");
}

#[test]
fn extract_text_empty_output() {
    assert_eq!(extract_responses_text(&json("{}")), "");
    assert_eq!(extract_responses_text(&json(r#"{"output": []}"#)), "");
}

#[test]
fn extract_text_joins_messages_and_parts() {
    let v = json(
        r#"{"output":[
            {"type":"message","content":[{"text":"a"},{"x":1},{"text":"b"}]},
            {"type":"message"},
            {"type":"message","content":[{"text":"c"}]}
        ]}"#,
    );
    assert_eq!(extract_responses_text(&v), "abc");
}

#[test]
fn completion_text_is_that_of_the_first_choice() {
    let v = json(r#"{"choices":[{"message":{"content":"a"}},{"message":{"content":"b"}}]}"#);
    assert_eq!(extract_completion_text(&v), "a");
    assert_eq!(extract_completion_text(&json(r#"{"choices":[{"message":{"content":null}}]}"#)), "");
    assert_eq!(extract_completion_text(&json(r#"{"choices":[]}"#)), "");
}

#[test]
fn models_are_sorted_and_listed_once() {
    let v = json(r#"{"data":[{"id":"b"},{"id":"a"},{"no":1},{"id":"b"},{"id":"B"},{"id":"ab"}]}"#);
    assert_eq!(list_models(&v), vec!["B", "a", "ab", "b"]);
    assert!(list_models(&json("{}")).is_empty());
    assert_eq!(models_error("404 Not Found", "x"), "获取模型列表失败 [404 Not Found]: x");
}

// ---- Responses bodies ----

#[test]
fn responses_body_system_user_become_messages() {
    let body = build_responses_body(
        &cfg(),
        &vec![Message::system("你是助手"), Message::user("你好")],
        &vec![],
        false,
    );
    let input = body.array_at("input").unwrap();
    assert_eq!(input.len(), 2);
    assert_eq!(input[0].text_at("type"), Some("message"));
    assert_eq!(input[0].text_at("role"), Some("system"));
    let part = &input[0].array_at("content").unwrap()[0];
    assert_eq!(part.text_at("type"), Some("input_text"));
    assert_eq!(part.text_at("text"), Some("你是助手"));
    assert_eq!(input[1].text_at("role"), Some("user"));
}

#[test]
fn responses_body_assistant_tool_calls_become_function_call_items() {
    let assistant = Message {
        role: "assistant".into(),
        content: None,
        tool_calls: Some(vec![call("call_1", "get_weather", r#"{"city":"北京"}"#)]),
        ..Default::default()
    };
    let body = build_responses_body(&cfg(), &vec![assistant], &vec![], false);
    let input = body.array_at("input").unwrap();
    assert_eq!(input.len(), 1);
    assert_eq!(input[0].text_at("type"), Some("function_call"));
    assert_eq!(input[0].text_at("call_id"), Some("call_1"));
    assert_eq!(input[0].text_at("name"), Some("get_weather"));
    assert_eq!(input[0].text_at("arguments"), Some(r#"{"city":"北京"}"#));
}

#[test]
fn responses_body_tool_result_becomes_function_call_output() {
    let result = Message::tool_result("call_1", "get_weather", "晴".into());
    let body = build_responses_body(&cfg(), &vec![result], &vec![], false);
    let input = body.array_at("input").unwrap();
    assert_eq!(input.len(), 1);
    assert_eq!(input[0].text_at("type"), Some("function_call_output"));
    assert_eq!(input[0].text_at("call_id"), Some("call_1"));
    assert_eq!(input[0].text_at("output"), Some("晴"));
}

#[test]
fn responses_body_assistant_text_uses_output_text_part() {
    let m = Message {
        role: "assistant".into(),
        content: Some("回复内容".into()),
        ..Default::default()
    };
    let body = build_responses_body(&cfg(), &vec![m], &vec![], false);
    let input = body.array_at("input").unwrap();
    let part = &input[0].array_at("content").unwrap()[0];
    assert_eq!(part.text_at("type"), Some("output_text"));
}

#[test]
fn responses_body_omits_empty_tools_and_sets_stream() {
    let body = build_responses_body(&cfg(), &vec![Message::user("hi")], &vec![], true);
    assert!(body.get("tools").is_none());
    assert_eq!(body.bool_at("stream"), Some(true));
}

#[test]
fn responses_body_includes_tools_when_non_empty() {
    let tool = json(r#"{"type":"function","function":{"name":"f","parameters":{}}}"#);
    let body = build_responses_body(&cfg(), &vec![Message::user("hi")], &vec![tool], false);
    let tools = body.array_at("tools").unwrap();
    assert_eq!(tools[0].get("function").unwrap().text_at("name"), Some("f"));
}

#[test]
fn responses_body_puts_text_before_calls_and_keeps_unknown_roles() {
    let said = Message {
        role: "assistant".into(),
        content: Some("先看看".into()),
        tool_calls: Some(vec![call("1", "a", "{}"), call("2", "b", "{}")]),
        ..Default::default()
    };
    let other = Message { role: "critic".into(), content: None, ..Default::default() };
    let empty = Message { role: "assistant".into(), content: Some("".into()), ..Default::default() };
    let body = build_responses_body(&cfg(), &vec![said, other, empty], &vec![], false);
    assert_eq!(
        body.render(),
        concat_lines(&[
            r#"{"input":[{"content":[{"text":"先看看","type":"output_text"}],"role":"assistant","type":"message"},"#,
            r#"{"arguments":"{}","call_id":"1","name":"a","type":"function_call"},"#,
            r#"{"arguments":"{}","call_id":"2","name":"b","type":"function_call"},"#,
            r#"{"content":[{"text":"","type":"input_text"}],"role":"critic","type":"message"}],"#,
            r#""model":"m","stream":false}"#,
        ])
    );
}

fn concat_lines(parts: &[&str]) -> String {
    parts.concat()
}

#[test]
fn earlier_messages_keep_their_items() {
    let first = build_responses_body(&cfg(), &vec![Message::system("s")], &vec![], false);
    let both =
        build_responses_body(&cfg(), &vec![Message::system("s"), Message::user("u")], &vec![], false);
    let a = first.array_at("input").unwrap();
    let b = both.array_at("input").unwrap();
    assert_eq!(a[0].render(), b[0].render());
    assert_eq!(b.len(), 2);
}

// ---- Chat Completions bodies ----

#[test]
fn completions_body_lists_messages_and_tools() {
    let messages = vec![
        Message::system("s"),
        Message { tool_calls: Some(vec![call("1", "f", "{}")]), role: "assistant".into(), ..Default::default() },
        Message::tool_result("1", "f", "r".into()),
    ];
    let body = build_chat_completions_body(&cfg(), &messages, &vec![], false);
    assert_eq!(
        body.render(),
        concat_lines(&[
            r#"{"messages":[{"content":"s","role":"system"},"#,
            r#"{"role":"assistant","tool_calls":[{"function":{"arguments":"{}","name":"f"},"id":"1","type":"function"}]},"#,
            r#"{"content":"r","name":"f","role":"tool","tool_call_id":"1"}],"#,
            r#""model":"m","stream":false,"tools":[]}"#,
        ])
    );
    let streamed = build_chat_completions_body(&cfg(), &messages, &vec![], true);
    assert_eq!(streamed.get("stream_options").unwrap().bool_at("include_usage"), Some(false));
}

#[test]
fn a_system_message_at_the_start_is_marked_for_caching() {
    let mut c = cfg();
    c.prompt_cache_control = true;
    let body = build_chat_completions_body(
        &c,
        &vec![Message::system("s"), Message::system("t")],
        &vec![],
        false,
    );
    let messages = body.array_at("messages").unwrap();
    assert_eq!(messages[0].get("cache_control").unwrap().text_at("type"), Some("ephemeral"));
    assert!(messages[1].get("cache_control").is_none());
    let body = build_chat_completions_body(&c, &vec![Message::user("u")], &vec![], false);
    assert!(body.array_at("messages").unwrap()[0].get("cache_control").is_none());
    assert_eq!(message_to_json(&Message::user("u")).render(), r#"{"content":"u","role":"user"}"#);
}

#[test]
fn tools_are_wrapped_as_functions() {
    let tools = vec![ToolInfo {
        name: "f".into(),
        description: "d".into(),
        parameters: json(r#"{"type":"object"}"#),
    }];
    let schema = build_tools_schema(&tools);
    assert_eq!(schema.len(), 1);
    assert_eq!(
        schema[0].render(),
        r#"{"function":{"description":"d","name":"f","parameters":{"type":"object"}},"type":"function"}"#
    );
}

// ---- streams ----

#[test]
fn tool_call_fragments_are_put_together() {
    let mut calls = vec![];
    merge_tool_call_deltas(
        &mut calls,
        &json(r#"[{"index":1,"id":"b","type":"function","function":{"name":"g","arguments":"{\"x\""}}]"#),
    );
    merge_tool_call_deltas(
        &mut calls,
        &json(r#"[{"index":1,"function":{"arguments":":1}"}},{"id":"a","function":{"name":"f"}}]"#),
    );
    merge_tool_call_deltas(&mut calls, &json(r#"{"no":"array"}"#));
    assert_eq!(calls.len(), 2);
    assert_eq!(calls[0].id, "a");
    assert_eq!(calls[0].kind, "function");
    assert_eq!(calls[0].function.name, "f");
    assert_eq!(calls[0].function.arguments, "");
    assert_eq!(calls[1].id, "b");
    assert_eq!(calls[1].function.name, "g");
    assert_eq!(calls[1].function.arguments, "{\"x\":1}");
}

const COMPLETION: &str = ": ping\n\ndata: {\"choices\":[{\"delta\":{\"content\":\"你\"}}]}\r\n\
data: not json\ndata: {\"choices\":[]}\n\
data: {\"choices\":[{\"delta\":{\"content\":\"\"}}]}\n\
data: {\"choices\":[{\"delta\":{\"content\":\"好\"},\"finish_reason\":\"length\"}]}\n\
data: [DONE]\ndata: {\"choices\":[{\"delta\":{\"content\":\"late\"}}]}\n";

#[test]
fn completion_stream_gives_text_and_tells_a_cut_reply() {
    let mut s = CompletionsStream::new();
    let out = s.feed(COMPLETION.as_bytes());
    assert_eq!(briefs(&out), vec!["text:你", "text:好"]);
    assert!(s.done);
    assert!(s.feed("data: {\"choices\":[{\"delta\":{\"content\":\"x\"}}]}\n".as_bytes()).is_empty());
    assert_eq!(briefs(&s.finish()), vec!["truncated", "final"]);
}

#[test]
fn completion_stream_may_be_cut_anywhere_between_characters() {
    for (cut, _) in COMPLETION.char_indices() {
        let mut s = CompletionsStream::new();
        let mut out = briefs(&s.feed(COMPLETION[..cut].as_bytes()));
        out.extend(briefs(&s.feed(COMPLETION[cut..].as_bytes())));
        assert_eq!(out, vec!["text:你", "text:好"]);
        assert_eq!(s.finish_reason.as_deref(), Some("length"));
    }
}

#[test]
fn completion_stream_ends_with_calls_or_plainly() {
    let mut s = CompletionsStream::new();
    s.feed(
        "data: {\"choices\":[{\"delta\":{\"tool_calls\":[{\"index\":0,\"id\":\"1\",\"function\":{\"name\":\"f\",\"arguments\":\"{}\"}}]},\"finish_reason\":\"tool_calls\"}]}\n"
            .as_bytes(),
    );
    assert_eq!(briefs(&s.finish()), vec!["calls:1/function/f/{}", "final"]);
    assert_eq!(briefs(&CompletionsStream::new().finish()), vec!["final"]);
}

#[test]
fn a_chunk_that_is_no_utf8_counts_as_empty() {
    let mut s = CompletionsStream::new();
    assert!(s.feed(&[0xff, b'\n']).is_empty());
    assert_eq!(s.buf, "");
}

#[test]
fn response_stream_gives_text_and_calls() {
    let text = "event: response.output_text.delta\ndata: {\"delta\":\"a\"}\n\n\
event: response.output_item.added\ndata: {\"output_index\":1,\"item\":{\"type\":\"function_call\",\"call_id\":\"call_1\",\"name\":\"f\"}}\n\n\
event: response.output_item.added\ndata: {\"output_index\":2,\"item\":{\"type\":\"message\"}}\n\n\
event: response.function_call_arguments.delta\ndata: {\"output_index\":1,\"delta\":\"{\\\"x\\\":\"}\n\n\
event: response.function_call_arguments.delta\ndata: {\"item_id\":\"_1\",\"delta\":\"1}\"}\n\n\
event: other\ndata: {}\n\ndata: {\"delta\":\"no type\"}\n\n\
event: response.completed\ndata: {\"response\":{\"status\":\"completed\"}}\n\n";
    let mut s = ResponsesStream::new();
    let out: Vec<String> = s.feed(text.as_bytes()).iter().map(item).collect();
    assert_eq!(out, vec!["text:a"]);
    assert!(s.ended);
    assert_eq!(s.status.as_deref(), Some("completed"));
    assert!(s.feed("event: response.output_text.delta\ndata: {\"delta\":\"b\"}\n\n".as_bytes()).is_empty());
    assert_eq!(briefs(&s.finish()), vec!["calls:call_1/function/f/{\"x\":1}", "final"]);
}

#[test]
fn response_stream_may_be_cut_between_characters_before_its_end() {
    let text = "event: response.output_text.delta\ndata: {\"delta\":\"你\"}\n\nevent: response.output_text.delta\ndata: {\"delta\":\"好\"}\n\nevent: response.incomplete\ndata: {}\n\n";
    for (cut, _) in text.char_indices() {
        let mut s = ResponsesStream::new();
        let mut out: Vec<String> = s.feed(text[..cut].as_bytes()).iter().map(item).collect();
        out.extend(s.feed(text[cut..].as_bytes()).iter().map(item));
        assert_eq!(out, vec!["text:你", "text:好"]);
        assert_eq!(briefs(&s.finish()), vec!["truncated", "final"]);
    }
}

#[test]
fn whole_arguments_take_the_place_of_the_pieces() {
    let mut s = ResponsesStream::new();
    let added = json(r#"{"output_index":0,"item":{"type":"function_call","call_id":"c","name":"f"}}"#);
    assert!(s.take_event("response.output_item.added", &added).is_none());
    let done = json(r#"{"output_index":0,"arguments":"{}"}"#);
    s.take_event("response.function_call_arguments.done", &done);
    assert_eq!(s.calls[0].function.arguments, "{}");
    let piece = json(r#"{"output_index":0,"delta":"{"}"#);
    s.take_event("response.function_call_arguments.delta", &piece);
    assert_eq!(s.calls[0].function.arguments, "{}{");
    s.take_event("response.function_call_arguments.done", &done);
    assert_eq!(s.calls[0].function.arguments, "{}");
    let none = json(r#"{"output_index":0,"arguments":""}"#);
    s.take_event("response.function_call_arguments.done", &none);
    assert_eq!(s.calls[0].function.arguments, "{}");
}

#[test]
fn an_event_without_a_named_type_goes_by_its_data() {
    let text = "data: {\"type\":\"response.output_text.delta\",\"delta\":\"a\"}\n\n\
event: other\ndata: {\"type\":\"response.output_text.delta\",\"delta\":\"b\"}\n\n\
data: {\"type\":\"response.completed\"}\n\n";
    let mut s = ResponsesStream::new();
    let out: Vec<String> = s.feed(text.as_bytes()).iter().map(item).collect();
    assert_eq!(out, vec!["text:a"]);
    assert!(s.ended);
}

#[test]
fn response_stream_reports_failures_and_stops() {
    let text = "event: response.failed\ndata: {\"response\":{\"error\":{\"b\":1,\"a\":\"x\"}}}\n\nevent: response.output_text.delta\ndata: {\"delta\":\"a\"}\n\n";
    let mut s = ResponsesStream::new();
    let out: Vec<String> = s.feed(text.as_bytes()).iter().map(item).collect();
    assert_eq!(out, vec!["error:LLM response 失败: {\"a\":\"x\",\"b\":1}"]);
    assert!(s.failed);
    assert!(s.finish().is_empty());

    let mut s = ResponsesStream::new();
    assert_eq!(
        s.take_event("response.failed", &json("{}")).map(|d| item(&d)),
        Some("error:LLM response 失败: response failed".to_string())
    );
    let mut s = ResponsesStream::new();
    assert_eq!(
        s.take_event("error", &json(r#"{"message":"m"}"#)).map(|d| item(&d)),
        Some("error:LLM error 事件: m".to_string())
    );
    let mut s = ResponsesStream::new();
    assert_eq!(
        s.take_event("error", &json("{}")).map(|d| item(&d)),
        Some("error:LLM error 事件: unknown error".to_string())
    );
}
