use applepi::config::McpServerConfig;
use applepi::json::Json;
use applepi::llm::body::ToolInfo;
use applepi::mcp::{
    as_answer, is_event_stream, merge_servers, read_result, server_of, status_error, tool_output,
    AnswerReader, Content, McpClient,
};

fn json(text: &str) -> Json {
    Json::parse(text).unwrap()
}

fn client() -> McpClient {
    McpClient::new("u".into(), vec![("Authorization".into(), "Bearer x".into())])
}

#[test]
fn requests_are_numbered() {
    let mut c = client();
    let (id, body) = c.initialize();
    assert_eq!(id, 1);
    assert_eq!(
        body.render(),
        r#"{"id":1,"jsonrpc":"2.0","method":"initialize","params":{"capabilities":{},"clientInfo":{"name":"applepi","version":"0.1.0"},"protocolVersion":"2025-06-18"}}"#
    );
    assert_eq!(
        c.initialized().render(),
        r#"{"jsonrpc":"2.0","method":"notifications/initialized","params":{}}"#
    );
    let (id, body) = c.list_tools();
    assert_eq!(id, 2);
    assert_eq!(body.render(), r#"{"id":2,"jsonrpc":"2.0","method":"tools/list","params":{}}"#);
    let (id, body) = c.call_tool("t", json(r#"{"a":1}"#));
    assert_eq!(id, 3);
    assert_eq!(
        body.render(),
        r#"{"id":3,"jsonrpc":"2.0","method":"tools/call","params":{"arguments":{"a":1},"name":"t"}}"#
    );
    c.next_id = u64::MAX;
    assert_eq!(c.list_tools().0, u64::MAX);
    assert_eq!(c.next_id, 0);
}

#[test]
fn the_session_goes_with_each_request() {
    let mut c = client();
    assert_eq!(
        c.request_headers(),
        vec![
            ("Accept".to_string(), "application/json, text/event-stream".to_string()),
            ("Content-Type".to_string(), "application/json".to_string()),
            ("Authorization".to_string(), "Bearer x".to_string()),
        ]
    );
    c.note_session(Some("s"));
    c.note_session(None);
    assert_eq!(
        c.request_headers().last().unwrap(),
        &("Mcp-Session-Id".to_string(), "s".to_string())
    );
}

#[test]
fn content_types_are_told_apart() {
    assert!(is_event_stream("Text/Event-Stream; charset=utf-8"));
    assert!(!is_event_stream("application/json"));
    assert!(!is_event_stream(""));
}

const STREAM: &str = "event: message\r\ndata: {\"jsonrpc\":\"2.0\",\"method\":\"n\"}\r\n\r\n: c\n\
data: {\"id\":3,\ndata: \"result\":\"no\"}\n\ndata:{\"id\":4,\ndata:\"result\":\"是\"}\n\n\
data: {\"id\":4,\"result\":\"late\"}\n\n";

#[test]
fn the_answer_is_found_however_the_stream_is_cut() {
    for (cut, _) in STREAM.char_indices() {
        let mut r = AnswerReader::new(4);
        r.feed(STREAM[..cut].as_bytes());
        r.feed(STREAM[cut..].as_bytes());
        let v = r.read_sse_until_id().unwrap();
        assert_eq!(v.u64_at("id"), Some(4));
        assert_eq!(v.text_at("result"), Some("是"));
    }
}

#[test]
fn an_answer_at_the_end_counts_and_a_missing_one_is_told() {
    let mut r = AnswerReader::new(9);
    r.feed(b"data: {\"id\":9}\n");
    assert_eq!(r.read_sse_until_id().unwrap().render(), r#"{"id":9}"#);
    let mut r = AnswerReader::new(9);
    r.feed(b"data: {\"id\":8}\n\ndata: x\n");
    assert_eq!(r.read_sse_until_id().unwrap_err(), "SSE 流结束，未找到 id=9 的响应");
    assert!(as_answer(json(r#"{"id":"9"}"#), 9).is_none());
}

#[test]
fn results_and_errors_are_told_apart() {
    assert_eq!(read_result(&json(r#"{"result":{"a":1}}"#)).unwrap().render(), r#"{"a":1}"#);
    assert_eq!(
        read_result(&json(r#"{"result":1,"error":{"code":-1}}"#)).unwrap_err(),
        r#"MCP error: {"code":-1}"#
    );
    assert_eq!(
        read_result(&json(r#"{"id":1}"#)).unwrap_err(),
        r#"MCP 响应缺少 result 字段: {"id":1}"#
    );
    assert_eq!(status_error(false, "500 X", "t"), "MCP 请求失败 [500 X]: t");
    assert_eq!(status_error(true, "500 X", "t"), "MCP notify 失败 [500 X]: t");
}

#[test]
fn the_texts_of_a_tool_are_joined() {
    let part = |kind: &str, text: &str| Content { kind: kind.into(), text: text.into() };
    let parts = vec![part("text", "a"), part("image", "x"), part("text", "b")];
    assert_eq!(tool_output(&parts, false), Ok("a\nb".to_string()));
    assert_eq!(tool_output(&parts, true), Err("MCP 工具返回错误: a\nb".to_string()));
    assert_eq!(tool_output(&vec![], false), Ok("".to_string()));
}

fn server(name: &str, enabled: bool) -> McpServerConfig {
    McpServerConfig { name: name.into(), url: "u".into(), headers: vec![], enabled }
}

fn tool(name: &str, description: &str) -> ToolInfo {
    ToolInfo { name: name.into(), description: description.into(), parameters: json("{}") }
}

#[test]
fn tools_of_all_servers_make_up_one_set() {
    let servers =
        vec![server("a", true), server("b", false), server("c", true), server("d", true)];
    let got = vec![
        Ok(vec![tool("x", "a1"), tool("y", "a2"), tool("y", "a3")]),
        Ok(vec![tool("off", "b1")]),
        Err("refused".to_string()),
        Ok(vec![tool("z", "d1"), tool("x", "d2")]),
    ];
    let kept: Vec<String> = merge_servers(&servers, &got)
        .iter()
        .map(|t| format!("{}/{}", t.name, t.description))
        .collect();
    assert_eq!(kept, vec!["x/d2", "y/a3", "z/d1"]);
    assert_eq!(server_of(&servers, &got, "x"), Some(3));
    assert_eq!(server_of(&servers, &got, "y"), Some(0));
    assert_eq!(server_of(&servers, &got, "off"), None);
    assert!(merge_servers(&servers, &vec![]).is_empty());
}
