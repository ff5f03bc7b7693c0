use applepi::agent::turn::{
    collect_text, maybe_remember, Agent, AgentEvent, Run, Step, MAX_TURNS,
};
use applepi::agent::{
    build_mcp_summary, dispatch, is_silent, parse_extract_output, statements_in, EXTRACT_PROMPT,
};
use applepi::json::Json;
use applepi::llm::body::ToolInfo;
use applepi::llm::{Delta, FunctionCall, LlmConfig, ToolCall};

fn cfg() -> LlmConfig {
    LlmConfig {
        api_base: "b".into(),
        api_key: "k".into(),
        model: "m".into(),
        prompt_cache_control: false,
    }
}

fn agent(remembers: bool) -> Agent {
    Agent::new(cfg(), "你是助手".into(), &vec![], remembers, 3)
}

fn call(id: &str, name: &str) -> ToolCall {
    ToolCall {
        id: id.into(),
        kind: "function".into(),
        function: FunctionCall { name: name.into(), arguments: "{}".into() },
    }
}

fn tool(name: &str, description: &str) -> ToolInfo {
    ToolInfo {
        name: name.into(),
        description: description.into(),
        parameters: Json::parse("{}").unwrap(),
    }
}

fn brief(e: &AgentEvent) -> String {
    match e {
        AgentEvent::Text(t) => format!("text:{t}"),
        AgentEvent::ToolCall { name, args } => format!("call:{name}{args}"),
        AgentEvent::Final(t) => format!("final:{t}"),
        AgentEvent::ToolError(t) => format!("error:{t}"),
        AgentEvent::ContinuePrompt(t) => format!("ask:{t}"),
    }
}

fn briefs(run: &Run) -> Vec<String> {
    run.events.iter().map(brief).collect()
}

fn history(agent: &Agent) -> Vec<String> {
    agent
        .history
        .all()
        .iter()
        .map(|m| {
            format!(
                "{}|{}|{}|{}",
                m.role,
                m.content.clone().unwrap_or("-".into()),
                m.tool_calls.as_ref().map(|c| c.len()).unwrap_or(0),
                m.tool_call_id.clone().unwrap_or("-".into())
            )
        })
        .collect()
}

// ---- statements worth keeping ----

#[test]
fn parse_plain_array() {
    let out = parse_extract_output(r#"["用户偏好 Rust", "项目部署在 example.com"]"#);
    assert_eq!(out, vec!["用户偏好 Rust", "项目部署在 example.com"]);
}

#[test]
fn parse_empty_array() {
    let out = parse_extract_output("[]");
    assert!(out.is_empty());
}

#[test]
fn parse_with_markdown_fence() {
    let raw = "```json\n[\"条目一\", \"条目二\"]\n```";
    let out = parse_extract_output(raw);
    assert_eq!(out, vec!["条目一", "条目二"]);
}

#[test]
fn parse_with_leading_trailing_noise() {
    let raw = "好的，这是抽取结果：[\"a\",\"b\"]\n以上。";
    let out = parse_extract_output(raw);
    assert_eq!(out, vec!["a", "b"]);
}

#[test]
fn parse_invalid_returns_empty() {
    assert!(parse_extract_output("not json at all").is_empty());
    assert!(parse_extract_output("{\"key\": \"value\"}").is_empty());
    assert!(parse_extract_output("[unclosed").is_empty());
}

#[test]
fn parse_skips_blank_and_non_string() {
    let raw = r#"["有效", "", 123, "  ", "也有效"]"#;
    let out = parse_extract_output(raw);
    assert_eq!(out, vec!["有效", "也有效"]);
}

#[test]
fn statements_are_trimmed_and_brackets_out_of_order_give_nothing() {
    assert_eq!(parse_extract_output("[\" a \", \"\\n\"]"), vec!["a"]);
    assert!(parse_extract_output("] [").is_empty());
    assert!(statements_in(&Json::parse("{\"a\":[1]}").unwrap()).is_empty());
}

#[test]
fn silence_is_marked_at_either_end() {
    assert!(is_silent("[SILENT] 无事"));
    assert!(is_silent("  无事 [SILENT]\n"));
    assert!(!is_silent("一[SILENT]二"));
    assert!(!is_silent(""));
}

// ---- system message ----

#[test]
fn tools_of_other_servers_are_listed_in_order() {
    let tools = vec![
        tool("mcp__b", "  two\n words "),
        tool("echo", "no"),
        tool("mcp__a", " "),
    ];
    let s = build_mcp_summary(&tools);
    assert!(s.starts_with("\n\n## MCP 工具（可用清单 + 使用准则）\n"));
    assert!(s.contains("能力：\n\n- `mcp__a`\n- `mcp__b`：two words\n\n**通用准则**"));
    assert!(s.ends_with("按工具描述判断是否匹配即可。"));
    assert_eq!(build_mcp_summary(&vec![tool("echo", "x")]), "");
    let a = Agent::new(cfg(), "p".into(), &tools, false, 3);
    assert_eq!(a.history.all()[0].content.as_deref(), Some(format!("p{s}").as_str()));
    assert_eq!(a.history.all()[0].role, "system");
}

// ---- a run ----

#[test]
fn a_plain_answer_ends_the_run() {
    let mut a = agent(true);
    let mut run = a.chat_stream("你好，请介绍一下", &vec![]);
    a.on_delta(&mut run, Delta::Text("我".into()));
    a.on_delta(&mut run, Delta::Text("是".into()));
    a.on_delta(&mut run, Delta::Final);
    match a.on_reply_end(&mut run) {
        Step::Answered(Some(messages)) => {
            assert_eq!(messages.len(), 2);
            assert_eq!(messages[0].content.as_deref(), Some(EXTRACT_PROMPT));
            assert_eq!(
                messages[1].content.as_deref(),
                Some("用户输入：\n你好，请介绍一下\n\n助手答复：\n我是\n\n请抽取值得长期记住的信息。")
            );
        }
        _ => panic!("the run should be answered"),
    }
    assert_eq!(briefs(&run), vec!["text:我", "text:是", "final:我是"]);
    assert_eq!(collect_text(&run.events), "我是我是");
    assert_eq!(
        history(&a),
        vec!["system|你是助手|0|-", "user|你好，请介绍一下|0|-", "assistant|我是|0|-"]
    );
}

#[test]
fn found_statements_go_behind_the_input() {
    let mut a = agent(true);
    a.chat_stream("问题", &vec!["一".into(), "二".into()]);
    assert_eq!(history(&a)[1], "user|问题\n\n[长期记忆]\n- 一\n- 二|0|-");
    assert_eq!(a.last_input.as_deref(), Some("问题"));
}

#[test]
fn calls_are_run_in_turn_and_each_is_answered() {
    let mut a = agent(false);
    let mut run = a.chat_stream("go", &vec![]);
    a.on_delta(&mut run, Delta::ToolCalls(vec![call("1", "f"), call("2", "g")]));
    match a.on_reply_end(&mut run) {
        Step::Call(c) => assert_eq!(c.id, "1"),
        _ => panic!("the first call should run"),
    }
    match a.on_tool(&mut run, Ok("r1".into())) {
        Step::Call(c) => assert_eq!(c.id, "2"),
        _ => panic!("the second call should run"),
    }
    assert!(matches!(a.on_tool(&mut run, Err("e".into())), Step::Ask));
    assert_eq!(briefs(&run), vec!["call:f{}", "call:g{}", "error:[工具错误] e"]);
    assert_eq!(
        history(&a),
        vec![
            "system|你是助手|0|-",
            "user|go|0|-",
            "assistant|-|2|-",
            "tool|r1|0|1",
            "tool|[工具错误] e|0|2"
        ]
    );
    a.on_delta(&mut run, Delta::Text("done".into()));
    assert!(matches!(a.on_reply_end(&mut run), Step::Answered(None)));
}

#[test]
fn a_reply_that_was_cut_off_is_continued() {
    let mut a = agent(false);
    let mut run = a.chat_stream("go", &vec![]);
    a.on_delta(&mut run, Delta::Text("half".into()));
    a.on_delta(&mut run, Delta::Truncated);
    assert!(matches!(a.on_reply_end(&mut run), Step::Ask));
    assert_eq!(history(&a)[2], "assistant|half|0|-");
    assert!(matches!(a.on_reply_end(&mut run), Step::Answered(None)));
    assert_eq!(briefs(&run), vec!["text:half", "final:"]);
    assert_eq!(history(&a)[3], "assistant|-|0|-");
}

#[test]
fn the_model_is_asked_a_limited_number_of_times() {
    assert_eq!(MAX_TURNS, 6);
    let mut a = agent(false);
    let mut run = a.chat_stream("go", &vec![]);
    let mut asked = 1;
    loop {
        a.on_delta(&mut run, Delta::ToolCalls(vec![call("1", "f")]));
        assert!(matches!(a.on_reply_end(&mut run), Step::Call(_)));
        match a.on_tool(&mut run, Ok("r".into())) {
            Step::Ask => asked += 1,
            Step::Stopped => break,
            _ => panic!("nothing else should happen"),
        }
    }
    assert_eq!(asked, 6);
    assert_eq!(
        briefs(&run).last().unwrap(),
        "ask:（已达到最大轮次 6，是否继续？回复「继续」即可）"
    );
    let before = history(&a);
    let again = a.continue_stream();
    assert_eq!(again.turn, 0);
    assert!(again.events.is_empty());
    assert_eq!(history(&a), before);
}

#[test]
fn short_inputs_and_commands_are_not_looked_up() {
    let a = agent(true);
    assert!(!a.recalls("你好吗"));
    assert!(a.recalls("你好吗？"));
    assert!(!a.recalls("  abc  "));
    assert!(!a.recalls("/help me"));
    assert!(!agent(false).recalls("a long question"));
}

#[test]
fn exchanges_not_worth_keeping_are_passed_over() {
    assert!(maybe_remember("1234567", "r").is_none());
    assert!(maybe_remember("12345678", "r").is_some());
    assert!(maybe_remember("你好吗", "r").is_some());
    assert!(maybe_remember("/12345678", "r").is_none());
    assert!(maybe_remember("12345678", " \n").is_none());
}

#[test]
fn calls_are_prepared() {
    assert_eq!(dispatch(false, "nope", "{}").unwrap_err(), "未知工具: nope");
    assert_eq!(dispatch(true, "f", " ").unwrap().render(), "{}");
    assert_eq!(dispatch(true, "f", "{\"a\": [1]}").unwrap().render(), "{\"a\":[1]}");
    let e = dispatch(true, "f", "{").unwrap_err();
    assert!(e.contains("EOF while parsing"));
}
