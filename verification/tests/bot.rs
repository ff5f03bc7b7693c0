use applepi::agent::turn::AgentEvent;
use applepi::bot::{
    chat_input, command_reply, compose_display, edit_text, falls_back_to_plain, is_affirmative,
    message_id, next_offset, report_error, render_events, resolve_token, route, send_message,
    send_placeholder, short_tool_name, summarize_args, summarize_value, take_update,
    truncate_chars, updates_params, Handling,
    Outcome, Outgoing, Route, Screen, TokenError, Waiting, GIVEN_UP, HELP, TIMEOUT_QUESTION,
};
use applepi::cli;
use applepi::json::Json;

fn json(text: &str) -> Json {
    Json::parse(text).unwrap()
}

#[test]
fn the_token_of_the_configuration_comes_first() {
    assert_eq!(resolve_token("a", Some("b".into())), Ok("a".to_string()));
    assert_eq!(resolve_token("", Some("b".into())), Ok("b".to_string()));
    assert_eq!(resolve_token("", Some("".into())), Err(TokenError::Empty));
    assert_eq!(resolve_token("", None), Err(TokenError::Missing));
}

#[test]
fn updates_are_asked_for_from_the_offset_on() {
    assert_eq!(updates_params(None).render(), r#"{"timeout":30}"#);
    assert_eq!(updates_params(Some(8)).render(), r#"{"offset":8,"timeout":30}"#);
    assert_eq!(next_offset(7), 8);
    assert!(matches!(take_update(7, None), (8, Route::Ignore)));
    assert!(matches!(take_update(-1, Some("hi")), (0, Route::Talk)));
}

fn routed(text: &str, had: bool) -> String {
    let r = route(text);
    let kind = match &r {
        Route::Ignore => "ignore",
        Route::Restart => "restart",
        Route::Help => "help",
        Route::Unknown(_) => "unknown",
        Route::Talk => "talk",
    };
    match command_reply(&r, had) {
        Some((t, html)) => format!("{kind}/{html}/{t}"),
        None => kind.to_string(),
    }
}

#[test]
fn messages_are_routed() {
    assert_eq!(routed(" \n", false), "ignore");
    assert_eq!(routed("hi /new", false), "talk");
    assert_eq!(routed(" /new now", true), "restart/true/✅ 已开启新会话，上下文已清空。");
    assert_eq!(routed("/clear", false), "restart/true/（当前本就是新会话，无需清空。）");
    assert_eq!(routed("/help", false), format!("help/true/{HELP}"));
    assert_eq!(routed("/start", false), format!("help/true/{HELP}"));
    assert_eq!(routed("/x y", false), "unknown/false/未知命令 /x。发送 /help 查看可用命令。");
    assert_eq!(routed("/", false), "unknown/false/未知命令 /。发送 /help 查看可用命令。");
}

#[test]
fn messages_are_sent_and_changed() {
    assert_eq!(send_message(-5, "t", false).render(), r#"{"chat_id":-5,"text":"t"}"#);
    assert_eq!(
        send_placeholder(5).render(),
        r#"{"chat_id":5,"parse_mode":"HTML","text":"…"}"#
    );
    let (rich, plain) = edit_text(5, 6, "**b**");
    assert_eq!(
        rich.render(),
        r#"{"chat_id":5,"message_id":6,"parse_mode":"HTML","text":"<b>b</b>"}"#
    );
    assert_eq!(plain.render(), r#"{"chat_id":5,"message_id":6,"text":"**b**"}"#);
    let (_, plain) = edit_text(5, 6, &"字".repeat(4001));
    assert_eq!(plain.text_at("text").unwrap().chars().count(), 4000);
    assert!(falls_back_to_plain(None));
    assert!(falls_back_to_plain(Some(&json("{}"))));
    assert!(falls_back_to_plain(Some(&json(r#"{"ok":false}"#))));
    assert!(!falls_back_to_plain(Some(&json(r#"{"ok":true}"#))));
    assert_eq!(message_id(&json(r#"{"result":{"message_id":9}}"#)), Some(9));
    assert_eq!(message_id(&json(r#"{"result":{}}"#)), None);
}

#[test]
fn tool_names_and_arguments_are_shown_in_brief() {
    assert_eq!(short_tool_name("mcp__s__t"), "s__t");
    assert_eq!(short_tool_name("echo"), "echo");
    assert_eq!(truncate_chars("一二三", 2), "一二");
    assert_eq!(summarize_args("  "), "(无参数)");
    assert_eq!(summarize_args("no json"), "no json");
    assert_eq!(summarize_args(r#"{"path":"p","url":"u"}"#), "u");
    assert_eq!(summarize_args(r#"{"url":"","path":"p"}"#), "p");
    assert_eq!(summarize_args(r#"{"b": 1, "a": [2]}"#), r#"{"a":[2],"b":1}"#);
    assert_eq!(summarize_args("[1, 2]"), "[1,2]");
    assert_eq!(summarize_value(&json(&format!("{{\"text\":\"{}\"}}", "x".repeat(90)))).len(), 80);
    assert_eq!(summarize_args(&format!("[\"{}\"]", "x".repeat(90))).len(), 60);
}

#[test]
fn the_screen_shows_text_and_tools() {
    assert_eq!(compose_display("a", ""), "a");
    assert_eq!(compose_display("", "l"), "🔧 操作中\nl");
    assert_eq!(compose_display("a", "l"), "a\n\n🔧 操作中\nl");

    let mut s = Screen::new();
    assert!(s.render_event(&AgentEvent::Text("x".repeat(119))).is_none());
    assert_eq!(s.render_event(&AgentEvent::Text("y".into())).unwrap().len(), 120);
    assert!(s.render_event(&AgentEvent::Text("z".into())).is_none());
    s = Screen::new();
    assert!(s.render_event(&AgentEvent::Text("字".repeat(119))).is_none());
    assert_eq!(s.render_event(&AgentEvent::Text("字".into())).unwrap().chars().count(), 120);

    let mut s = Screen::new();
    let call = AgentEvent::ToolCall { name: "mcp__a".into(), args: "{\"query\":\"q\"}".into() };
    assert_eq!(s.render_event(&call).unwrap(), "🔧 操作中\n• a → q");
    assert_eq!(
        s.render_event(&AgentEvent::ToolError("bad".into())).unwrap(),
        "🔧 操作中\n• a → q\n• ⚠️ bad"
    );
    assert!(s.render_event(&AgentEvent::Final("answer".into())).is_none());
    assert_eq!(compose_display(&s.buf, &s.log), "answer");
    assert!(!s.asking);
    assert_eq!(
        s.render_event(&AgentEvent::ContinuePrompt("go on?".into())).unwrap(),
        "answer\n\ngo on?"
    );
    assert!(s.asking);
}

#[test]
fn a_run_is_shown_step_by_step() {
    let (shown, text, asking) = render_events(&vec![
        AgentEvent::Text("a".into()),
        AgentEvent::ToolCall { name: "f".into(), args: "".into() },
        AgentEvent::Text("b".into()),
        AgentEvent::Final("b".into()),
    ]);
    assert_eq!(shown, vec!["a\n\n🔧 操作中\n• f → (无参数)"]);
    assert_eq!((text.as_str(), asking), ("b", false));
    let (shown, text, asking) = render_events(&vec![AgentEvent::ContinuePrompt("?".into())]);
    assert_eq!(shown, vec!["?"]);
    assert_eq!((text.as_str(), asking), ("?", true));
}

#[test]
fn agreement_is_told() {
    for word in ["继续", "继续吧", "是", "好", "好的", " OK ", "Continue", "yes", "Y", "1"] {
        assert!(is_affirmative(word), "{word}");
    }
    assert!(!is_affirmative("不"));
    assert!(!is_affirmative(""));
    assert!(cli::is_affirmative("好的"));
    assert!(cli::is_affirmative(" y\n"));
    assert!(!cli::is_affirmative("继续吧"));
    assert_eq!(cli::read_line(" /quit "), cli::Line::Quit);
    assert_eq!(cli::read_line("  "), cli::Line::Skip);
    assert_eq!(cli::read_line("/quit now"), cli::Line::Talk);
}

#[test]
fn a_chat_asks_one_question_at_a_time() {
    let mut w = Waiting::new();
    assert_eq!(w.handle_message("hi"), Handling::Fresh);
    let out = w.process(Some(7), Outcome::TimedOut);
    assert!(matches!(out, Outgoing::Edit(7, ref t) if t == TIMEOUT_QUESTION));
    assert_eq!(w.pending_timeout, Some(7));
    assert_eq!(w.handle_message(" 1 "), Handling::Resume(7));
    let out = w.process(Some(7), Outcome::Ended { text: "t".into(), asking: true });
    assert!(matches!(out, Outgoing::Nothing));
    assert_eq!(w, Waiting { pending_continue: Some(7), pending_timeout: None });
    assert_eq!(w.handle_message("继续"), Handling::Resume(7));
    assert_eq!(w, Waiting::new());
    assert_eq!(w.handle_message("继续"), Handling::Fresh);

    w.process(Some(8), Outcome::TimedOut);
    assert_eq!(w.handle_message("2"), Handling::GiveUp(8));
    assert_eq!(GIVEN_UP, "🛑 已终止本次处理。");
    w.process(Some(8), Outcome::TimedOut);
    assert_eq!(w.handle_message("3"), Handling::Fresh);
    w.process(Some(9), Outcome::Ended { text: "t".into(), asking: true });
    assert_eq!(w.handle_message("no"), Handling::Fresh);
    assert_eq!(w, Waiting::new());
}

#[test]
fn outcomes_are_shown_where_they_can_be() {
    let mut w = Waiting::new();
    let ended = |asking| Outcome::Ended { text: "t".into(), asking };
    assert!(matches!(w.process(Some(1), ended(false)), Outgoing::Edit(1, ref t) if t == "t"));
    let empty = Outcome::Ended { text: "".into(), asking: false };
    assert!(matches!(w.process(Some(1), empty), Outgoing::Edit(1, ref t) if t == "（无输出）"));
    assert!(matches!(w.process(None, ended(false)), Outgoing::Nothing));
    assert!(matches!(w.process(None, Outcome::TimedOut), Outgoing::Send(_, false)));
    assert_eq!(w.pending_timeout, None);
    assert!(
        matches!(w.process(None, Outcome::Failed("x".into())), Outgoing::Send(ref t, true) if t == "[错误] x")
    );
    assert!(matches!(report_error(Some(2), "x"), Outgoing::Edit(2, ref t) if t == "[错误] x"));
    assert_eq!(chat_input(-3, "hi"), "[chat_id: -3]\n\nhi");
}
