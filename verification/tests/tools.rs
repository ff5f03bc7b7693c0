use applepi::config::{parse_frontmatter, ShellSection};
use applepi::cron::JobRecord;
use applepi::json::Json;
use applepi::llm::body::ToolInfo;
use applepi::tools::cron::{Action, CronTool};
use applepi::tools::echo::Echo;
use applepi::tools::fs::ReadFile;
use applepi::tools::memory::WriteMemoryTool;
use applepi::tools::shell::{truncate, ShellTool};
use applepi::tools::skill::{SkillCreateTool, SkillUseTool};
use applepi::tools::{default_tools, find_tool, register};

fn json(text: &str) -> Json {
    Json::parse(text).unwrap()
}

fn tool(name: &str, description: &str) -> ToolInfo {
    ToolInfo { name: name.into(), description: description.into(), parameters: json("{}") }
}

#[test]
fn later_tools_take_the_place_of_earlier_ones() {
    let mut tools = default_tools();
    let names: Vec<&str> = tools.iter().map(|t| t.name.as_str()).collect();
    assert_eq!(names, vec!["echo", "read_file", "skill_create", "skill_use"]);
    assert!(!register(&mut tools, tool("x", "1")));
    assert!(register(&mut tools, tool("x", "2")));
    assert_eq!(tools.len(), 5);
    assert_eq!(tools[find_tool(&tools, "x").unwrap()].description, "2");
    assert!(find_tool(&tools, "y").is_none());
}

#[test]
fn echo_gives_back_its_text() {
    assert_eq!(Echo.run(&json(r#"{"text":"hi"}"#)), "hi");
    assert_eq!(Echo.run(&json("{}")), "");
    assert_eq!(
        Echo.parameters().render(),
        r#"{"properties":{"text":{"description":"要回显的内容","type":"string"}},"required":["text"],"type":"object"}"#
    );
    assert_eq!(Echo.name(), "echo");
    assert_eq!(Echo.description(), "原样返回输入文本。用于测试。");
}

#[test]
fn files_are_read_up_to_a_limit() {
    assert_eq!(ReadFile.path(&json(r#"{"path":"p"}"#)), Ok("p".to_string()));
    assert_eq!(ReadFile.path(&json(r#"{"path":1}"#)), Err("缺少 path 参数".to_string()));
    assert_eq!(ReadFile.run(Ok("字".repeat(5000))).unwrap().chars().count(), 5000);
    let long = ReadFile.run(Ok("字".repeat(5001))).unwrap();
    assert_eq!(long, format!("{}...(截断)", "字".repeat(5000)));
    assert_eq!(ReadFile.run(Err("e".into())), Err("读取失败: e".to_string()));
    assert_eq!(ReadFile.info().name, "read_file");
}

#[test]
fn statements_to_keep_are_trimmed_and_limited() {
    let t = WriteMemoryTool;
    assert_eq!(t.content(&json(r#"{"content":" a "}"#)), Ok("a".to_string()));
    assert_eq!(t.content(&json("{}")), Err("缺少 content 参数".to_string()));
    let long = format!("{{\"content\":\"{}\"}}", "字".repeat(2001));
    assert_eq!(t.content(&json(&long)).unwrap().chars().count(), 2000);
    assert_eq!(t.info().name, "write_memory");
}

fn shell(allow: &[&str], deny: &[&str]) -> ShellTool {
    ShellTool::new(&ShellSection {
        allow: allow.iter().map(|s| s.to_string()).collect(),
        deny: deny.iter().map(|s| s.to_string()).collect(),
        ..ShellSection::default()
    })
}

#[test]
fn commands_are_held_to_the_limits() {
    let open = shell(&[], &[]);
    assert_eq!(open.check_policy("ls -l"), Ok(()));
    assert_eq!(
        open.check_policy("x; sudo ls"),
        Err("命令被黑名单拦截（命中 'sudo '）。如需执行，请调整命令或联系管理员修改 shell.deny 配置。".to_string())
    );
    let tight = shell(&["ls", "cat "], &["secret"]);
    assert_eq!(tight.check_policy("  ls -l"), Ok(()));
    assert_eq!(tight.check_policy("sudo ls").is_err(), true);
    assert_eq!(
        tight.check_policy("pwd"),
        Err("命令不在白名单内（允许的前缀：ls, cat ）。请改用允许的命令，或联系管理员扩展 shell.allow 配置。".to_string())
    );
    assert!(tight.check_policy("cat secret").unwrap_err().contains("命中 'secret'"));
    assert_eq!(tight.command(&json(r#"{"command":"ls"}"#)), Ok("ls".to_string()));
    assert_eq!(tight.command(&json("{}")), Err("缺少 command 参数".to_string()));
    assert!(tight.command(&json(r#"{"command":"pwd"}"#)).is_err());
}

#[test]
fn output_is_reported_with_the_exit_code() {
    let t = shell(&[], &[]);
    assert_eq!(t.run("", "", Some(0), true), Ok("（命令执行成功，无输出。退出码 0）".to_string()));
    assert_eq!(t.run("a", "", Some(0), true), Ok("a\n[退出码 0]".to_string()));
    assert_eq!(t.run("a", "b", Some(0), true), Ok("a\n[stderr]\nb\n[退出码 0]".to_string()));
    assert_eq!(t.run("", "b", Some(2), false), Err("命令退出码非零（2）。输出：\nb".to_string()));
    assert_eq!(t.run("", "b", None, false), Err("命令退出码非零（-1）。输出：\nb".to_string()));
    assert_eq!(t.timeout_error(), "命令执行超时（30 秒）");
    assert_eq!(t.start_error("e"), "执行失败: e");
}

#[test]
fn long_output_keeps_both_ends() {
    assert_eq!(truncate("0123456789", 10), "0123456789");
    assert_eq!(truncate("0123456789a", 10), "01234567\n…[输出过长，已截断 10 字符]…\n9a");
}

#[test]
fn skills_are_written_and_read_back() {
    let args = json(r##"{"name":"code-review","description":"评审: 风格","content":"# 步骤\n---\nname: x"}"##);
    let draft = SkillCreateTool.plan(&args).unwrap_or_else(|e| panic!("{e}"));
    assert_eq!(draft.dir, "skills/code-review");
    assert_eq!(draft.path, "skills/code-review/SKILL.md");
    assert_eq!(
        draft.content,
        "---\nname: code-review\ndescription: \"评审: 风格\"\n---\n\n# 步骤\n---\nname: x"
    );
    assert_eq!(
        parse_frontmatter(&draft.content),
        Some(("code-review".to_string(), "评审: 风格".to_string()))
    );
    assert_eq!(
        SkillCreateTool.run(&draft),
        "已创建技能 'code-review'，写入 skills/code-review/SKILL.md。\n可立即用 skill_use(\"code-review\") 运行；下次启动后该技能会出现在可用列表中。"
    );
    assert_eq!(SkillCreateTool.dir_error(&draft, "e"), "创建目录 skills/code-review 失败: e");
    assert_eq!(SkillCreateTool.write_error(&draft, "e"), "写入 skills/code-review/SKILL.md 失败: e");
    let quoted = json(r#"{"name":"a","description":"x: \"y\"","content":""}"#);
    let draft = SkillCreateTool.plan(&quoted).unwrap_or_else(|e| panic!("{e}"));
    assert_eq!(draft.content, "---\nname: a\ndescription: \"x: \\\"y\\\"\"\n---\n\n");
}

fn refused(args: &str) -> String {
    match SkillCreateTool.plan(&json(args)) {
        Ok(_) => "ok".into(),
        Err(e) => e,
    }
}

#[test]
fn names_that_lead_away_are_turned_down() {
    assert_eq!(refused("{}"), "缺少 name 参数");
    assert_eq!(refused(r#"{"name":"../a"}"#), "缺少 description 参数");
    assert_eq!(refused(r#"{"name":"a","description":"d"}"#), "缺少 content 参数");
    for name in ["", "a/b", "a\\\\b", "..", "a..b"] {
        let args = format!("{{\"name\":\"{name}\",\"description\":\"d\",\"content\":\"c\"}}");
        assert_eq!(refused(&args), "name 非法（含路径分隔符或为空）");
    }
    assert_eq!(SkillUseTool.plan(&json(r#"{"name":"a/b"}"#)), Err("name 非法".to_string()));
    assert_eq!(SkillUseTool.plan(&json("{}")), Err("缺少 name 参数".to_string()));
    let (name, path) = SkillUseTool.plan(&json(r#"{"name":"a"}"#)).unwrap();
    assert_eq!(path, "skills/a/SKILL.md");
    assert_eq!(
        SkillUseTool.run(&name, &path, Ok("body".into())),
        Ok("（已加载技能 a 的指令，请据此执行）\n\nbody".to_string())
    );
    assert_eq!(
        SkillUseTool.run(&name, &path, Err("e".into())),
        Err("读取技能 'a' 失败（skills/a/SKILL.md）: e".to_string())
    );
}

fn planned(args: &str) -> String {
    let (action, reload) = CronTool.plan(&json(args));
    let text = match action {
        Ok(Action::Add { name, schedule, chat_id, prompt }) => {
            format!("add/{name}/{schedule}/{chat_id}/{prompt}")
        }
        Ok(Action::List) => "list".into(),
        Ok(Action::SetEnabled(id, on)) => format!("set/{id}/{on}"),
        Ok(Action::Delete(id)) => format!("delete/{id}"),
        Err(e) => e,
    };
    format!("{text} {reload}")
}

#[test]
fn jobs_are_managed() {
    assert_eq!(planned("{}"), "缺少 action 参数 false");
    assert_eq!(planned(r#"{"action":"x"}"#), "未知 action: x false");
    assert_eq!(planned(r#"{"action":"list"}"#), "list false");
    assert_eq!(planned(r#"{"action":"pause","id":3}"#), "set/3/false true");
    assert_eq!(planned(r#"{"action":"resume","id":3}"#), "set/3/true true");
    assert_eq!(planned(r#"{"action":"resume"}"#), "缺少 id 参数 true");
    assert_eq!(planned(r#"{"action":"delete","id":-3}"#), "delete/-3 true");
    assert_eq!(planned(r#"{"action":"delete","id":1.5}"#), "缺少 id 参数 true");
    assert_eq!(planned(r#"{"action":"add"}"#), "缺少 name 参数 true");
    assert_eq!(planned(r#"{"action":"add","name":"n"}"#), "缺少 schedule 参数 true");
    assert_eq!(
        planned(r#"{"action":"add","name":"n","schedule":"x"}"#),
        "缺少 chat_id 参数 true"
    );
    assert_eq!(
        planned(r#"{"action":"add","name":"n","schedule":"x","chat_id":1}"#),
        "缺少 prompt 参数 true"
    );
    assert!(planned(r#"{"action":"add","name":"n","schedule":"x","chat_id":1,"prompt":"p"}"#)
        .starts_with("cron 表达式 'x' 非法: "));
    assert_eq!(
        planned(r#"{"action":"add","name":"n","schedule":"0 9 * * *","chat_id":1,"prompt":"p"}"#),
        "add/n/0 9 * * */1/p true"
    );
}

#[test]
fn the_cron_tool_words_its_answers() {
    let t = CronTool;
    assert_eq!(
        t.action_add(3, "n", "s", 5),
        "已创建定时任务 [3] n：schedule=s（北京时间） chat_id=5\n已立即生效。"
    );
    assert_eq!(t.action_list(&vec![]), "当前没有任何定时任务。");
    let job = JobRecord {
        id: 1,
        name: "a".into(),
        schedule: "s".into(),
        prompt: "p".into(),
        chat_id: -5,
        enabled: false,
    };
    assert_eq!(
        t.action_list(&vec![job]),
        "定时任务列表：\n[1] a（暂停）\n  schedule: s\n  chat_id: -5\n  prompt: p\n"
    );
    assert_eq!(t.action_set(1, "a", true), "已恢复任务 [1] a");
    assert_eq!(t.action_set(1, "a", false), "已暂停任务 [1] a");
    assert_eq!(t.action_delete(1, "a"), "已删除任务 [1] a");
    assert_eq!(t.no_such_job(9), "任务 9 不存在");
    let schema = t.parameters();
    let action = schema.get("properties").unwrap().get("action").unwrap();
    assert_eq!(action.array_at("enum").unwrap().len(), 5);
}
