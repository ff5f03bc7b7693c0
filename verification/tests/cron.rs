use applepi::agent::turn::AgentEvent;
use applepi::config::CronJob;
use applepi::cron::commands::{
    add_reply, cmd_del, cmd_list, cmd_set_enabled, found_job, handle, Command, HELP,
};
use applepi::cron::{
    beijing_tz, check_schedule, list_enabled, next_run, push_error, schedule_complaint, seed_job, seed_jobs,
    trigger_job, wait_until, JobRecord, Plan,
};

fn job(id: i64, name: &str, enabled: bool) -> JobRecord {
    JobRecord {
        id,
        name: name.into(),
        schedule: "0 9 * * *".into(),
        prompt: "p".into(),
        chat_id: 5,
        enabled,
    }
}

fn told(text: &str) -> String {
    match handle(text) {
        Command::Tell(t) => t,
        Command::List => "list".into(),
        Command::Add { name, schedule, chat_id, prompt } => {
            format!("add/{name}/{schedule}/{chat_id}/{prompt}")
        }
        Command::Delete(id) => format!("del/{id}"),
        Command::SetEnabled(id, on) => format!("set/{id}/{on}"),
    }
}

#[test]
fn expressions_are_in_beijing_time() {
    assert_eq!(beijing_tz(), 28800);
    // 1970-01-01 08:00 in Beijing; nine o'clock is an hour later.
    assert!(matches!(next_run("0 9 * * *", 0), Plan::RunAt(3600)));
    assert!(matches!(next_run("0 9 * * *", 3600), Plan::RunAt(90000)));
    assert!(matches!(next_run("0 8 * * *", 0), Plan::RunAt(86400)));
    match next_run("nonsense", 0) {
        Plan::GiveUp(e) => assert!(e.starts_with("Invalid pattern: ")),
        Plan::RunAt(_) => panic!("there is no such time"),
    }
}

#[test]
fn bad_expressions_are_turned_down() {
    assert_eq!(check_schedule("0 9 * * *"), None);
    assert_eq!(
        check_schedule(" "),
        Some("cron 表达式 ' ' 非法: CronPattern cannot be an empty string.".to_string())
    );
    assert_eq!(schedule_complaint("s", Some("e".into())).unwrap(), "cron 表达式 's' 非法: e");
    assert_eq!(schedule_complaint("s", None), None);
}

#[test]
fn waiting_is_never_negative() {
    assert_eq!(wait_until(10, 7, 0), (3, 0));
    assert_eq!(wait_until(10, 7, 1), (2, 999_999_999));
    assert_eq!(wait_until(10, 10, 0), (0, 0));
    assert_eq!(wait_until(10, 10, 1), (0, 0));
    assert_eq!(wait_until(10, 12, 0), (0, 0));
}

#[test]
fn jobs_that_are_switched_on_run() {
    let jobs = vec![job(1, "a", true), job(2, "b", false), job(3, "c", true)];
    let ids: Vec<i64> = list_enabled(&jobs).iter().map(|j| j.id).collect();
    assert_eq!(ids, vec![1, 3]);
    let seed = |name: &str| CronJob {
        name: name.into(),
        schedule: "s".into(),
        prompt: "p".into(),
        chat_id: 1,
        enabled: true,
    };
    assert!(!seed_job(&jobs, &seed("b")));
    assert!(seed_job(&jobs, &seed("d")));
}

#[test]
fn jobs_of_the_configuration_are_stored_once() {
    let seed = |name: &str, schedule: &str| CronJob {
        name: name.into(),
        schedule: schedule.into(),
        prompt: "p".into(),
        chat_id: 1,
        enabled: false,
    };
    let stored = vec![job(1, "a", true)];
    let seeds = vec![seed("a", "s1"), seed("b", "s2"), seed("b", "s3"), seed("c", "s4")];
    let new = seed_jobs(&stored, &seeds);
    let brief: Vec<String> = new
        .iter()
        .map(|j| format!("{}/{}/{}/{}/{}", j.name, j.schedule, j.prompt, j.chat_id, j.enabled))
        .collect();
    assert_eq!(brief, vec!["b/s2/p/1/false", "c/s4/p/1/false"]);
    let stored = vec![job(1, "a", true), job(2, "b", false), job(3, "c", false)];
    assert!(seed_jobs(&stored, &seeds).is_empty());
}

fn sent(events: Vec<AgentEvent>) -> String {
    trigger_job(5, &events).unwrap().text_at("text").unwrap().to_string()
}

#[test]
fn jobs_send_their_answer() {
    let body = trigger_job(5, &vec![AgentEvent::Final("a".into())]);
    assert_eq!(body.unwrap().render(), r#"{"chat_id":5,"text":"a"}"#);
    assert_eq!(sent(vec![AgentEvent::Text("x".into()), AgentEvent::Final("a".into())]), "a");
    assert_eq!(sent(vec![]), "（无输出）");
    assert_eq!(
        sent(vec![AgentEvent::ContinuePrompt("?".into())]),
        "（已达最大轮次上限，定时任务无人值守，自动停止）"
    );
    assert_eq!(sent(vec![AgentEvent::Final("字".repeat(5000))]).chars().count(), 4000);
    assert_eq!(push_error("403 Forbidden", "x"), "Telegram 推送失败 [403 Forbidden]: x");
}

#[test]
fn jobs_with_an_empty_or_silent_answer_send_nothing() {
    for answer in ["", "[SILENT] nothing new", " nothing new [SILENT]\n"] {
        assert!(trigger_job(5, &vec![AgentEvent::Final(answer.into())]).is_none());
    }
    assert_eq!(sent(vec![AgentEvent::Final("a [SILENT] b".into())]), "a [SILENT] b");
}

#[test]
fn commands_are_read() {
    assert_eq!(told("/cron"), HELP);
    assert_eq!(told("/cron  help"), HELP);
    assert_eq!(told("/cron list"), "list");
    assert_eq!(told("/cron what now"), format!("未知子命令 'what'。\n\n{HELP}"));
    assert_eq!(told("/cron del 7"), "del/7");
    assert_eq!(told("/cron del x"), "用法: /cron del <id>");
    assert_eq!(told("/cron pause +7"), "set/7/false");
    assert_eq!(told("/cron pause"), "用法: /cron pause <id>");
    assert_eq!(told("/cron resume -7"), "set/-7/true");
    assert_eq!(told("/cron resume 9223372036854775808"), "用法: /cron resume <id>");
}

#[test]
fn jobs_are_added() {
    assert_eq!(
        told("/cron add 早报 \"0 9 * * *\" 123456 给出 今日待办 "),
        "add/早报/0 9 * * */123456/给出 今日待办"
    );
    assert_eq!(told("/cron add x"), "用法: /cron add <name> \"<cron>\" <chat_id> <prompt...>");
    assert_eq!(told("/cron add x 0 9"), "cron 表达式需用双引号包裹，例如 \"0 9 * * *\"");
    assert_eq!(told("/cron add x \"0 9"), "cron 表达式的右引号缺失");
    assert_eq!(told("/cron add x \"0 9 * * *\" 1"), "缺少 chat_id 或 prompt");
    assert_eq!(told("/cron add x \"0 9 * * *\" a b"), "chat_id 非法: a");
    assert!(told("/cron add x \"0 9\" 1 p").starts_with("cron 表达式 '0 9' 非法: Invalid pattern"));
}

#[test]
fn users_are_told_what_became_of_a_command() {
    assert_eq!(cmd_list(&Ok(vec![])), "当前没有任何定时任务。");
    assert_eq!(cmd_list(&Err("e".into())), "读取失败: e");
    assert_eq!(
        cmd_list(&Ok(vec![job(1, "a", true), job(2, "b", false)])),
        "定时任务列表：\n✅ [1] a\n    schedule: 0 9 * * *\n    chat_id: 5\n    prompt: p\n⏸️ [2] b\n    schedule: 0 9 * * *\n    chat_id: 5\n    prompt: p\n"
    );
    assert_eq!(add_reply("n", &Ok(3)), "✅ 已添加任务 [3] n（下次重载后生效）");
    assert_eq!(add_reply("n", &Err("e".into())), "添加失败: e");
    assert_eq!(found_job(3, Ok(Some(job(3, "n", true)))), Ok("n".to_string()));
    assert_eq!(found_job(3, Ok(None)), Err("任务 3 不存在".to_string()));
    assert_eq!(found_job(3, Err("e".into())), Err("查询失败: e".to_string()));
    assert_eq!(cmd_del(3, "n", None), "✅ 已删除任务 [3] n");
    assert_eq!(cmd_del(3, "n", Some("e".into())), "删除失败: e");
    assert_eq!(cmd_set_enabled(3, "n", true, None), "▶️ 已恢复 任务 [3] n");
    assert_eq!(cmd_set_enabled(3, "n", false, None), "⏸️ 已暂停 任务 [3] n");
    assert_eq!(cmd_set_enabled(3, "n", false, Some("e".into())), "操作失败: e");
}
