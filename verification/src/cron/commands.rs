//! The `/cron` command: what it asks of the store of jobs, and what the user is told.
use vstd::prelude::*;
use crate::cron::{bad_schedule, check_schedule, cron_error, JobRecord};
use crate::text::{
    after_prefix, i64_of, i64_text, int_text, opt_view, parse_i64, same, split_at_first, split_once,
    strip_prefix, trim, trim_start_by, trim_start_matches, trimmed, CharClass,
};

verus! {

/// How the command is used.
pub const HELP: &'static str = "/cron 命令用法：\n  /cron list\n      列出所有定时任务\n  /cron add <name> \"<cron 表达式>\" <chat_id> <prompt...>\n      新增任务（cron 按北京时间，例如 \"0 9 * * *\" = 每天 9:00）\n      示例: /cron add 早报 \"0 9 * * *\" 123456 给出今日待办\n  /cron del <id>\n      删除任务\n  /cron pause <id>\n      暂停任务\n  /cron resume <id>\n      恢复任务\n  /cron help\n      显示本帮助";

/// What a command asks for.
pub enum Command {
    /// Nothing: the user is told this.
    Tell(String),
    List,
    Add { name: String, schedule: String, chat_id: i64, prompt: String },
    Delete(i64),
    SetEnabled(i64, bool),
}

#[verifier::ext_equal]
pub enum CommandView {
    Tell(Seq<char>),
    List,
    Add { name: Seq<char>, schedule: Seq<char>, chat_id: i64, prompt: Seq<char> },
    Delete(i64),
    SetEnabled(i64, bool),
}

impl View for Command {
    type V = CommandView;

    open spec fn view(&self) -> CommandView {
        match self {
            Command::Tell(t) => CommandView::Tell(t@),
            Command::List => CommandView::List,
            Command::Add { name, schedule, chat_id, prompt } => CommandView::Add {
                name: name@,
                schedule: schedule@,
                chat_id: *chat_id,
                prompt: prompt@,
            },
            Command::Delete(id) => CommandView::Delete(*id),
            Command::SetEnabled(id, on) => CommandView::SetEnabled(*id, *on),
        }
    }
}

/// `<name> "<cron>" <chat_id> <prompt...>`, the parts one after the other. What is missing or
/// wrong is told in the order in which it is met.
pub open spec fn add_command(args: Seq<char>) -> CommandView {
    match split_at_first(args, CharClass::Blank) {
        Some((name, rest)) => add_schedule(trimmed(name), trimmed(rest)),
        None => CommandView::Tell("用法: /cron add <name> \"<cron>\" <chat_id> <prompt...>"@),
    }
}

pub open spec fn add_schedule(name: Seq<char>, rest: Seq<char>) -> CommandView {
    match after_prefix(rest, "\""@) {
        Some(quoted) => match split_at_first(quoted, CharClass::Just('"')) {
            Some((schedule, rest)) => add_chat(
                name,
                schedule,
                trim_start_by(rest, CharClass::Blank),
            ),
            None => CommandView::Tell("cron 表达式的右引号缺失"@),
        },
        None => CommandView::Tell("cron 表达式需用双引号包裹，例如 \"0 9 * * *\""@),
    }
}

pub open spec fn add_chat(name: Seq<char>, schedule: Seq<char>, rest: Seq<char>) -> CommandView {
    match split_at_first(rest, CharClass::Blank) {
        Some((chat, prompt)) => match i64_of(trimmed(chat)) {
            Some(chat_id) => if trimmed(prompt).len() == 0 {
                CommandView::Tell("prompt 不能为空"@)
            } else {
                match cron_error(schedule) {
                    Some(e) => CommandView::Tell(bad_schedule(schedule, e)),
                    None => CommandView::Add { name, schedule, chat_id, prompt: trimmed(prompt) },
                }
            },
            None => CommandView::Tell("chat_id 非法: "@ + trimmed(chat)),
        },
        None => CommandView::Tell("缺少 chat_id 或 prompt"@),
    }
}

/// The command and its arguments.
pub open spec fn command_parts(rest: Seq<char>) -> (Seq<char>, Seq<char>) {
    match split_at_first(rest, CharClass::Blank) {
        Some((c, a)) => (trimmed(c), trimmed(a)),
        None => (trimmed(rest), ""@),
    }
}

/// What the text behind `/cron` asks for.
pub open spec fn dispatched(rest: Seq<char>) -> CommandView {
    let (c, args) = command_parts(rest);
    if rest.len() == 0 || c == "help"@ {
        CommandView::Tell(HELP@)
    } else if c == "list"@ {
        CommandView::List
    } else if c == "add"@ {
        add_command(args)
    } else if c == "del"@ {
        match i64_of(trimmed(args)) {
            Some(id) => CommandView::Delete(id),
            None => CommandView::Tell("用法: /cron del <id>"@),
        }
    } else if c == "pause"@ {
        match i64_of(trimmed(args)) {
            Some(id) => CommandView::SetEnabled(id, false),
            None => CommandView::Tell("用法: /cron pause <id>"@),
        }
    } else if c == "resume"@ {
        match i64_of(trimmed(args)) {
            Some(id) => CommandView::SetEnabled(id, true),
            None => CommandView::Tell("用法: /cron resume <id>"@),
        }
    } else {
        CommandView::Tell("未知子命令 '"@ + c + "'。\n\n"@ + HELP@)
    }
}

/// What a message that begins with `/cron` asks for.
pub open spec fn handled(text: Seq<char>) -> CommandView {
    dispatched(
        trimmed(
            match after_prefix(text, "/cron"@) {
                Some(rest) => rest,
                None => text,
            },
        ),
    )
}

fn tell(s: &str) -> (r: Command)
    ensures
        r@ == CommandView::Tell(s@),
{
    Command::Tell(s.to_owned())
}

fn read_chat(name: String, schedule: String, rest: &str) -> (r: Command)
    ensures
        r@ == add_chat(name@, schedule@, rest@),
{
    match split_once(rest, CharClass::Blank) {
        Some((chat, prompt)) => {
            let chat = trim(chat.as_str());
            match parse_i64(chat.as_str()) {
                Some(chat_id) => {
                    let prompt = trim(prompt.as_str());
                    if prompt.as_str().is_empty() {
                        return tell("prompt 不能为空");
                    }
                    match check_schedule(schedule.as_str()) {
                        Some(complaint) => Command::Tell(complaint),
                        None => Command::Add { name, schedule, chat_id, prompt },
                    }
                },
                None => {
                    let mut t = "chat_id 非法: ".to_owned();
                    t.append(chat.as_str());
                    Command::Tell(t)
                },
            }
        },
        None => tell("缺少 chat_id 或 prompt"),
    }
}

/// [`add_command`].
pub fn cmd_add(args: &str) -> (r: Command)
    ensures
        r@ == add_command(args@),
{
    let (name, rest) = match split_once(args, CharClass::Blank) {
        Some((name, rest)) => (trim(name.as_str()), trim(rest.as_str())),
        None => return tell("用法: /cron add <name> \"<cron>\" <chat_id> <prompt...>"),
    };
    match strip_prefix(rest.as_str(), "\"") {
        Some(quoted) => match split_once(quoted.as_str(), CharClass::Just('"')) {
            Some((schedule, rest)) => {
                let rest = trim_start_matches(rest.as_str(), CharClass::Blank);
                read_chat(name, schedule, rest.as_str())
            },
            None => tell("cron 表达式的右引号缺失"),
        },
        None => tell("cron 表达式需用双引号包裹，例如 \"0 9 * * *\""),
    }
}

/// [`dispatched`].
pub fn dispatch(rest: &str) -> (r: Command)
    ensures
        r@ == dispatched(rest@),
{
    if rest.is_empty() {
        return tell(HELP);
    }
    let (c, args) = match split_once(rest, CharClass::Blank) {
        Some((c, a)) => (trim(c.as_str()), trim(a.as_str())),
        None => (trim(rest), "".to_owned()),
    };
    let c = c.as_str();
    if same(c, "help") {
        tell(HELP)
    } else if same(c, "list") {
        Command::List
    } else if same(c, "add") {
        cmd_add(args.as_str())
    } else if same(c, "del") {
        match parse_i64(trim(args.as_str()).as_str()) {
            Some(id) => Command::Delete(id),
            None => tell("用法: /cron del <id>"),
        }
    } else if same(c, "pause") {
        match parse_i64(trim(args.as_str()).as_str()) {
            Some(id) => Command::SetEnabled(id, false),
            None => tell("用法: /cron pause <id>"),
        }
    } else if same(c, "resume") {
        match parse_i64(trim(args.as_str()).as_str()) {
            Some(id) => Command::SetEnabled(id, true),
            None => tell("用法: /cron resume <id>"),
        }
    } else {
        let mut t = "未知子命令 '".to_owned();
        t.append(c);
        t.append("'。\n\n");
        t.append(HELP);
        Command::Tell(t)
    }
}

/// [`handled`].
pub fn handle(text: &str) -> (r: Command)
    ensures
        r@ == handled(text@),
{
    let rest = match strip_prefix(text, "/cron") {
        Some(rest) => rest,
        None => text.to_owned(),
    };
    dispatch(trim(rest.as_str()).as_str())
}

// ---------- what the user is told ----------

/// One job in the list.
pub open spec fn job_entry(j: JobRecord) -> Seq<char> {
    (if j.enabled {
        "✅"@
    } else {
        "⏸️"@
    }) + " ["@ + int_text(j.id as int) + "] "@ + j.name@ + "\n    schedule: "@ + j.schedule@
        + "\n    chat_id: "@ + int_text(j.chat_id as int) + "\n    prompt: "@ + j.prompt@ + "\n"@
}

pub open spec fn job_entries(jobs: Seq<JobRecord>) -> Seq<char>
    decreases jobs.len(),
{
    if jobs.len() == 0 {
        Seq::empty()
    } else {
        job_entries(jobs.drop_last()) + job_entry(jobs.last())
    }
}

pub open spec fn list_text(jobs: Result<Seq<JobRecord>, Seq<char>>) -> Seq<char> {
    match jobs {
        Ok(jobs) => if jobs.len() == 0 {
            "当前没有任何定时任务。"@
        } else {
            "定时任务列表：\n"@ + job_entries(jobs)
        },
        Err(e) => "读取失败: "@ + e,
    }
}

fn push_entry(out: &mut String, j: &JobRecord)
    ensures
        final(out)@ == old(out)@ + job_entry(*j),
{
    if j.enabled {
        out.append("✅");
    } else {
        out.append("⏸️");
    }
    out.append(" [");
    out.append(i64_text(j.id).as_str());
    out.append("] ");
    out.append(j.name.as_str());
    out.append("\n    schedule: ");
    out.append(j.schedule.as_str());
    out.append("\n    chat_id: ");
    out.append(i64_text(j.chat_id).as_str());
    out.append("\n    prompt: ");
    out.append(j.prompt.as_str());
    out.append("\n");
    assert(out@ =~= old(out)@ + job_entry(*j));
}

/// The list of jobs, or why it could not be read.
pub fn cmd_list(jobs: &Result<Vec<JobRecord>, String>) -> (r: String)
    ensures
        r@ == list_text(
            match jobs {
                Ok(jobs) => Ok(jobs@),
                Err(e) => Err(e@),
            },
        ),
{
    match jobs {
        Ok(jobs) => {
            if jobs.len() == 0 {
                return "当前没有任何定时任务。".to_owned();
            }
            let mut out = "定时任务列表：\n".to_owned();
            let mut i: usize = 0;
            assert(out@ =~= "定时任务列表：\n"@ + job_entries(jobs@.take(0)));
            while i < jobs.len()
                invariant
                    i <= jobs@.len(),
                    out@ == "定时任务列表：\n"@ + job_entries(jobs@.take(i as int)),
                decreases jobs@.len() - i,
            {
                assert(jobs@.take(i + 1).drop_last() =~= jobs@.take(i as int));
                push_entry(&mut out, &jobs[i]);
                i += 1;
                assert(out@ =~= "定时任务列表：\n"@ + job_entries(jobs@.take(i as int)));
            }
            assert(jobs@.take(jobs@.len() as int) =~= jobs@);
            out
        },
        Err(e) => {
            let mut t = "读取失败: ".to_owned();
            t.append(e.as_str());
            t
        },
    }
}

pub open spec fn added_text(name: Seq<char>, stored: Result<i64, Seq<char>>) -> Seq<char> {
    match stored {
        Ok(id) => "✅ 已添加任务 ["@ + int_text(id as int) + "] "@ + name + "（下次重载后生效）"@,
        Err(e) => "添加失败: "@ + e,
    }
}

/// What is told after a job was stored under an id, or could not be.
pub fn add_reply(name: &str, stored: &Result<i64, String>) -> (r: String)
    ensures
        r@ == added_text(
            name@,
            match stored {
                Ok(id) => Ok(*id),
                Err(e) => Err(e@),
            },
        ),
{
    match stored {
        Ok(id) => {
            let mut t = "✅ 已添加任务 [".to_owned();
            t.append(i64_text(*id).as_str());
            t.append("] ");
            t.append(name);
            t.append("（下次重载后生效）");
            t
        },
        Err(e) => {
            let mut t = "添加失败: ".to_owned();
            t.append(e.as_str());
            t
        },
    }
}

/// What is told where the job is not there or could not be looked up.
pub open spec fn lookup_text(id: i64, failure: Option<Seq<char>>) -> Seq<char> {
    match failure {
        Some(e) => "查询失败: "@ + e,
        None => "任务 "@ + int_text(id as int) + " 不存在"@,
    }
}

/// The job that a command is about, as looked up: its name, or what the user is told instead.
pub fn found_job(id: i64, looked_up: Result<Option<JobRecord>, String>) -> (r: Result<String, String>)
    ensures
        match (looked_up, r) {
            (Ok(Some(j)), Ok(name)) => name@ == j.name@,
            (Ok(None), Err(t)) => t@ == lookup_text(id, None),
            (Err(e), Err(t)) => t@ == lookup_text(id, Some(e@)),
            _ => false,
        },
{
    match looked_up {
        Ok(Some(j)) => Ok(j.name),
        Ok(None) => {
            let mut t = "任务 ".to_owned();
            t.append(i64_text(id).as_str());
            t.append(" 不存在");
            Err(t)
        },
        Err(e) => {
            let mut t = "查询失败: ".to_owned();
            t.append(e.as_str());
            Err(t)
        },
    }
}

pub open spec fn deleted_text(id: i64, name: Seq<char>, failure: Option<Seq<char>>) -> Seq<char> {
    match failure {
        None => "✅ 已删除任务 ["@ + int_text(id as int) + "] "@ + name,
        Some(e) => "删除失败: "@ + e,
    }
}

/// What is told after a job was deleted, or could not be.
pub fn cmd_del(id: i64, name: &str, failure: Option<String>) -> (r: String)
    ensures
        r@ == deleted_text(id, name@, opt_view(failure)),
{
    match failure {
        None => {
            let mut t = "✅ 已删除任务 [".to_owned();
            t.append(i64_text(id).as_str());
            t.append("] ");
            t.append(name);
            t
        },
        Some(e) => {
            let mut t = "删除失败: ".to_owned();
            t.append(e.as_str());
            t
        },
    }
}

pub open spec fn switched_text(id: i64, name: Seq<char>, on: bool, failure: Option<Seq<char>>) -> Seq<
    char,
> {
    match failure {
        None => (if on {
            "▶️ 已恢复"@
        } else {
            "⏸️ 已暂停"@
        }) + " 任务 ["@ + int_text(id as int) + "] "@ + name,
        Some(e) => "操作失败: "@ + e,
    }
}

/// What is told after a job was switched on or off, or could not be.
pub fn cmd_set_enabled(id: i64, name: &str, enabled: bool, failure: Option<String>) -> (r: String)
    ensures
        r@ == switched_text(id, name@, enabled, opt_view(failure)),
{
    match failure {
        None => {
            let mut t = if enabled {
                "▶️ 已恢复".to_owned()
            } else {
                "⏸️ 已暂停".to_owned()
            };
            t.append(" 任务 [");
            t.append(i64_text(id).as_str());
            t.append("] ");
            t.append(name);
            t
        },
        Some(e) => {
            let mut t = "操作失败: ".to_owned();
            t.append(e.as_str());
            t
        },
    }
}

/// A job that a command adds has a prompt, and an expression that can be used.
pub proof fn added_jobs_can_run(text: Seq<char>)
    ensures
        handled(text) matches CommandView::Add { name, schedule, chat_id, prompt } ==> {
            &&& prompt.len() > 0
            &&& cron_error(schedule) is None
        },
{
}

} // verus!
