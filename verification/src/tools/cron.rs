//! A tool with which the model manages the jobs that run at set times.
use vstd::prelude::*;
use crate::cron::{bad_schedule, check_schedule, cron_error, JobRecord};
use crate::json::{Json, JsonView};
use crate::llm::body::{str_json, ToolInfo};
use crate::text::{i64_text, int_text, same};
use crate::tools::{
    arg, arg_schema, get_int, get_text, int_arg, object, object_schema, str_views, text_arg,
    text_array,
};

verus! {

/// What the model is told of the tool.
pub const DESCRIPTION: &'static str = "管理定时任务（cron）。到点会自动触发并把结果推送到指定 Telegram chat_id。支持动作：add（新增）/ list（列出）/ pause（暂停）/ resume（恢复）/ delete（删除）。schedule 为北京时间 cron 表达式（分 时 日 月 周，如 \"0 9 * * *\" = 每天 9:00）。";

/// What is asked of the store of jobs.
pub enum Action {
    Add { name: String, schedule: String, chat_id: i64, prompt: String },
    List,
    SetEnabled(i64, bool),
    Delete(i64),
}

#[verifier::ext_equal]
pub enum ActionView {
    Add { name: Seq<char>, schedule: Seq<char>, chat_id: i64, prompt: Seq<char> },
    List,
    SetEnabled(i64, bool),
    Delete(i64),
}

impl View for Action {
    type V = ActionView;

    open spec fn view(&self) -> ActionView {
        match self {
            Action::Add { name, schedule, chat_id, prompt } => ActionView::Add {
                name: name@,
                schedule: schedule@,
                chat_id: *chat_id,
                prompt: prompt@,
            },
            Action::List => ActionView::List,
            Action::SetEnabled(id, on) => ActionView::SetEnabled(*id, *on),
            Action::Delete(id) => ActionView::Delete(*id),
        }
    }
}

pub open spec fn action_view(r: Result<Action, String>) -> Result<ActionView, Seq<char>> {
    match r {
        Ok(a) => Ok(a@),
        Err(e) => Err(e@),
    }
}

/// A job to be added. What is missing is told in this order; then the expression is looked at.
pub open spec fn add_action(args: JsonView) -> Result<ActionView, Seq<char>> {
    match text_arg(args, "name"@) {
        Err(e) => Err(e),
        Ok(name) => match text_arg(args, "schedule"@) {
            Err(e) => Err(e),
            Ok(schedule) => match int_arg(args, "chat_id"@) {
                Err(e) => Err(e),
                Ok(chat_id) => match text_arg(args, "prompt"@) {
                    Err(e) => Err(e),
                    Ok(prompt) => match cron_error(schedule) {
                        Some(e) => Err(bad_schedule(schedule, e)),
                        None => Ok(ActionView::Add { name, schedule, chat_id, prompt }),
                    },
                },
            },
        },
    }
}

/// What the arguments ask for.
pub open spec fn action_of(args: JsonView) -> Result<ActionView, Seq<char>> {
    match text_arg(args, "action"@) {
        Err(e) => Err(e),
        Ok(a) => if a == "add"@ {
            add_action(args)
        } else if a == "list"@ {
            Ok(ActionView::List)
        } else if a == "pause"@ || a == "resume"@ {
            match int_arg(args, "id"@) {
                Ok(id) => Ok(ActionView::SetEnabled(id, a == "resume"@)),
                Err(e) => Err(e),
            }
        } else if a == "delete"@ {
            match int_arg(args, "id"@) {
                Ok(id) => Ok(ActionView::Delete(id)),
                Err(e) => Err(e),
            }
        } else {
            Err("未知 action: "@ + a)
        },
    }
}

/// Whether the jobs are loaded anew after the action, whether it came off or not.
pub open spec fn reloads(args: JsonView) -> bool {
    match args.text_at("action"@) {
        Some(a) => a == "add"@ || a == "pause"@ || a == "resume"@ || a == "delete"@,
        None => false,
    }
}

fn read_add(args: &Json) -> (r: Result<Action, String>)
    ensures
        action_view(r) == add_action(args@),
{
    let name = match get_text(args, "name") {
        Ok(t) => t,
        Err(e) => return Err(e),
    };
    let schedule = match get_text(args, "schedule") {
        Ok(t) => t,
        Err(e) => return Err(e),
    };
    let chat_id = match get_int(args, "chat_id") {
        Ok(n) => n,
        Err(e) => return Err(e),
    };
    let prompt = match get_text(args, "prompt") {
        Ok(t) => t,
        Err(e) => return Err(e),
    };
    match check_schedule(schedule.as_str()) {
        Some(complaint) => Err(complaint),
        None => Ok(Action::Add { name, schedule, chat_id, prompt }),
    }
}

/// One job in the list.
pub open spec fn job_entry(j: JobRecord) -> Seq<char> {
    "["@ + int_text(j.id as int) + "] "@ + j.name@ + "（"@ + if j.enabled {
        "启用"@
    } else {
        "暂停"@
    } + "）\n  schedule: "@ + j.schedule@ + "\n  chat_id: "@ + int_text(j.chat_id as int)
        + "\n  prompt: "@ + j.prompt@ + "\n"@
}

pub open spec fn job_entries(jobs: Seq<JobRecord>) -> Seq<char>
    decreases jobs.len(),
{
    if jobs.len() == 0 {
        Seq::empty()
    } else {
        job_entries(jobs.drop_last()) + job_entry(jobs.last())
    }
}

pub open spec fn list_text(jobs: Seq<JobRecord>) -> Seq<char> {
    if jobs.len() == 0 {
        "当前没有任何定时任务。"@
    } else {
        "定时任务列表：\n"@ + job_entries(jobs)
    }
}

fn push_entry(out: &mut String, j: &JobRecord)
    ensures
        final(out)@ == old(out)@ + job_entry(*j),
{
    out.append("[");
    out.append(i64_text(j.id).as_str());
    out.append("] ");
    out.append(j.name.as_str());
    out.append("（");
    if j.enabled {
        out.append("启用");
    } else {
        out.append("暂停");
    }
    out.append("）\n  schedule: ");
    out.append(j.schedule.as_str());
    out.append("\n  chat_id: ");
    out.append(i64_text(j.chat_id).as_str());
    out.append("\n  prompt: ");
    out.append(j.prompt.as_str());
    out.append("\n");
    assert(out@ =~= old(out)@ + job_entry(*j));
}

pub struct CronTool;

impl CronTool {
    pub fn name(&self) -> (r: &'static str)
        ensures
            r@ == "cron"@,
    {
        "cron"
    }

    pub fn description(&self) -> (r: &'static str)
        ensures
            r@ == DESCRIPTION@,
    {
        DESCRIPTION
    }

    pub open spec fn action_schema() -> JsonView {
        JsonView::Object(
            map![
                "type"@ => str_json("string"@),
                "enum"@ => JsonView::Array(
                    seq!["add"@, "list"@, "pause"@, "resume"@, "delete"@].map_values(
                        |k: Seq<char>| str_json(k),
                    ),
                ),
                "description"@ => str_json("要执行的动作"@),
            ],
        )
    }

    pub open spec fn schema() -> JsonView {
        object_schema(
            map![
                "action"@ => CronTool::action_schema(),
                "name"@ => arg_schema("string"@, "任务名称（add 时必填）"@),
                "schedule"@ => arg_schema("string"@, "北京时间 cron 表达式，5 字段：分 时 日 月 周。如 \"0 9 * * *\"。add 时必填"@),
                "chat_id"@ => arg_schema("integer"@, "推送目标的 Telegram chat_id。add 时必填"@),
                "prompt"@ => arg_schema("string"@, "触发时发给 assistant 的提示词。add 时必填"@),
                "id"@ => arg_schema("integer"@, "任务 id（pause/resume/delete 时必填）"@),
            ],
            seq!["action"@],
        )
    }

    pub fn parameters(&self) -> (r: Json)
        ensures
            r@ == CronTool::schema(),
    {
        let actions = vec!["add", "list", "pause", "resume", "delete"];
        assert(str_views(actions@) =~= seq!["add"@, "list"@, "pause"@, "resume"@, "delete"@]);
        let action = Json::object().with("type", Json::text("string")).with(
            "enum",
            text_array(&actions),
        ).with("description", Json::text("要执行的动作"));
        let required = vec!["action"];
        assert(str_views(required@) =~= seq!["action"@]);
        object(
            Json::object().with("action", action).with(
                "name",
                arg("string", "任务名称（add 时必填）"),
            ).with(
                "schedule",
                arg("string", "北京时间 cron 表达式，5 字段：分 时 日 月 周。如 \"0 9 * * *\"。add 时必填"),
            ).with("chat_id", arg("integer", "推送目标的 Telegram chat_id。add 时必填")).with(
                "prompt",
                arg("string", "触发时发给 assistant 的提示词。add 时必填"),
            ).with("id", arg("integer", "任务 id（pause/resume/delete 时必填）")),
            &required,
        )
    }

    pub fn info(&self) -> (r: ToolInfo)
        ensures
            r.name@ == "cron"@,
            r.description@ == DESCRIPTION@,
            r.parameters@ == CronTool::schema(),
    {
        ToolInfo {
            name: self.name().to_owned(),
            description: self.description().to_owned(),
            parameters: self.parameters(),
        }
    }

    /// What the arguments ask for, and whether the jobs are loaded anew afterwards.
    pub fn plan(&self, args: &Json) -> (r: (Result<Action, String>, bool))
        ensures
            action_view(r.0) == action_of(args@),
            r.1 == reloads(args@),
    {
        let action = match get_text(args, "action") {
            Ok(t) => t,
            Err(e) => return (Err(e), false),
        };
        let a = action.as_str();
        if same(a, "add") {
            return (read_add(args), true);
        }
        if same(a, "list") {
            proof {
                reveal_strlit("list");
                reveal_strlit("pause");
                reveal_strlit("resume");
                reveal_strlit("delete");
                reveal_strlit("add");
                assert("list"@.len() != "pause"@.len() && "list"@.len() != "resume"@.len());
                assert("list"@.len() != "delete"@.len() && "list"@.len() != "add"@.len());
            }
            return (Ok(Action::List), false);
        }
        if same(a, "pause") || same(a, "resume") {
            let on = same(a, "resume");
            return match get_int(args, "id") {
                Ok(id) => (Ok(Action::SetEnabled(id, on)), true),
                Err(e) => (Err(e), true),
            };
        }
        if same(a, "delete") {
            return match get_int(args, "id") {
                Ok(id) => (Ok(Action::Delete(id)), true),
                Err(e) => (Err(e), true),
            };
        }
        let mut e = "未知 action: ".to_owned();
        e.append(a);
        (Err(e), false)
    }

    /// What is given back once a job is stored under `id`.
    pub fn action_add(&self, id: i64, name: &str, schedule: &str, chat_id: i64) -> (r: String)
        ensures
            r@ == "已创建定时任务 ["@ + int_text(id as int) + "] "@ + name@ + "：schedule="@
                + schedule@ + "（北京时间） chat_id="@ + int_text(chat_id as int)
                + "\n已立即生效。"@,
    {
        let mut t = "已创建定时任务 [".to_owned();
        t.append(i64_text(id).as_str());
        t.append("] ");
        t.append(name);
        t.append("：schedule=");
        t.append(schedule);
        t.append("（北京时间） chat_id=");
        t.append(i64_text(chat_id).as_str());
        t.append("\n已立即生效。");
        t
    }

    /// The list of jobs.
    pub fn action_list(&self, jobs: &Vec<JobRecord>) -> (r: String)
        ensures
            r@ == list_text(jobs@),
    {
        if jobs.len() == 0 {
            return "当前没有任何定时任务。".to_owned();
        }
        let mut out = "定时任务列表：\n".to_owned();
        let mut i: usize = 0;
        assert(out@ =~= "定时任务列表：\n"@ + job_entries(jobs@.take(0)));
        while i < jobs.len()
            invariant
                i <= jobs@.len(),
                out@ == "定时任务列表：\n"@ + job_entries(jobs@.take(i as int)),
            decreases jobs@.len() - i,
        {
            assert(jobs@.take(i + 1).drop_last() =~= jobs@.take(i as int));
            push_entry(&mut out, &jobs[i]);
            i += 1;
            assert(out@ =~= "定时任务列表：\n"@ + job_entries(jobs@.take(i as int)));
        }
        assert(jobs@.take(jobs@.len() as int) =~= jobs@);
        out
    }

    /// What is given back once a job is switched on or off.
    pub fn action_set(&self, id: i64, name: &str, enabled: bool) -> (r: String)
        ensures
            r@ == "已"@ + if enabled {
                "恢复"@
            } else {
                "暂停"@
            } + "任务 ["@ + int_text(id as int) + "] "@ + name@,
    {
        let mut t = "已".to_owned();
        if enabled {
            t.append("恢复");
        } else {
            t.append("暂停");
        }
        t.append("任务 [");
        t.append(i64_text(id).as_str());
        t.append("] ");
        t.append(name);
        t
    }

    /// What is given back once a job is deleted.
    pub fn action_delete(&self, id: i64, name: &str) -> (r: String)
        ensures
            r@ == "已删除任务 ["@ + int_text(id as int) + "] "@ + name@,
    {
        let mut t = "已删除任务 [".to_owned();
        t.append(i64_text(id).as_str());
        t.append("] ");
        t.append(name);
        t
    }

    /// What is said of a job that is not there.
    pub fn no_such_job(&self, id: i64) -> (r: String)
        ensures
            r@ == "任务 "@ + int_text(id as int) + " 不存在"@,
    {
        let mut t = "任务 ".to_owned();
        t.append(i64_text(id).as_str());
        t.append(" 不存在");
        t
    }
}

/// Whatever changes the stored jobs has them loaded anew.
pub proof fn changes_are_loaded(args: JsonView)
    ensures
        action_of(args) is Ok && !(action_of(args)->Ok_0 is List) ==> reloads(args),
{
}

/// A job that is added has an expression that can be used.
pub proof fn added_jobs_can_run(args: JsonView)
    ensures
        action_of(args) matches Ok(ActionView::Add { name, schedule, chat_id, prompt }) ==> cron_error(
            schedule,
        ) is None,
{
}

} // verus!
