//! A tool that runs a command, within the limits that the configuration sets. The limits compare
//! strings; they are no sandbox.
use vstd::prelude::*;
use crate::config::{filled, take_filled, ShellSection};
use crate::json::{Json, JsonView};
use crate::llm::body::ToolInfo;
use crate::text::{
    chars_of, contains, copy_strings, first_chars, has_part, has_prefix, i64_text, int_text, join,
    joined, nat_text, opt_view, starts_with, string_of, take_chars, trim_start_by,
    trim_start_matches, u64_text, views, CharClass,
};
use crate::tools::{
    arg, arg_schema, get_text, object, object_schema, result_view, str_views, text_arg,
};

verus! {

/// How many characters of output are shown.
pub const MAX_OUTPUT_CHARS: usize = 5000;

/// What the model is told of the tool.
pub const DESCRIPTION: &'static str = "执行 shell 命令并返回输出（合并 stdout 与 stderr，含退出码）。受白名单/黑名单约束：命中黑名单子串或不在白名单前缀内会被拒绝。有超时限制（默认 30 秒）。请只执行只读或安全命令，避免破坏性操作。";

pub struct ShellTool {
    pub allow: Vec<String>,
    pub deny: Vec<String>,
    /// In seconds.
    pub timeout: u64,
    pub workdir: Option<String>,
}

/// The first of the patterns, from `i` on, that the command holds.
pub open spec fn first_denied(deny: Seq<Seq<char>>, command: Seq<char>, i: int) -> Option<Seq<char>>
    decreases deny.len() - i,
{
    if i < 0 || i >= deny.len() {
        None
    } else if contains(command, deny[i]) {
        Some(deny[i])
    } else {
        first_denied(deny, command, i + 1)
    }
}

/// Whether the command starts with one of the prefixes. White space in front does not count.
pub open spec fn is_allowed(allow: Seq<Seq<char>>, command: Seq<char>) -> bool {
    exists|i: int|
        0 <= i < allow.len() && starts_with(
            trim_start_by(command, CharClass::Blank),
            #[trigger] allow[i],
        )
}

/// Why a command is turned down, where it is: it holds something denied, or it starts with nothing
/// allowed while something has to be.
pub open spec fn refusal(allow: Seq<Seq<char>>, deny: Seq<Seq<char>>, command: Seq<char>) -> Option<
    Seq<char>,
> {
    match first_denied(deny, command, 0) {
        Some(pat) => Some(
            "命令被黑名单拦截（命中 '"@ + pat
                + "'）。如需执行，请调整命令或联系管理员修改 shell.deny 配置。"@,
        ),
        None => if allow.len() > 0 && !is_allowed(allow, command) {
            Some(
                "命令不在白名单内（允许的前缀："@ + joined(allow, ", "@)
                    + "）。请改用允许的命令，或联系管理员扩展 shell.allow 配置。"@,
            )
        } else {
            None
        },
    }
}

/// A long text cut to its start and its end, with a note between them.
pub open spec fn cut(s: Seq<char>, max: nat) -> Seq<char> {
    if s.len() <= max {
        s
    } else {
        first_chars(s, max * 4 / 5) + "\n…[输出过长，已截断 "@ + nat_text(max) + " 字符]…\n"@ + s.skip(
            s.len() - max / 5,
        )
    }
}

/// [`cut`].
pub fn truncate(s: &str, max: usize) -> (r: String)
    requires
        max * 4 <= usize::MAX,
    ensures
        r@ == cut(s@, max as nat),
{
    let v = chars_of(s);
    if v.len() <= max {
        return s.to_owned();
    }
    let mut r = take_chars(s, max * 4 / 5);
    r.append("\n…[输出过长，已截断 ");
    r.append(u64_text(max as u64).as_str());
    r.append(" 字符]…\n");
    let from: usize = v.len() - max / 5;
    let tail = string_of(&v, from, v.len());
    assert(tail@ =~= s@.skip(from as int));
    r.append(tail.as_str());
    r
}

/// What a command wrote, the second stream behind the first.
pub open spec fn combined(stdout: Seq<char>, stderr: Seq<char>) -> Seq<char> {
    if stderr.len() == 0 {
        stdout
    } else if stdout.len() == 0 {
        stderr
    } else {
        stdout + "\n[stderr]\n"@ + stderr
    }
}

/// What is given back of a command that ended: its output and its exit code, as a result where it
/// succeeded and as an error where it did not.
pub open spec fn report(stdout: Seq<char>, stderr: Seq<char>, code: Option<i32>, success: bool) -> Result<
    Seq<char>,
    Seq<char>,
> {
    let out = cut(combined(stdout, stderr), MAX_OUTPUT_CHARS as nat);
    let number = int_text(
        match code {
            Some(c) => c as int,
            None => -1,
        },
    );
    if success {
        if out.len() == 0 {
            Ok("（命令执行成功，无输出。退出码 "@ + number + "）"@)
        } else {
            Ok(out + "\n[退出码 "@ + number + "]"@)
        }
    } else {
        Err("命令退出码非零（"@ + number + "）。输出：\n"@ + out)
    }
}

impl ShellTool {
    pub fn new(cfg: &ShellSection) -> (r: ShellTool)
        ensures
            views(r.allow@) == views(cfg.allow@),
            views(r.deny@) == cfg.denied(),
            r.timeout == cfg.timeout,
            opt_view(r.workdir) == filled(opt_view(cfg.workdir)),
    {
        ShellTool {
            allow: copy_strings(&cfg.allow),
            deny: cfg.effective_deny(),
            timeout: cfg.timeout,
            workdir: take_filled(&cfg.workdir),
        }
    }

    pub fn name(&self) -> (r: &'static str)
        ensures
            r@ == "shell"@,
    {
        "shell"
    }

    pub fn description(&self) -> (r: &'static str)
        ensures
            r@ == DESCRIPTION@,
    {
        DESCRIPTION
    }

    pub open spec fn schema() -> JsonView {
        object_schema(
            map!["command"@ => arg_schema("string"@, "要执行的 shell 命令"@)],
            seq!["command"@],
        )
    }

    pub fn parameters(&self) -> (r: Json)
        ensures
            r@ == ShellTool::schema(),
    {
        let required = vec!["command"];
        assert(str_views(required@) =~= seq!["command"@]);
        object(Json::object().with("command", arg("string", "要执行的 shell 命令")), &required)
    }

    pub fn info(&self) -> (r: ToolInfo)
        ensures
            r.name@ == "shell"@,
            r.description@ == DESCRIPTION@,
            r.parameters@ == ShellTool::schema(),
    {
        ToolInfo {
            name: self.name().to_owned(),
            description: self.description().to_owned(),
            parameters: self.parameters(),
        }
    }

    /// Whether a command may run; why not, where it may not.
    pub fn check_policy(&self, command: &str) -> (r: Result<(), String>)
        ensures
            match r {
                Ok(_) => refusal(views(self.allow@), views(self.deny@), command@) is None,
                Err(e) => refusal(views(self.allow@), views(self.deny@), command@) == Some(e@),
            },
    {
        let ghost deny = views(self.deny@);
        let ghost allow = views(self.allow@);
        let mut i: usize = 0;
        while i < self.deny.len()
            invariant
                i <= self.deny@.len(),
                deny == views(self.deny@),
                allow == views(self.allow@),
                first_denied(deny, command@, 0) == first_denied(deny, command@, i as int),
            decreases self.deny@.len() - i,
        {
            assert(deny[i as int] == self.deny@[i as int]@);
            if has_part(command, self.deny[i].as_str()) {
                let mut e = "命令被黑名单拦截（命中 '".to_owned();
                e.append(self.deny[i].as_str());
                e.append("'）。如需执行，请调整命令或联系管理员修改 shell.deny 配置。");
                return Err(e);
            }
            i += 1;
        }
        if self.allow.len() > 0 {
            let start = trim_start_matches(command, CharClass::Blank);
            let mut allowed = false;
            let mut k: usize = 0;
            while k < self.allow.len() && !allowed
                invariant
                    k <= self.allow@.len(),
                    allow == views(self.allow@),
                    start@ == trim_start_by(command@, CharClass::Blank),
                    allowed ==> is_allowed(allow, command@),
                    !allowed ==> forall|j: int|
                        0 <= j < k ==> !starts_with(start@, #[trigger] allow[j]),
                decreases self.allow@.len() - k,
            {
                assert(allow[k as int] == self.allow@[k as int]@);
                if has_prefix(start.as_str(), self.allow[k].as_str()) {
                    allowed = true;
                }
                k += 1;
            }
            if !allowed {
                let mut e = "命令不在白名单内（允许的前缀：".to_owned();
                e.append(join(&self.allow, ", ").as_str());
                e.append("）。请改用允许的命令，或联系管理员扩展 shell.allow 配置。");
                return Err(e);
            }
        }
        Ok(())
    }

    /// The command to run, or why none is.
    pub open spec fn planned(self, args: JsonView) -> Result<Seq<char>, Seq<char>> {
        match text_arg(args, "command"@) {
            Ok(c) => match refusal(views(self.allow@), views(self.deny@), c) {
                Some(e) => Err(e),
                None => Ok(c),
            },
            Err(e) => Err(e),
        }
    }

    /// [`ShellTool::planned`].
    pub fn command(&self, args: &Json) -> (r: Result<String, String>)
        ensures
            result_view(r) == self.planned(args@),
    {
        let c = match get_text(args, "command") {
            Ok(c) => c,
            Err(e) => return Err(e),
        };
        match self.check_policy(c.as_str()) {
            Ok(_) => Ok(c),
            Err(e) => Err(e),
        }
    }

    /// [`report`].
    pub fn run(&self, stdout: &str, stderr: &str, code: Option<i32>, success: bool) -> (r: Result<
        String,
        String,
    >)
        ensures
            result_view(r) == report(stdout@, stderr@, code, success),
    {
        let mut all = stdout.to_owned();
        if !stderr.is_empty() {
            if !stdout.is_empty() {
                all.append("\n[stderr]\n");
            }
            all.append(stderr);
        }
        assert(all@ =~= combined(stdout@, stderr@));
        let out = truncate(all.as_str(), MAX_OUTPUT_CHARS);
        let number = match code {
            Some(c) => i64_text(c as i64),
            None => i64_text(-1),
        };
        if success {
            if out.as_str().is_empty() {
                let mut t = "（命令执行成功，无输出。退出码 ".to_owned();
                t.append(number.as_str());
                t.append("）");
                Ok(t)
            } else {
                let mut t = out;
                t.append("\n[退出码 ");
                t.append(number.as_str());
                t.append("]");
                Ok(t)
            }
        } else {
            let mut t = "命令退出码非零（".to_owned();
            t.append(number.as_str());
            t.append("）。输出：\n");
            t.append(out.as_str());
            Err(t)
        }
    }

    /// What is said of a command that took too long.
    pub fn timeout_error(&self) -> (r: String)
        ensures
            r@ == "命令执行超时（"@ + nat_text(self.timeout as nat) + " 秒）"@,
    {
        let mut t = "命令执行超时（".to_owned();
        t.append(u64_text(self.timeout).as_str());
        t.append(" 秒）");
        t
    }

    /// What is said of a command that could not be started.
    pub fn start_error(&self, e: &str) -> (r: String)
        ensures
            r@ == "执行失败: "@ + e@,
    {
        let mut t = "执行失败: ".to_owned();
        t.append(e);
        t
    }
}

// ---------- laws ----------

/// A command that holds something denied never runs, whatever is allowed.
pub proof fn denied_commands_never_run(tool: ShellTool, args: JsonView, i: int)
    requires
        0 <= i < tool.deny@.len(),
        args.text_at("command"@) matches Some(c) && contains(c, tool.deny@[i]@),
    ensures
        tool.planned(args) is Err,
{
    let c = args.text_at("command"@)->0;
    let deny = views(tool.deny@);
    assert(deny[i] == tool.deny@[i]@);
    lemma_denied(deny, c, 0, i);
}

proof fn lemma_denied(deny: Seq<Seq<char>>, command: Seq<char>, from: int, i: int)
    requires
        0 <= from <= i < deny.len(),
        contains(command, deny[i]),
    ensures
        first_denied(deny, command, from) is Some,
    decreases i - from,
{
    if from < i && !contains(command, deny[from]) {
        lemma_denied(deny, command, from + 1, i);
    }
}

/// Where something has to be allowed, only commands that start with it run.
pub proof fn only_allowed_commands_run(tool: ShellTool, args: JsonView)
    requires
        tool.allow@.len() > 0,
        tool.planned(args) is Ok,
    ensures
        is_allowed(views(tool.allow@), tool.planned(args)->Ok_0),
        tool.planned(args)->Ok_0 == args.text_at("command"@)->0,
{
}

/// Output is shown in full where it is short; a long one keeps its start and its end.
pub proof fn cut_keeps_both_ends(s: Seq<char>, max: nat)
    ensures
        s.len() <= max ==> cut(s, max) == s,
        s.len() > max ==> {
            &&& starts_with(cut(s, max), s.take((max * 4 / 5) as int))
            &&& cut(s, max).skip(cut(s, max).len() - max / 5) == s.skip(s.len() - max / 5)
        },
{
    if s.len() > max {
        let head = s.take((max * 4 / 5) as int);
        let tail = s.skip(s.len() - max / 5);
        assert(cut(s, max).take(head.len() as int) =~= head);
        assert(cut(s, max).skip(cut(s, max).len() - max / 5) =~= tail);
    }
}

} // verus!
