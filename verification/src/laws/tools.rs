//! Laws of the tools: what their arguments ask for, what is turned down, and what is given back.
use vstd::prelude::*;
use crate::cron::{cron_error, JobRecord};
use crate::json::JsonView;
use crate::laws::chats::start;
use crate::laws::streams::{field, list_field, text_field};
use crate::laws::texts::{ends_are_taken_off, parts_are_there, trimming_keeps_the_core};
use crate::llm::body::ToolView;
use crate::text::{
    contains, first_chars, int_text, is_white_space, joined, nat_text, occurs_at, replaced, starts_with, views,
    CharClass,
};
use crate::tools::cron::{action_of, job_entries, job_entry, list_text, reloads, ActionView, CronTool};
use crate::tools::echo::Echo;
use crate::tools::fs::{shown, ReadFile};
use crate::tools::memory::{kept_text, statement, WriteMemoryTool};
use crate::tools::shell::{combined, cut, first_denied, refusal, report, ShellTool};
use crate::tools::skill::{
    draft_of, leads_away, skill_dir, skill_file, skill_path, SkillCreateTool, SkillDraft,
    SkillUseTool,
};
use crate::tools::{arg_schema, int_arg, object_schema, text_arg, tool_at, with_tool};

verus! {

// ---------- arguments ----------

/// An argument is handed on as it is; one that is not there, or is of another kind, is told by its name.
pub proof fn arguments_are_handed_on(args: JsonView, key: Seq<char>)
    ensures
        text_field(args, key) matches Some(t) ==> text_arg(args, key) == Ok::<Seq<char>, Seq<char>>(t),
        text_field(args, key) is None ==> text_arg(args, key) == Err::<Seq<char>, Seq<char>>(
            "缺少 "@ + key + " 参数"@,
        ),
        args.sint_at(key) matches Some(n) ==> int_arg(args, key) == Ok::<i64, Seq<char>>(n),
        args.sint_at(key) is None ==> int_arg(args, key) == Err::<i64, Seq<char>>("缺少 "@ + key + " 参数"@),
{
}

proof fn lemma_schema_keys()
    ensures
        "type"@.len() == 4 && "properties"@.len() == 10 && "required"@.len() == 8 && "description"@.len() == 11,
        "enum"@.len() == 4 && "type"@ != "enum"@,
{
    reveal_strlit("type");
    reveal_strlit("properties");
    reveal_strlit("required");
    reveal_strlit("description");
    reveal_strlit("enum");
    assert("type"@[0] == 't' && "enum"@[0] == 'e');
}

/// What a tool takes is described argument by argument, with all that it cannot do without.
pub proof fn arguments_are_described(
    kind: Seq<char>,
    description: Seq<char>,
    fields: Map<Seq<char>, JsonView>,
    required: Seq<Seq<char>>,
    k: int,
)
    requires
        0 <= k < required.len(),
    ensures
        text_field(arg_schema(kind, description), "type"@) == Some(kind),
        text_field(arg_schema(kind, description), "description"@) == Some(description),
        text_field(object_schema(fields, required), "type"@) == Some("object"@),
        field(object_schema(fields, required), "properties"@) == Some(JsonView::Object(fields)),
        list_field(object_schema(fields, required), "required"@) is Some,
        list_field(object_schema(fields, required), "required"@)->0.len() == required.len(),
        list_field(object_schema(fields, required), "required"@)->0[k] == JsonView::Str(required[k]),
{
    lemma_schema_keys();
}

/// Whether a tool has an argument of this kind.
pub open spec fn takes(schema: JsonView, key: Seq<char>, kind: Seq<char>) -> bool {
    &&& field(schema, "properties"@) is Some
    &&& field(field(schema, "properties"@)->0, key) is Some
    &&& text_field(field(field(schema, "properties"@)->0, key)->0, "type"@) == Some(kind)
}

/// Whether a tool needs just these arguments.
pub open spec fn needs(schema: JsonView, keys: Seq<Seq<char>>) -> bool {
    &&& list_field(schema, "required"@) is Some
    &&& list_field(schema, "required"@)->0.len() == keys.len()
    &&& forall|k: int|
        #![trigger keys[k]]
        0 <= k < keys.len() ==> list_field(schema, "required"@)->0[k] == JsonView::Str(keys[k])
}

/// The arguments that each tool takes and those that it needs.
#[verifier::spinoff_prover]
#[verifier::rlimit(50)]
pub proof fn tools_take_their_arguments()
    ensures
        takes(Echo::schema(), "text"@, "string"@) && needs(Echo::schema(), seq!["text"@]),
        takes(ReadFile::schema(), "path"@, "string"@) && needs(ReadFile::schema(), seq!["path"@]),
        takes(WriteMemoryTool::schema(), "content"@, "string"@) && needs(
            WriteMemoryTool::schema(),
            seq!["content"@],
        ),
        takes(ShellTool::schema(), "command"@, "string"@) && needs(ShellTool::schema(), seq!["command"@]),
        takes(SkillUseTool::schema(), "name"@, "string"@) && needs(SkillUseTool::schema(), seq!["name"@]),
        takes(SkillCreateTool::schema(), "name"@, "string"@),
        takes(SkillCreateTool::schema(), "description"@, "string"@),
        takes(SkillCreateTool::schema(), "content"@, "string"@),
        needs(SkillCreateTool::schema(), seq!["name"@, "description"@, "content"@]),
        takes(CronTool::schema(), "action"@, "string"@),
        takes(CronTool::schema(), "name"@, "string"@),
        takes(CronTool::schema(), "schedule"@, "string"@),
        takes(CronTool::schema(), "chat_id"@, "integer"@),
        takes(CronTool::schema(), "prompt"@, "string"@),
        takes(CronTool::schema(), "id"@, "integer"@),
        needs(CronTool::schema(), seq!["action"@]),
        list_field(field(field(CronTool::schema(), "properties"@)->0, "action"@)->0, "enum"@) == Some(
            seq![
                JsonView::Str("add"@), JsonView::Str("list"@), JsonView::Str("pause"@), JsonView::Str("resume"@),
                JsonView::Str("delete"@),
            ],
        ),
{
    lemma_schema_keys();
    reveal_strlit("name");
    reveal_strlit("content");
    reveal_strlit("action");
    reveal_strlit("schedule");
    reveal_strlit("chat_id");
    reveal_strlit("prompt");
    reveal_strlit("id");
    assert("action"@[0] == 'a' && "prompt"@[0] == 'p');
    assert("name"@.len() == 4 && "content"@.len() == 7 && "action"@.len() == 6 && "prompt"@.len() == 6);
    assert("schedule"@.len() == 8 && "chat_id"@.len() == 7 && "id"@.len() == 2);
    let cron = field(CronTool::schema(), "properties"@)->0;
    assert(list_field(field(cron, "action"@)->0, "enum"@)->0 =~= seq![
        JsonView::Str("add"@), JsonView::Str("list"@), JsonView::Str("pause"@), JsonView::Str("resume"@),
        JsonView::Str("delete"@),
    ]);
    assert(field(cron, "name"@) is Some);
    assert(text_field(field(cron, "name"@)->0, "type"@) == Some("string"@));
    assert(field(cron, "schedule"@) is Some);
    assert(text_field(field(cron, "schedule"@)->0, "type"@) == Some("string"@));
}

// ---------- the list of tools ----------

/// A tool takes the place of the one of its name, and goes to the end where there is none; the others
/// stay as they are.
pub proof fn tools_are_registered_by_name(tools: Seq<ToolView>, t: ToolView, k: int)
    requires
        0 <= k < tools.len(),
    ensures
        tools[k].name == t.name && (forall|j: int| 0 <= j < k ==> (#[trigger] tools[j]).name != t.name) ==> {
            &&& tool_at(tools, t.name, 0) == Some(k)
            &&& with_tool(tools, t).len() == tools.len()
            &&& with_tool(tools, t)[k] == t
            &&& forall|j: int| 0 <= j < tools.len() && j != k ==> #[trigger] with_tool(tools, t)[j] == tools[j]
        },
        (forall|j: int| 0 <= j < tools.len() ==> (#[trigger] tools[j]).name != t.name) ==> {
            &&& tool_at(tools, t.name, 0) is None
            &&& with_tool(tools, t) == tools.push(t)
        },
{
    lemma_tool_found(tools, t.name, 0, k);
}

proof fn lemma_tool_found(tools: Seq<ToolView>, name: Seq<char>, i: int, k: int)
    requires
        0 <= i,
        k < tools.len(),
    ensures
        i <= k && tools[k].name == name && (forall|j: int| i <= j < k ==> (#[trigger] tools[j]).name != name)
            ==> tool_at(tools, name, i) == Some(k),
        (forall|j: int| i <= j < tools.len() ==> (#[trigger] tools[j]).name != name) ==> tool_at(tools, name, i)
            is None,
    decreases tools.len() - i,
{
    if i < tools.len() {
        lemma_tool_found(tools, name, i + 1, k);
    }
}

// ---------- shell ----------

proof fn lemma_denied(deny: Seq<Seq<char>>, command: Seq<char>, i: int, k: int)
    requires
        0 <= i <= k <= deny.len(),
        forall|j: int| i <= j < k ==> !contains(command, #[trigger] deny[j]),
    ensures
        first_denied(deny, command, i) == first_denied(deny, command, k),
    decreases k - i,
{
    if i < k {
        assert(!contains(command, deny[i]));
        lemma_denied(deny, command, i + 1, k);
    }
}

/// A command that holds a denied part, wherever it stands, is turned down, with the first such part in
/// the order of the list.
pub proof fn denied_commands_are_turned_down(
    allow: Seq<Seq<char>>,
    deny: Seq<Seq<char>>,
    k: int,
    before: Seq<char>,
    after: Seq<char>,
)
    requires
        0 <= k < deny.len(),
        forall|j: int| 0 <= j < k ==> !contains(before + deny[k] + after, #[trigger] deny[j]),
    ensures
        refusal(allow, deny, before + deny[k] + after) == Some(
            "命令被黑名单拦截（命中 '"@ + deny[k] + "'）。如需执行，请调整命令或联系管理员修改 shell.deny 配置。"@,
        ),
{
    let command = before + deny[k] + after;
    lemma_denied(deny, command, 0, k);
    parts_are_there(command, deny[k]);
}

/// A command without a denied part runs where nothing has to be allowed, or where it starts with
/// something allowed, white space in front apart; else it is turned down, with all that is allowed.
pub proof fn other_commands_run_where_allowed(
    allow: Seq<Seq<char>>,
    deny: Seq<Seq<char>>,
    blank: Seq<char>,
    core: Seq<char>,
    k: int,
)
    requires
        forall|i: int| 0 <= i < blank.len() ==> is_white_space(#[trigger] blank[i]),
        core.len() > 0 && !is_white_space(core[0]),
        forall|j: int| 0 <= j < deny.len() ==> !contains(blank + core, #[trigger] deny[j]),
    ensures
        allow.len() == 0 ==> refusal(allow, deny, blank + core) is None,
        0 <= k < allow.len() && starts_with(core, allow[k]) ==> refusal(allow, deny, blank + core) is None,
        allow.len() > 0 && (forall|j: int| 0 <= j < allow.len() ==> !starts_with(core, #[trigger] allow[j]))
            ==> refusal(allow, deny, blank + core) == Some(
            "命令不在白名单内（允许的前缀："@ + joined(allow, ", "@)
                + "）。请改用允许的命令，或联系管理员扩展 shell.allow 配置。"@,
        ),
{
    lemma_denied(deny, blank + core, 0, deny.len() as int);
    assert forall|i: int| 0 <= i < blank.len() implies CharClass::Blank.has(#[trigger] blank[i]) by {}
    ends_are_taken_off(core, blank, CharClass::Blank);
}

/// What runs is the command as it was given.
pub proof fn commands_run_as_given(tool: ShellTool, args: JsonView, command: Seq<char>)
    ensures
        text_field(args, "command"@) == Some(command) && refusal(views(tool.allow@), views(tool.deny@), command)
            is None ==> tool.planned(args) == Ok::<Seq<char>, Seq<char>>(command),
        text_field(args, "command"@) == Some(command) && refusal(views(tool.allow@), views(tool.deny@), command)
            is Some ==> tool.planned(args) == Err::<Seq<char>, Seq<char>>(
            refusal(views(tool.allow@), views(tool.deny@), command)->0,
        ),
        text_field(args, "command"@) is None ==> tool.planned(args) == Err::<Seq<char>, Seq<char>>(
            "缺少 "@ + "command"@ + " 参数"@,
        ),
{
}

/// A text that is not too long is kept; of a longer one the first four fifths of the room and the last
/// fifth are, with a note between them.
pub proof fn long_texts_keep_both_ends(s: Seq<char>, max: nat)
    ensures
        s.len() <= max ==> cut(s, max) == s,
        s.len() > max ==> {
            let (head, tail) = (max * 4 / 5, max / 5);
            let note = "\n…[输出过长，已截断 "@ + nat_text(max) + " 字符]…\n"@;
            &&& cut(s, max).len() == head + note.len() + tail
            &&& cut(s, max).take(head as int) == s.take(head as int)
            &&& cut(s, max).subrange(head as int, (head + note.len()) as int) == note
            &&& cut(s, max).skip((head + note.len()) as int) == s.skip(s.len() - tail)
        },
{
    if s.len() > max {
        let (head, tail) = (max * 4 / 5, max / 5);
        let note = "\n…[输出过长，已截断 "@ + nat_text(max) + " 字符]…\n"@;
        let end = s.skip(s.len() - tail);
        let all = cut(s, max);
        assert(first_chars(s, head) =~= s.take(head as int));
        assert(all =~= s.take(head as int) + note + end);
        assert(all.take(head as int) =~= s.take(head as int));
        assert(all.subrange(head as int, (head + note.len()) as int) =~= note);
        assert(all.skip((head + note.len()) as int) =~= end);
    }
}

/// What a command wrote is given back in full as far as there is room, with its code: as a result where
/// it succeeded, as an error where it did not.
pub proof fn output_is_given_back(stdout: Seq<char>, stderr: Seq<char>, code: Option<i32>, n: int, all: Seq<char>)
    requires
        code is Some ==> n == code->0,
        code is None ==> n == -1,
        stdout.len() > 0 && stderr.len() > 0 ==> all == stdout + "\n[stderr]\n"@ + stderr,
        stdout.len() == 0 ==> all == stderr,
        stderr.len() == 0 ==> all == stdout,
    ensures
        combined(stdout, stderr) == all,
        0 < all.len() <= 5000 ==> report(stdout, stderr, code, true) == Ok::<Seq<char>, Seq<char>>(
            all + "\n[退出码 "@ + int_text(n) + "]"@,
        ),
        all.len() > 5000 ==> report(stdout, stderr, code, true) == Ok::<Seq<char>, Seq<char>>(
            cut(all, 5000) + "\n[退出码 "@ + int_text(n) + "]"@,
        ),
        all.len() == 0 ==> report(stdout, stderr, code, true) == Ok::<Seq<char>, Seq<char>>(
            "（命令执行成功，无输出。退出码 "@ + int_text(n) + "）"@,
        ),
        report(stdout, stderr, code, false) == Err::<Seq<char>, Seq<char>>(
            "命令退出码非零（"@ + int_text(n) + "）。输出：\n"@ + cut(all, 5000),
        ),
{
    long_texts_keep_both_ends(all, 5000);
    if stdout.len() == 0 && stderr.len() == 0 {
        assert(stdout =~= stderr);
    }
    reveal_strlit("\n…[输出过长，已截断 ");
}

// ---------- files and statements ----------

/// A file is given back in full, or its first 5000 characters with a note.
pub proof fn files_are_shown(content: Seq<char>)
    ensures
        content.len() <= 5000 ==> shown(content) == content,
        content.len() > 5000 ==> shown(content) == content.take(5000) + "...(截断)"@,
{
    if content.len() > 5000 {
        assert(first_chars(content, 5000) =~= content.take(5000));
    }
}

/// A statement is kept without white space at its ends, its first 2000 characters where it is longer; a
/// blank one is turned down, and so is none.
pub proof fn statements_are_kept(args: JsonView, before: Seq<char>, core: Seq<char>, after: Seq<char>)
    requires
        forall|i: int| 0 <= i < before.len() ==> is_white_space(#[trigger] before[i]),
        forall|i: int| 0 <= i < after.len() ==> is_white_space(#[trigger] after[i]),
        core.len() > 0 && !is_white_space(core[0]) && !is_white_space(core.last()),
    ensures
        text_field(args, "content"@) == Some(before + core + after) ==> statement(args) == Ok::<
            Seq<char>,
            Seq<char>,
        >(start(core, 2000)),
        text_field(args, "content"@) == Some(before) ==> statement(args) == Err::<Seq<char>, Seq<char>>(
            "content 不能为空"@,
        ),
        text_field(args, "content"@) is None ==> statement(args) == Err::<Seq<char>, Seq<char>>(
            "缺少 "@ + "content"@ + " 参数"@,
        ),
        kept_text(core) == "已写入长期记忆（"@ + nat_text(core.len()) + " 字符）"@,
{
    let none = Seq::<char>::empty();
    trimming_keeps_the_core(before, core, after);
    trimming_keeps_the_core(before, none, none);
    assert(before + none + none =~= before);
    assert(first_chars(core, 2000) =~= start(core, 2000));
}

// ---------- skills ----------

/// A name leads away where it holds a separator or two dots in a row, and nowhere else.
pub proof fn names_that_lead_away(name: Seq<char>)
    ensures
        leads_away(name) <==> (exists|i: int|
            0 <= i < name.len() && (#[trigger] name[i] == '/' || name[i] == '\\' || (name[i] == '.' && i + 1
                < name.len() && name[i + 1] == '.'))),
{
    reveal_strlit("/");
    reveal_strlit("\\");
    reveal_strlit("..");
    if contains(name, "/"@) {
        let i = choose|i: int| #[trigger] occurs_at(name, "/"@, i);
        assert(name.subrange(i, i + 1)[0] == name[i]);
    }
    if contains(name, "\\"@) {
        let i = choose|i: int| #[trigger] occurs_at(name, "\\"@, i);
        assert(name.subrange(i, i + 1)[0] == name[i]);
    }
    if contains(name, ".."@) {
        let i = choose|i: int| #[trigger] occurs_at(name, ".."@, i);
        assert(name.subrange(i, i + 2)[0] == name[i]);
        assert(name.subrange(i, i + 2)[1] == name[i + 1]);
    }
    assert forall|i: int|
        0 <= i < name.len() && (#[trigger] name[i] == '/' || name[i] == '\\' || (name[i] == '.' && i + 1
            < name.len() && name[i + 1] == '.')) implies leads_away(name) by {
        if name[i] == '/' {
            assert(name.subrange(i, i + 1) =~= "/"@);
            assert(occurs_at(name, "/"@, i));
        } else if name[i] == '\\' {
            assert(name.subrange(i, i + 1) =~= "\\"@);
            assert(occurs_at(name, "\\"@, i));
        } else {
            assert(name.subrange(i, i + 2) =~= ".."@);
            assert(occurs_at(name, ".."@, i));
        }
    }
}

/// A skill is written to a file of its own, with its name, its description and all its text.
pub proof fn skills_are_written_whole(d: SkillDraft, name: Seq<char>, description: Seq<char>, content: Seq<char>)
    requires
        draft_of(d, name, description, content),
    ensures
        d.name@ == name,
        d.dir@ == "skills"@ + "/"@ + name,
        d.path@ == "skills"@ + "/"@ + name + "/"@ + "SKILL.md"@,
        !contains(description, ":"@) ==> d.content@ == "---\n"@ + "name: "@ + name + "\n"@ + ("description: "@
            + description) + "\n"@ + "---\n\n"@ + content,
        contains(description, ":"@) && !description.contains('"') ==> d.content@ == "---\n"@ + "name: "@ + name
            + "\n"@ + ("description: \""@ + description + "\""@) + "\n"@ + "---\n\n"@ + content,
        contains(description, ":"@) ==> d.content@ == "---\n"@ + "name: "@ + name + "\n"@ + ("description: \""@
            + replaced(description, '"', "\\\""@) + "\""@) + "\n"@ + "---\n\n"@ + content,
        skill_dir(name) == d.dir@ && skill_path(name) == d.path@ && skill_file(name, description, content) == d.content@,
{
    if !description.contains('"') {
        crate::text::lemma_not_replaced(description, '"', "\\\""@);
    }
}

/// No skill is written where an argument is missing, the first of them being told, nor under a name that
/// is empty or leads away; any other is written.
pub proof fn skills_are_written_where_they_can_be(args: JsonView)
    ensures
        ({
            let name = text_field(args, "name"@);
            let description = text_field(args, "description"@);
            let content = text_field(args, "content"@);
            let why = SkillCreateTool::objection(args);
            &&& name is None ==> why == Some("缺少 "@ + "name"@ + " 参数"@)
            &&& name is Some && description is None ==> why == Some("缺少 "@ + "description"@ + " 参数"@)
            &&& name is Some && description is Some && content is None ==> why == Some(
                "缺少 "@ + "content"@ + " 参数"@,
            )
            &&& name is Some && description is Some && content is Some && (name->0.len() == 0 || leads_away(
                name->0,
            )) ==> why == Some("name 非法（含路径分隔符或为空）"@)
            &&& name is Some && description is Some && content is Some && name->0.len() > 0 && !leads_away(name->0)
                ==> why is None
        }),
{
}

// ---------- jobs ----------

proof fn lemma_actions()
    ensures
        "add"@.len() == 3 && "list"@.len() == 4 && "pause"@.len() == 5 && "resume"@.len() == 6 && "delete"@.len() == 6,
        "resume"@ != "delete"@,
{
    reveal_strlit("add");
    reveal_strlit("list");
    reveal_strlit("pause");
    reveal_strlit("resume");
    reveal_strlit("delete");
    assert("resume"@[0] == 'r' && "delete"@[0] == 'd');
}

/// What the model asks of the jobs: each action with the arguments as they were given, and what is
/// missing by its name.
pub proof fn actions_are_read(args: JsonView, id: i64, action: Seq<char>)
    requires
        text_field(args, "action"@) == Some(action),
        args.sint_at("id"@) == Some(id),
    ensures
        action == "list"@ ==> action_of(args) == Ok::<ActionView, Seq<char>>(ActionView::List) && !reloads(args),
        action == "pause"@ ==> action_of(args) == Ok::<ActionView, Seq<char>>(ActionView::SetEnabled(id, false))
            && reloads(args),
        action == "resume"@ ==> action_of(args) == Ok::<ActionView, Seq<char>>(ActionView::SetEnabled(id, true))
            && reloads(args),
        action == "delete"@ ==> action_of(args) == Ok::<ActionView, Seq<char>>(ActionView::Delete(id)) && reloads(args),
        action == "add"@ ==> reloads(args),
        action != "list"@ && action != "pause"@ && action != "resume"@ && action != "delete"@ && action != "add"@
            ==> action_of(args) == Err::<ActionView, Seq<char>>("未知 action: "@ + action) && !reloads(args),
{
    lemma_actions();
}

/// An action on a job without its number, and arguments without an action, are told.
pub proof fn missing_numbers_are_told(args: JsonView)
    ensures
        text_field(args, "action"@) is None ==> action_of(args) == Err::<ActionView, Seq<char>>(
            "缺少 "@ + "action"@ + " 参数"@,
        ) && !reloads(args),
        (text_field(args, "action"@) == Some("pause"@) || text_field(args, "action"@) == Some("resume"@)
            || text_field(args, "action"@) == Some("delete"@)) && args.sint_at("id"@) is None ==> action_of(args)
            == Err::<ActionView, Seq<char>>("缺少 "@ + "id"@ + " 参数"@),
{
    lemma_actions();
}

/// A new job is what the arguments say, each as it was given; the first that is missing is told, and so
/// is an expression that cannot be used.
pub proof fn new_jobs_are_as_given(
    args: JsonView,
    name: Option<Seq<char>>,
    schedule: Option<Seq<char>>,
    chat: Option<i64>,
    prompt: Option<Seq<char>>,
)
    requires
        text_field(args, "action"@) == Some("add"@),
        name == text_field(args, "name"@),
        schedule == text_field(args, "schedule"@),
        chat == args.sint_at("chat_id"@),
        prompt == text_field(args, "prompt"@),
    ensures
        name is None ==> action_of(args) == Err::<ActionView, Seq<char>>("缺少 "@ + "name"@ + " 参数"@),
        name is Some && schedule is None ==> action_of(args) == Err::<ActionView, Seq<char>>(
            "缺少 "@ + "schedule"@ + " 参数"@,
        ),
        name is Some && schedule is Some && chat is None ==> action_of(args) == Err::<ActionView, Seq<char>>(
            "缺少 "@ + "chat_id"@ + " 参数"@,
        ),
        name is Some && schedule is Some && chat is Some && prompt is None ==> action_of(args) == Err::<
            ActionView,
            Seq<char>,
        >("缺少 "@ + "prompt"@ + " 参数"@),
        name is Some && schedule is Some && chat is Some && prompt is Some && cron_error(schedule->0) is None
            ==> action_of(args) == Ok::<ActionView, Seq<char>>(
            ActionView::Add { name: name->0, schedule: schedule->0, chat_id: chat->0, prompt: prompt->0 },
        ),
        name is Some && schedule is Some && chat is Some && prompt is Some && cron_error(schedule->0) is Some
            ==> action_of(args) == Err::<ActionView, Seq<char>>(
            "cron 表达式 '"@ + schedule->0 + "' 非法: "@ + cron_error(schedule->0)->0,
        ),
{
    lemma_actions();
}

/// What the model is told of one job.
pub open spec fn told_of(j: JobRecord) -> Seq<char> {
    let state = if j.enabled {
        "启用"@
    } else {
        "暂停"@
    };
    "["@ + int_text(j.id as int) + "] "@ + j.name@ + "（"@ + state + "）\n  schedule: "@ + j.schedule@
        + "\n  chat_id: "@ + int_text(j.chat_id as int) + "\n  prompt: "@ + j.prompt@ + "\n"@
}

/// The model is told of each job, in the order of the store.
pub proof fn the_model_is_told_of_each_job(jobs: Seq<JobRecord>, j: JobRecord)
    ensures
        list_text(Seq::empty()) == "当前没有任何定时任务。"@,
        list_text(seq![j]) == "定时任务列表：\n"@ + told_of(j),
        jobs.len() > 0 ==> list_text(jobs.push(j)) == list_text(jobs) + told_of(j),
{
    assert(jobs.push(j).drop_last() =~= jobs);
    assert(seq![j].drop_last() =~= Seq::empty());
    assert(job_entries(Seq::empty()) =~= Seq::empty());
    assert(job_entry(j) == told_of(j));
    let entry = told_of(j);
    assert(Seq::<char>::empty() + entry =~= entry);
    if jobs.len() > 0 {
        let head = "定时任务列表：\n"@;
        assert(head + job_entries(jobs) + entry =~= head + (job_entries(jobs) + entry));
    }
}

} // verus!
