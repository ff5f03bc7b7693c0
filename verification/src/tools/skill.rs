//! Tools that write and load skills. A skill is a file of instructions with a header that names
//! and describes it.
use vstd::prelude::*;
use crate::json::{Json, JsonView};
use crate::llm::body::ToolInfo;
use crate::config::{header_fields, skill_header, unquoted};
use crate::text::{
    contains, find, has_part, is_piece, is_white_space, lemma_end_run_is, lemma_find_from,
    lemma_not_replaced, lemma_one_piece, lemma_pieces_add, lemma_run_is, line_pieces, occurs_at,
    replace_char, replaced, starts_with, trimmed, CharClass,
};
use crate::tools::{
    arg, arg_schema, get_text, object, object_schema, result_view, str_views, text_arg,
};

verus! {

/// Where skills are kept.
pub const SKILLS_DIR: &'static str = "skills";

/// The file of a skill in its directory.
pub const SKILL_FILE: &'static str = "SKILL.md";

/// Whether a name would lead out of the directory of skills.
pub open spec fn leads_away(name: Seq<char>) -> bool {
    contains(name, "/"@) || contains(name, "\\"@) || contains(name, ".."@)
}

fn leads_out(name: &str) -> (r: bool)
    ensures
        r == leads_away(name@),
{
    has_part(name, "/") || has_part(name, "\\") || has_part(name, "..")
}

pub open spec fn skill_dir(name: Seq<char>) -> Seq<char> {
    SKILLS_DIR@ + "/"@ + name
}

pub open spec fn skill_path(name: Seq<char>) -> Seq<char> {
    skill_dir(name) + "/"@ + SKILL_FILE@
}

/// The line that describes a skill. A description with a colon is put in quotes.
pub open spec fn description_line(description: Seq<char>) -> Seq<char> {
    if contains(description, ":"@) {
        "description: \""@ + replaced(description, '"', "\\\""@) + "\""@
    } else {
        "description: "@ + description
    }
}

/// The file of a skill.
pub open spec fn skill_file(name: Seq<char>, description: Seq<char>, content: Seq<char>) -> Seq<char> {
    "---\n"@ + "name: "@ + name + "\n"@ + description_line(description) + "\n"@ + "---\n\n"@ + content
}

/// A skill to be written.
pub struct SkillDraft {
    pub name: String,
    pub dir: String,
    pub path: String,
    pub content: String,
}

pub open spec fn draft_of(d: SkillDraft, name: Seq<char>, description: Seq<char>, content: Seq<char>) -> bool {
    &&& d.name@ == name
    &&& d.dir@ == skill_dir(name)
    &&& d.path@ == skill_path(name)
    &&& d.content@ == skill_file(name, description, content)
}

pub struct SkillCreateTool;

/// What the model is told of the tool that writes skills.
pub const CREATE_DESCRIPTION: &'static str = "创建或更新一个技能（持久化的工作流/指令模板，存为 SKILL.md 文件）。适合把重复性任务（代码评审、周报生成、代码风格检查等）沉淀为可复用技能。技能创建后需重启程序才会在可用列表中显示，但可立即用 skill_use 运行。";

/// What is said of a name that cannot be used.
pub const BAD_NAME: &'static str = "name 非法（含路径分隔符或为空）";

impl SkillCreateTool {
    pub fn name(&self) -> (r: &'static str)
        ensures
            r@ == "skill_create"@,
    {
        "skill_create"
    }

    pub fn description(&self) -> (r: &'static str)
        ensures
            r@ == CREATE_DESCRIPTION@,
    {
        CREATE_DESCRIPTION
    }

    pub open spec fn schema() -> JsonView {
        object_schema(
            map![
                "name"@ => arg_schema("string"@, "技能标识（用作目录名，建议小写连字符，如 code-review）"@),
                "description"@ => arg_schema("string"@, "技能的一句话描述（agent 据此判断何时使用该技能）"@),
                "content"@ => arg_schema("string"@, "技能正文（Markdown），即具体的工作流/指令"@),
            ],
            seq!["name"@, "description"@, "content"@],
        )
    }

    pub fn parameters(&self) -> (r: Json)
        ensures
            r@ == SkillCreateTool::schema(),
    {
        let required = vec!["name", "description", "content"];
        assert(str_views(required@) =~= seq!["name"@, "description"@, "content"@]);
        object(
            Json::object().with(
                "name",
                arg("string", "技能标识（用作目录名，建议小写连字符，如 code-review）"),
            ).with(
                "description",
                arg("string", "技能的一句话描述（agent 据此判断何时使用该技能）"),
            ).with("content", arg("string", "技能正文（Markdown），即具体的工作流/指令")),
            &required,
        )
    }

    pub fn info(&self) -> (r: ToolInfo)
        ensures
            r.name@ == "skill_create"@,
            r.description@ == CREATE_DESCRIPTION@,
            r.parameters@ == SkillCreateTool::schema(),
    {
        ToolInfo {
            name: self.name().to_owned(),
            description: self.description().to_owned(),
            parameters: self.parameters(),
        }
    }

    /// Why no skill is written for these arguments, where none is. What is missing is told in the
    /// order of the arguments.
    pub open spec fn objection(args: JsonView) -> Option<Seq<char>> {
        match (
            text_arg(args, "name"@),
            text_arg(args, "description"@),
            text_arg(args, "content"@),
        ) {
            (Err(e), _, _) => Some(e),
            (Ok(_), Err(e), _) => Some(e),
            (Ok(_), Ok(_), Err(e)) => Some(e),
            (Ok(name), Ok(_), Ok(_)) => if name.len() == 0 || leads_away(name) {
                Some(BAD_NAME@)
            } else {
                None
            },
        }
    }

    /// The skill to be written, or why none is.
    pub fn plan(&self, args: &Json) -> (r: Result<SkillDraft, String>)
        ensures
            match r {
                Ok(d) => SkillCreateTool::objection(args@) is None && draft_of(
                    d,
                    args@.text_at("name"@)->0,
                    args@.text_at("description"@)->0,
                    args@.text_at("content"@)->0,
                ),
                Err(e) => SkillCreateTool::objection(args@) == Some(e@),
            },
    {
        let name = match get_text(args, "name") {
            Ok(t) => t,
            Err(e) => return Err(e),
        };
        let description = match get_text(args, "description") {
            Ok(t) => t,
            Err(e) => return Err(e),
        };
        let content = match get_text(args, "content") {
            Ok(t) => t,
            Err(e) => return Err(e),
        };
        if name.as_str().is_empty() || leads_out(name.as_str()) {
            return Err(BAD_NAME.to_owned());
        }
        let mut dir = SKILLS_DIR.to_owned();
        dir.append("/");
        dir.append(name.as_str());
        let mut path = dir.clone();
        path.append("/");
        path.append(SKILL_FILE);
        let mut line = "description: ".to_owned();
        if has_part(description.as_str(), ":") {
            line = "description: \"".to_owned();
            line.append(replace_char(description.as_str(), '"', "\\\"").as_str());
            line.append("\"");
        } else {
            line.append(description.as_str());
        }
        assert(line@ == description_line(description@));
        let mut file = "---\n".to_owned();
        file.append("name: ");
        file.append(name.as_str());
        file.append("\n");
        file.append(line.as_str());
        file.append("\n");
        file.append("---\n\n");
        file.append(content.as_str());
        Ok(SkillDraft { name, dir, path, content: file })
    }

    /// What is given back once the skill is written.
    pub fn run(&self, draft: &SkillDraft) -> (r: String)
        ensures
            r@ == "已创建技能 '"@ + draft.name@ + "'，写入 "@ + draft.path@
                + "。\n可立即用 skill_use(\""@ + draft.name@
                + "\") 运行；下次启动后该技能会出现在可用列表中。"@,
    {
        let mut t = "已创建技能 '".to_owned();
        t.append(draft.name.as_str());
        t.append("'，写入 ");
        t.append(draft.path.as_str());
        t.append("。\n可立即用 skill_use(\"");
        t.append(draft.name.as_str());
        t.append("\") 运行；下次启动后该技能会出现在可用列表中。");
        t
    }

    /// What is said where the directory could not be made.
    pub fn dir_error(&self, draft: &SkillDraft, e: &str) -> (r: String)
        ensures
            r@ == "创建目录 "@ + draft.dir@ + " 失败: "@ + e@,
    {
        let mut t = "创建目录 ".to_owned();
        t.append(draft.dir.as_str());
        t.append(" 失败: ");
        t.append(e);
        t
    }

    /// What is said where the file could not be written.
    pub fn write_error(&self, draft: &SkillDraft, e: &str) -> (r: String)
        ensures
            r@ == "写入 "@ + draft.path@ + " 失败: "@ + e@,
    {
        let mut t = "写入 ".to_owned();
        t.append(draft.path.as_str());
        t.append(" 失败: ");
        t.append(e);
        t
    }
}

pub struct SkillUseTool;

/// What the model is told of the tool that loads skills.
pub const USE_DESCRIPTION: &'static str = "运行一个技能：加载其 SKILL.md 内容作为本次任务的指令上下文，然后你按这些指令完成用户请求。技能可定义工作流、检查清单、输出格式等。";

impl SkillUseTool {
    pub fn name(&self) -> (r: &'static str)
        ensures
            r@ == "skill_use"@,
    {
        "skill_use"
    }

    pub fn description(&self) -> (r: &'static str)
        ensures
            r@ == USE_DESCRIPTION@,
    {
        USE_DESCRIPTION
    }

    pub open spec fn schema() -> JsonView {
        object_schema(
            map!["name"@ => arg_schema("string"@, "要运行的技能名（与 skill_create 的 name 一致）"@)],
            seq!["name"@],
        )
    }

    pub fn parameters(&self) -> (r: Json)
        ensures
            r@ == SkillUseTool::schema(),
    {
        let required = vec!["name"];
        assert(str_views(required@) =~= seq!["name"@]);
        object(
            Json::object().with("name", arg("string", "要运行的技能名（与 skill_create 的 name 一致）")),
            &required,
        )
    }

    pub fn info(&self) -> (r: ToolInfo)
        ensures
            r.name@ == "skill_use"@,
            r.description@ == USE_DESCRIPTION@,
            r.parameters@ == SkillUseTool::schema(),
    {
        ToolInfo {
            name: self.name().to_owned(),
            description: self.description().to_owned(),
            parameters: self.parameters(),
        }
    }

    /// The name of the skill to load and the file it is in, or why none is.
    pub fn plan(&self, args: &Json) -> (r: Result<(String, String), String>)
        ensures
            match r {
                Ok(p) => text_arg(args@, "name"@) == Ok::<Seq<char>, Seq<char>>(p.0@)
                    && !leads_away(p.0@) && p.1@ == skill_path(p.0@),
                Err(e) => match text_arg(args@, "name"@) {
                    Ok(name) => leads_away(name) && e@ == "name 非法"@,
                    Err(why) => e@ == why,
                },
            },
    {
        let name = match get_text(args, "name") {
            Ok(t) => t,
            Err(e) => return Err(e),
        };
        if leads_out(name.as_str()) {
            return Err("name 非法".to_owned());
        }
        let mut path = SKILLS_DIR.to_owned();
        path.append("/");
        path.append(name.as_str());
        path.append("/");
        path.append(SKILL_FILE);
        Ok((name, path))
    }

    /// What is given back of the file that was read, or could not be.
    pub fn run(&self, name: &str, path: &str, read: Result<String, String>) -> (r: Result<
        String,
        String,
    >)
        ensures
            result_view(r) == match read {
                Ok(t) => Ok("（已加载技能 "@ + name@ + " 的指令，请据此执行）\n\n"@ + t@),
                Err(e) => Err("读取技能 '"@ + name@ + "' 失败（"@ + path@ + "）: "@ + e@),
            },
    {
        match read {
            Ok(t) => {
                let mut r = "（已加载技能 ".to_owned();
                r.append(name);
                r.append(" 的指令，请据此执行）\n\n");
                r.append(t.as_str());
                Ok(r)
            },
            Err(e) => {
                let mut r = "读取技能 '".to_owned();
                r.append(name);
                r.append("' 失败（");
                r.append(path);
                r.append("）: ");
                r.append(e.as_str());
                Err(r)
            },
        }
    }
}

// ---------- laws ----------

/// A text whose first and last characters are neither white space nor quotes.
pub open spec fn is_bare(s: Seq<char>) -> bool {
    s.len() > 0 ==> !is_white_space(s[0]) && s[0] != '"' && !is_white_space(s.last()) && s.last()
        != '"'
}

pub open spec fn all_blank(s: Seq<char>) -> bool {
    forall|i: int| 0 <= i < s.len() ==> is_white_space(#[trigger] s[i])
}

/// Trimming takes away the white space around a text and nothing of it.
pub proof fn lemma_trim_around(a: Seq<char>, s: Seq<char>, b: Seq<char>)
    requires
        all_blank(a),
        all_blank(b),
        s.len() > 0 ==> !is_white_space(s[0]) && !is_white_space(s.last()),
    ensures
        trimmed(a + s + b) == s,
{
    let t = a + s + b;
    let k = CharClass::Blank;
    if s.len() > 0 {
        assert forall|i: int| 0 <= i < a.len() implies k.has(#[trigger] t[i]) == true by {
            assert(t[i] == a[i]);
        }
        assert(t[a.len() as int] == s[0]);
        lemma_run_is(t, k, true, a.len());
        let rest = t.skip(a.len() as int);
        assert(rest =~= s + b);
        assert forall|j: int| rest.len() - b.len() <= j < rest.len() implies k.has(#[trigger] rest[j]) by {
            assert(rest[j] == b[j - s.len()]);
        }
        assert(rest[rest.len() - b.len() - 1] == s.last());
        lemma_end_run_is(rest, k, b.len());
        assert(rest.take(rest.len() - b.len()) =~= s);
    } else {
        assert forall|i: int| 0 <= i < t.len() implies k.has(#[trigger] t[i]) == true by {
            if i < a.len() {
                assert(t[i] == a[i]);
            } else {
                assert(t[i] == b[i - a.len()]);
            }
        }
        lemma_run_is(t, k, true, t.len());
        assert(t.skip(t.len() as int) =~= Seq::empty());
        assert(trimmed(t) =~= s);
    }
}

/// Quotes around a bare text are taken away, whether there are any or not.
proof fn lemma_unquote(s: Seq<char>)
    requires
        is_bare(s),
    ensures
        unquoted(" "@ + s) == s,
        unquoted(s) == s,
        s.len() > 0 ==> unquoted(" \""@ + s + "\""@) == s,
{
    reveal_strlit(" ");
    reveal_strlit(" \"");
    reveal_strlit("\"");
    let q = CharClass::Just('"');
    lemma_trim_around(" "@, s, Seq::empty());
    assert(" "@ + s + Seq::<char>::empty() =~= " "@ + s);
    lemma_trim_around(Seq::empty(), s, Seq::empty());
    assert(Seq::<char>::empty() + s + Seq::<char>::empty() =~= s);
    lemma_run_is(s, q, true, 0);
    assert(s.skip(0) =~= s);
    lemma_end_run_is(s, q, 0);
    assert(s.take(s.len() as int) =~= s);
    if s.len() > 0 {
        let t = "\""@ + s + "\""@;
        lemma_trim_around(" "@, t, Seq::empty());
        assert(" "@ + t + Seq::<char>::empty() =~= " \""@ + s + "\""@);
        assert(t[0] == '"' && t[1] == s[0]);
        lemma_run_is(t, q, true, 1);
        let rest = t.skip(1);
        assert(rest =~= s + "\""@);
        assert(rest[rest.len() - 2] == s.last());
        lemma_end_run_is(rest, q, 1);
        assert(rest.take(rest.len() - 1) =~= s);
    }
}

/// A header line `key` and a bare value, with white space behind it, reads as that value.
proof fn lemma_header_line(key: Seq<char>, value: Seq<char>, end: Seq<char>)
    requires
        is_bare(value),
        all_blank(end),
        key.len() > 0,
        !is_white_space(key[0]),
        !is_white_space(key.last()),
    ensures
        ({
            let line = trimmed(key + " "@ + value + end);
            &&& starts_with(line, key)
            &&& unquoted(line.skip(key.len() as int)) == value
        }),
{
    reveal_strlit(" ");
    lemma_unquote(value);
    let whole = key + " "@ + value + end;
    if value.len() > 0 {
        let line = key + " "@ + value;
        assert(Seq::<char>::empty() + line + end =~= whole);
        assert(line.last() == value.last());
        lemma_trim_around(Seq::empty(), line, end);
        assert(line.take(key.len() as int) =~= key);
        assert(line.skip(key.len() as int) =~= " "@ + value);
    } else {
        assert(Seq::<char>::empty() + key + (" "@ + end) =~= whole);
        assert(all_blank(" "@ + end));
        lemma_trim_around(Seq::empty(), key, " "@ + end);
        assert(key.take(key.len() as int) =~= key);
        assert(key.skip(key.len() as int) =~= value);
    }
}

/// What a skill is called and how it is described is read back from the file that was written for
/// it. Name and description are one line each, with neither white space nor quotes at their ends,
/// and a description with a colon has no quotes in it.
#[verifier::spinoff_prover]
#[verifier::rlimit(60)]
pub proof fn written_skills_read_back(name: Seq<char>, description: Seq<char>, content: Seq<char>)
    requires
        is_bare(name),
        is_bare(description),
        !name.contains('\n'),
        !description.contains('\n'),
        contains(description, ":"@) ==> !description.contains('"'),
    ensures
        skill_header(skill_file(name, description, content)) == Some((name, description)),
{
    reveal_strlit("---");
    reveal_strlit("---\n");
    reveal_strlit("---\n\n");
    reveal_strlit("\n---");
    reveal_strlit("\n");
    reveal_strlit(" ");
    reveal_strlit("");
    reveal_strlit("name:");
    reveal_strlit("name: ");
    reveal_strlit("description:");
    reveal_strlit("description: ");
    reveal_strlit("description: \"");
    reveal_strlit("\"");
    reveal_strlit(":");
    reveal_strlit(" \"");
    let file = skill_file(name, description, content);
    let quoted = contains(description, ":"@);
    let line = description_line(description);
    if quoted {
        lemma_not_replaced(description, '"', "\\\""@);
        assert(line =~= "description: \""@ + description + "\""@);
        let at = choose|i: int| #[trigger] occurs_at(description, ":"@, i);
        assert(description.len() > 0);
    }
    assert(line.len() > 0 && line[0] == 'd');
    assert forall|i: int| 0 <= i < line.len() implies #[trigger] line[i] != '\n' by {
        let lead = if quoted {
            "description: \""@
        } else {
            "description: "@
        };
        if lead.len() <= i < lead.len() + description.len() {
            assert(line[i] == description[i - lead.len()]);
        }
    }
    // the dashes at the start
    assert(file[0] == '-');
    lemma_run_is(file, CharClass::Blank, true, 0);
    assert(file.skip(0) =~= file);
    assert(file.take(3) =~= "---"@);
    let rest = file.skip(3);
    // the header
    let p1 = "\n"@;
    let p2 = "name:"@ + " "@ + name + "\n"@;
    let part = p1 + p2 + line;
    let tail = "\n"@ + "---\n\n"@ + content;
    assert(rest =~= part + tail) by {
        assert("---\n"@ =~= "---"@ + "\n"@);
        assert("name: "@ =~= "name:"@ + " "@);
        assert(file =~= "---"@ + (part + tail));
    }
    let end = part.len() as int;
    assert(rest.subrange(end, end + 4) =~= "\n---"@);
    assert(occurs_at(rest, "\n---"@, end));
    lemma_find_from(rest, "\n---"@, 0);
    let k = find(rest, "\n---"@)->0;
    if k < end {
        assert(rest.subrange(k, k + 4)[0] == rest[k]);
        assert(rest.subrange(k, k + 4)[1] == rest[k + 1]);
        assert(rest[k] == part[k]);
        let n = p2.len();
        if k == 0 {
            assert(rest[1] == p2[0]);
        } else if k < n {
            assert(part[k] == p2[k - 1]);
            if k - 1 >= 6 {
                assert(p2[k - 1] == name[k - 7]);
            }
        } else if k == n {
            assert(rest[k + 1] == line[0]);
        } else {
            assert(part[k] == line[k - 1 - n]);
        }
        assert(false);
    }
    assert(rest.take(end) =~= part);
    // its lines
    assert(is_piece(p1));
    assert(is_piece(p2)) by {
        assert forall|j: int| 0 <= j < p2.len() - 1 implies #[trigger] p2[j] != '\n' by {
            if j >= 6 {
                assert(p2[j] == name[j - 6]);
            }
        }
    }
    assert(is_piece(line));
    lemma_one_piece(p1);
    lemma_one_piece(p2);
    lemma_one_piece(line);
    assert((p1 + p2).last() == '\n');
    lemma_pieces_add(p1 + p2, line);
    lemma_pieces_add(p1, p2);
    let lines = line_pieces(part);
    assert(lines =~= seq![p1, p2, line]);
    assert(lines.drop_last() =~= seq![p1, p2]);
    assert(lines.drop_last().drop_last() =~= seq![p1]);
    assert(lines.drop_last().drop_last().drop_last() =~= Seq::empty());
    // what they say
    lemma_trim_around(p1, Seq::empty(), Seq::empty());
    assert(p1 + Seq::<char>::empty() + Seq::<char>::empty() =~= p1);
    lemma_header_line("name:"@, name, "\n"@);
    assert(header_fields(seq![p1]) == (""@, ""@)) by {
        assert(header_fields(Seq::empty()) == (""@, ""@));
    }
    assert(header_fields(seq![p1, p2]) == (name, ""@));
    if quoted {
        lemma_unquote(description);
        lemma_trim_around(Seq::empty(), line, Seq::empty());
        assert(Seq::<char>::empty() + line + Seq::<char>::empty() =~= line);
        assert(line.take(12) =~= "description:"@);
        assert(line.skip(12) =~= " \""@ + description + "\""@);
    } else {
        lemma_header_line("description:"@, description, Seq::empty());
        assert("description:"@ + " "@ + description + Seq::<char>::empty() =~= line);
    }
    let t = trimmed(line);
    assert(t.take(12)[0] == t[0]);
    if starts_with(t, "name:"@) {
        assert(t.take(5)[0] == t[0]);
    }
}

/// A name that is let through stays below the directory of skills: it holds no path separator and
/// does not name the directory above.
pub proof fn skills_stay_in_their_directory(name: Seq<char>)
    requires
        !leads_away(name),
    ensures
        forall|i: int| 0 <= i < name.len() ==> #[trigger] name[i] != '/' && name[i] != '\\',
        name != ".."@,
{
    reveal_strlit("/");
    reveal_strlit("\\");
    reveal_strlit("..");
    assert forall|i: int| 0 <= i < name.len() implies #[trigger] name[i] != '/' && name[i] != '\\' by {
        if name[i] == '/' {
            assert(name.subrange(i, i + 1) =~= "/"@);
            assert(occurs_at(name, "/"@, i));
        }
        if name[i] == '\\' {
            assert(name.subrange(i, i + 1) =~= "\\"@);
            assert(occurs_at(name, "\\"@, i));
        }
    }
    if name == ".."@ {
        assert(name.subrange(0, 2) =~= ".."@);
        assert(occurs_at(name, ".."@, 0));
    }
}

} // verus!
