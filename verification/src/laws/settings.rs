//! Laws of the configuration and of the headers of skills.
use vstd::prelude::*;
use crate::config::{
    denied_by_default, filled, header_fields, header_part, persona_failure, skill_entries, skill_entry,
    skill_header, skill_lines, skills_summary, unquoted, Config, ShellSection,
};
use crate::laws::texts::{ends_are_taken_off, prefixes_come_off, trimming_keeps_the_core};
use crate::text::{
    find, is_white_space, lemma_find_from, line_pieces, occurs_at, starts_with, trim_start_by, trimmed, views, CharClass,
};

verus! {

/// The commands that are refused: those of the configuration, or the usual ones where it names none.
pub proof fn refused_commands_are_named(shell: ShellSection)
    ensures
        shell.deny@.len() > 0 ==> shell.denied() == views(shell.deny@),
        shell.deny@.len() == 0 ==> shell.denied() == seq![
            "rm -rf"@, "sudo "@, " >/"@, " >>/"@, "mkfs"@, "dd if="@, ":(){"@, "chmod 777"@, "reboot"@, "shutdown"@,
            "halt"@, ":(){:|:&};:"@,
        ],
{
    assert(denied_by_default() =~= seq![
        "rm -rf"@, "sudo "@, " >/"@, " >>/"@, "mkfs"@, "dd if="@, ":(){"@, "chmod 777"@, "reboot"@, "shutdown"@,
        "halt"@, ":(){:|:&};:"@,
    ]);
}

/// The key of the configuration comes first, without white space around it; then that of the
/// environment under its own name, then that under the general name.
pub proof fn keys_are_found(c: Config, openai: Seq<char>, other: Option<Seq<char>>)
    ensures
        trimmed(c.llm.api_key@).len() > 0 ==> c.key(Some(openai), other) == Some(trimmed(c.llm.api_key@)),
        trimmed(c.llm.api_key@).len() > 0 ==> c.key(None, other) == Some(trimmed(c.llm.api_key@)),
        trimmed(c.llm.api_key@).len() == 0 ==> c.key(Some(openai), other) == Some(openai),
        trimmed(c.llm.api_key@).len() == 0 ==> c.key(None, other) == other,
{
}

/// An empty setting counts as none, any other as it is; what cannot be read is told by its path and
/// all the words of the failure.
pub proof fn settings_count_where_filled(t: Seq<char>, path: Seq<char>, e: Seq<char>)
    ensures
        t.len() > 0 ==> filled(Some(t)) == Some(t),
        t.len() == 0 ==> filled(Some(t)) is None,
        filled(None) is None,
        persona_failure(path, e) == "读取人设文件 "@ + path + " 失败: "@ + e
            + "\n请在项目根目录创建 AGENTS.md 描述助手人设。"@,
{
}

/// Whether a text is made of one character alone.
pub open spec fn only(s: Seq<char>, c: char) -> bool {
    forall|i: int| 0 <= i < s.len() ==> #[trigger] s[i] == c
}

/// White space and then quotes are taken off a value; what stands within is kept.
pub proof fn values_are_unquoted(
    before: Seq<char>,
    open: Seq<char>,
    core: Seq<char>,
    close: Seq<char>,
    after: Seq<char>,
)
    requires
        forall|i: int| 0 <= i < before.len() ==> is_white_space(#[trigger] before[i]),
        forall|i: int| 0 <= i < after.len() ==> is_white_space(#[trigger] after[i]),
        only(open, '"') && only(close, '"'),
        core.len() > 0 && core[0] != '"' && core.last() != '"',
        open.len() == 0 ==> !is_white_space(core[0]),
        close.len() == 0 ==> !is_white_space(core.last()),
    ensures
        unquoted(before + (open + core + close) + after) == core,
{
    let all = open + core + close;
    assert(!is_white_space(all[0])) by {
        if open.len() > 0 {
            assert(all[0] == open[0]);
        } else {
            assert(all[0] == core[0]);
        }
    }
    assert(!is_white_space(all.last())) by {
        if close.len() > 0 {
            assert(all.last() == close[close.len() - 1]);
        } else {
            assert(all.last() == core.last());
        }
    }
    trimming_keeps_the_core(before, all, after);
    let k = CharClass::Just('"');
    assert forall|i: int| 0 <= i < open.len() implies k.has(#[trigger] open[i]) by {}
    assert forall|i: int| 0 <= i < close.len() implies k.has(#[trigger] close[i]) by {}
    assert(all =~= open + (core + close));
    assert((core + close)[0] == core[0]);
    ends_are_taken_off(core + close, open, k);
    ends_are_taken_off(core, close, k);
}

/// The lines of a header: the last line that gives a name gives it, and so with the description; other
/// lines give nothing.
pub proof fn header_lines_are_read(
    lines: Seq<Seq<char>>,
    before: Seq<char>,
    value: Seq<char>,
    after: Seq<char>,
    other: Seq<char>,
)
    requires
        forall|i: int| 0 <= i < before.len() ==> is_white_space(#[trigger] before[i]),
        forall|i: int| 0 <= i < after.len() ==> is_white_space(#[trigger] after[i]),
        value.len() > 0 && !is_white_space(value.last()),
        !starts_with(trimmed(other), "name:"@) && !starts_with(trimmed(other), "description:"@),
    ensures
        header_fields(Seq::empty()).0.len() == 0 && header_fields(Seq::empty()).1.len() == 0,
        header_fields(lines.push(before + ("name:"@ + value) + after)) == (unquoted(value), header_fields(lines).1),
        header_fields(lines.push(before + ("description:"@ + value) + after)) == (
            header_fields(lines).0,
            unquoted(value),
        ),
        header_fields(lines.push(other)) == header_fields(lines),
{
    reveal_strlit("");
    reveal_strlit("name:");
    reveal_strlit("description:");
    let n = "name:"@ + value;
    let d = "description:"@ + value;
    assert(n.last() == value.last() && d.last() == value.last());
    trimming_keeps_the_core(before, n, after);
    trimming_keeps_the_core(before, d, after);
    prefixes_come_off("name:"@, value);
    prefixes_come_off("description:"@, value);
    assert(!starts_with(d, "name:"@)) by {
        if starts_with(d, "name:"@) {
            assert(d.take(5)[0] == 'n');
            assert(d[0] == 'd');
        }
    }
    assert(lines.push(before + n + after).drop_last() =~= lines);
    assert(lines.push(before + d + after).drop_last() =~= lines);
    assert(lines.push(other).drop_last() =~= lines);
}

/// The header of a skill stands between its two marks; without the first mark at the start of the text,
/// or without a second, there is none.
#[verifier::spinoff_prover]
#[verifier::rlimit(50)]
pub proof fn headers_stand_between_marks(blank: Seq<char>, part: Seq<char>, rest: Seq<char>, other: Seq<char>)
    requires
        forall|i: int| 0 <= i < blank.len() ==> is_white_space(#[trigger] blank[i]),
        forall|j: int| 0 <= j && j + 4 <= part.len() ==> #[trigger] part.subrange(j, j + 4) != "\n---"@,
        other.len() > 0 && other[0] != '-' && !is_white_space(other[0]),
    ensures
        header_part(blank + ("---"@ + (part + "\n---"@ + rest))) == Some(part),
        skill_header(blank + ("---"@ + (part + "\n---"@ + rest))) == Some(header_fields(line_pieces(part))),
        header_part(blank + ("---"@ + part)) is None,
        header_part(blank + other) is None,
        skill_header(blank + other) is None,
{
    reveal_strlit("---");
    let k = CharClass::Blank;
    assert forall|i: int| 0 <= i < blank.len() implies k.has(#[trigger] blank[i]) by {}
    let s = part + "\n---"@ + rest;
    lemma_second_mark(part, rest);
    assert(trim_start_by(blank + ("---"@ + s), k) == "---"@ + s) by {
        ends_are_taken_off("---"@ + s, blank, k);
    }
    assert(trim_start_by(blank + ("---"@ + part), k) == "---"@ + part) by {
        ends_are_taken_off("---"@ + part, blank, k);
    }
    assert(trim_start_by(blank + other, k) == other) by {
        ends_are_taken_off(other, blank, k);
    }
    prefixes_come_off("---"@, s);
    prefixes_come_off("---"@, part);
    if starts_with(other, "---"@) {
        assert(other.take(3)[0] == other[0]);
    }
}

#[verifier::spinoff_prover]
#[verifier::rlimit(50)]
proof fn lemma_second_mark(part: Seq<char>, rest: Seq<char>)
    requires
        forall|j: int| 0 <= j && j + 4 <= part.len() ==> #[trigger] part.subrange(j, j + 4) != "\n---"@,
    ensures
        find(part + "\n---"@ + rest, "\n---"@) == Some(part.len() as int),
        (part + "\n---"@ + rest).take(part.len() as int) == part,
        find(part, "\n---"@) is None,
{
    reveal_strlit("\n---");
    let s = part + "\n---"@ + rest;
    let p = "\n---"@;
    let n = part.len() as int;
    lemma_find_from(s, p, 0);
    lemma_find_from(part, p, 0);
    assert(s.subrange(n, n + 4) =~= p);
    assert(occurs_at(s, p, n));
    assert forall|j: int| 0 <= j < n implies !#[trigger] occurs_at(s, p, j) by {
        if occurs_at(s, p, j) {
            if j + 4 <= n {
                assert(s.subrange(j, j + 4) =~= part.subrange(j, j + 4));
            } else {
                assert(s[n] == '\n');
                assert(s.subrange(j, j + 4)[n - j] == s[n]);
            }
        }
    }
    assert forall|j: int| 0 <= j implies !#[trigger] occurs_at(part, p, j) by {
        if occurs_at(part, p, j) {
            assert(part.subrange(j, j + 4) == p);
        }
    }
    assert(s.take(n) =~= part);
}

/// A skill goes by the name in its header, or by its directory where the header has none; a file
/// without a header is no skill.
pub proof fn skills_go_by_their_name(directory: Seq<char>, content: Seq<char>, name: Seq<char>, description: Seq<char>)
    ensures
        skill_header(content) == Some((name, description)) && name.len() > 0 ==> skill_entry(directory, content)
            == Some((name, description)),
        skill_header(content) == Some((name, description)) && name.len() == 0 ==> skill_entry(directory, content)
            == Some((directory, description)),
        skill_header(content) is None ==> skill_entry(directory, content) is None,
{
}

/// Every skill is listed, in the order of the files, with its name and its description; without skills
/// there is no list.
pub proof fn all_skills_are_listed(
    files: Seq<(String, String)>,
    file: (String, String),
    entries: Seq<(Seq<char>, Seq<char>)>,
    name: Seq<char>,
    description: Seq<char>,
)
    ensures
        skill_entries(Seq::empty()).len() == 0,
        skill_entry(file.0@, file.1@) == Some((name, description)) ==> skill_entries(files.push(file))
            == skill_entries(files).push((name, description)),
        skill_entry(file.0@, file.1@) is None ==> skill_entries(files.push(file)) == skill_entries(files),
        skill_lines(Seq::empty()).len() == 0,
        skill_lines(entries.push((name, description))) == skill_lines(entries) + "- "@ + name + ": "@ + description
            + "\n"@,
        skills_summary(Seq::empty()).len() == 0,
        entries.len() > 0 ==> skills_summary(entries) == "\n\n## 可用技能\n"@ + skill_lines(entries)
            + "用 skill_use(\"技能名\") 运行技能；用 skill_create 创建新技能。"@,
{
    reveal_strlit("");
    assert(files.push(file).drop_last() =~= files);
    assert(entries.push((name, description)).drop_last() =~= entries);
}

} // verus!
