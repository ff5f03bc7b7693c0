//! Laws of timed jobs: what a job sends, when it runs, and what the `/cron` command asks for.
use vstd::prelude::*;
use crate::agent::silent;
use crate::agent::turn::EventView;
use crate::bot::send_body;
use crate::cron::commands::{
    add_chat, add_command, add_schedule, added_text, deleted_text, handled, job_entries, job_entry, list_text, lookup_text, switched_text,
    CommandView, HELP,
};
use crate::cron::{
    bad_schedule, cron_error, first_answer, job_text, kept_back, ran_out, switched_on, wait_nanos, JobRecord,
};
use crate::json::{JsonView, NumberView};
use crate::laws::streams::{field, text_field};
use crate::laws::texts::{ends_are_taken_off, prefixes_come_off, texts_are_cut_at_the_first, trimming_keeps_the_core};
use crate::text::{
    after_prefix, ends_with, first_chars, i64_of, int_text, is_digit, is_white_space, lemma_nat_text,
    number_text_reads_back, split_at_first, starts_with, trim_start_by, trimmed, CharClass,
};

verus! {

proof fn lemma_no_answer_before(events: Seq<EventView>, i: int, k: int)
    requires
        0 <= i <= k <= events.len(),
        forall|j: int| i <= j < k ==> !(#[trigger] events[j] is Final),
    ensures
        first_answer(events, i) == first_answer(events, k),
    decreases k - i,
{
    if i < k {
        assert(!(events[i] is Final));
        lemma_no_answer_before(events, i + 1, k);
    }
}

proof fn lemma_runs_out_at(events: Seq<EventView>, i: int, k: int)
    requires
        0 <= i <= k <= events.len(),
        forall|j: int| i <= j < events.len() ==> !(#[trigger] events[j] is Final),
        k < events.len() ==> events[k] is ContinuePrompt,
        k == events.len() ==> forall|j: int| i <= j < k ==> !(#[trigger] events[j] is ContinuePrompt),
    ensures
        ran_out(events, i) == (k < events.len()),
    decreases k - i,
{
    if i < k {
        assert(!(events[i] is Final));
        lemma_runs_out_at(events, i + 1, k);
    } else if k < events.len() {
        assert(!(events[k] is Final));
    }
}

/// Whether a body sends just the start of a text to a chat: all of it, or its first 4000 characters
/// where it is longer.
pub open spec fn sends_start(body: JsonView, chat: i64, text: Seq<char>) -> bool {
    &&& field(body, "chat_id"@) is Some
    &&& field(body, "chat_id"@)->0 == JsonView::Number(NumberView::of(chat))
    &&& text.len() <= 4000 ==> text_field(body, "text"@) == Some(text)
    &&& text.len() > 4000 ==> text_field(body, "text"@) == Some(text.take(4000))
    &&& field(body, "parse_mode"@) is None
}

proof fn lemma_sends_start(chat: i64, text: Seq<char>)
    ensures
        sends_start(send_body(chat, first_chars(text, 4000), false), chat, text),
{
    reveal_strlit("chat_id");
    reveal_strlit("text");
    reveal_strlit("parse_mode");
    assert("chat_id"@.len() == 7 && "text"@.len() == 4 && "parse_mode"@.len() == 10);
    if text.len() <= 4000 {
        assert(first_chars(text, 4000) =~= text);
    } else {
        assert(first_chars(text, 4000) =~= text.take(4000));
    }
}

/// The first answer of a run is what the job sends, whatever stands before it; an empty one and one
/// that is marked as not meant for the user are not sent.
pub proof fn jobs_send_the_first_answer(chat: i64, events: Seq<EventView>, k: int, t: Seq<char>)
    requires
        0 <= k < events.len(),
        events[k] == EventView::Final(t),
        forall|j: int| 0 <= j < k ==> !(#[trigger] events[j] is Final),
    ensures
        job_text(events) == t,
        kept_back(events) == (t.len() == 0 || silent(t)),
        sends_start(send_body(chat, first_chars(job_text(events), 4000), false), chat, t),
{
    lemma_no_answer_before(events, 0, k);
    lemma_sends_start(chat, t);
}

/// A run without an answer that came to its limit, wherever it says so, is told as such.
pub proof fn jobs_tell_of_the_limit(chat: i64, events: Seq<EventView>, k: int)
    requires
        0 <= k < events.len(),
        events[k] is ContinuePrompt,
        forall|j: int| 0 <= j < events.len() ==> !(#[trigger] events[j] is Final),
    ensures
        !kept_back(events),
        job_text(events) == "（已达最大轮次上限，定时任务无人值守，自动停止）"@,
        sends_start(
            send_body(chat, first_chars(job_text(events), 4000), false),
            chat,
            "（已达最大轮次上限，定时任务无人值守，自动停止）"@,
        ),
{
    lemma_no_answer_before(events, 0, events.len() as int);
    lemma_runs_out_at(events, 0, k);
    lemma_sends_start(chat, job_text(events));
}

/// A run with neither an answer nor a limit is told as such.
pub proof fn jobs_tell_of_no_answer(chat: i64, events: Seq<EventView>)
    requires
        forall|j: int| 0 <= j < events.len() ==> !(#[trigger] events[j] is Final),
        forall|j: int| 0 <= j < events.len() ==> !(#[trigger] events[j] is ContinuePrompt),
    ensures
        !kept_back(events),
        job_text(events) == "（无输出）"@,
        sends_start(send_body(chat, first_chars(job_text(events), 4000), false), chat, "（无输出）"@),
{
    lemma_no_answer_before(events, 0, events.len() as int);
    lemma_runs_out_at(events, 0, events.len() as int);
    lemma_sends_start(chat, job_text(events));
}

/// A text is marked as not meant for the user where the mark stands at its start or its end, white
/// space apart.
pub proof fn silence_is_marked(before: Seq<char>, core: Seq<char>, after: Seq<char>)
    requires
        forall|i: int| 0 <= i < before.len() ==> is_white_space(#[trigger] before[i]),
        forall|i: int| 0 <= i < after.len() ==> is_white_space(#[trigger] after[i]),
        core.len() > 0 ==> !is_white_space(core[0]) && !is_white_space(core.last()),
    ensures
        silent(before + core + after) <==> (exists|rest: Seq<char>|
            #![trigger "[SILENT]"@ + rest]
            #![trigger rest + "[SILENT]"@]
            core == "[SILENT]"@ + rest || core == rest + "[SILENT]"@),
{
    trimming_keeps_the_core(before, core, after);
    let mark = "[SILENT]"@;
    crate::laws::texts::parts_are_there(core, mark);
    if starts_with(core, mark) {
        assert(core == mark + core.skip(mark.len() as int));
    }
    if ends_with(core, mark) {
        assert(core == core.take(core.len() - mark.len()) + mark);
    }
    if exists|rest: Seq<char>|
        #![trigger mark + rest]
        #![trigger rest + mark]
        core == mark + rest || core == rest + mark {
        let rest = choose|rest: Seq<char>|
            #![trigger mark + rest]
            #![trigger rest + mark]
            core == mark + rest || core == rest + mark;
        prefixes_come_off(mark, rest);
    }
}

/// A wait ends when the time comes; for a time that has come there is none.
pub proof fn waits_end_in_time(next: i64, now: i64, nanos: u32)
    requires
        nanos < 1_000_000_000,
    ensures
        next > now ==> now * 1_000_000_000 + nanos + wait_nanos(next, now, nanos) == next * 1_000_000_000,
        next <= now ==> wait_nanos(next, now, nanos) == 0,
{
}

/// Of the jobs, those that are switched on are listed, all of them and in their order.
pub proof fn enabled_jobs_are_listed(jobs: Seq<JobRecord>, j: JobRecord)
    ensures
        j.enabled ==> switched_on(jobs.push(j)) == switched_on(jobs).push(j),
        !j.enabled ==> switched_on(jobs.push(j)) == switched_on(jobs),
        switched_on(Seq::empty()).len() == 0,
{
    reveal(Seq::filter);
    assert(jobs.push(j).drop_last() =~= jobs);
}

/// What a list tells of one job: whether it is on, its id, its name, its expression, its chat and
/// what it says.
pub open spec fn told_of(j: JobRecord) -> Seq<char> {
    let mark = if j.enabled {
        "✅"@
    } else {
        "⏸️"@
    };
    mark + " ["@ + int_text(j.id as int) + "] "@ + j.name@ + "\n    schedule: "@ + j.schedule@
        + "\n    chat_id: "@ + int_text(j.chat_id as int) + "\n    prompt: "@ + j.prompt@ + "\n"@
}

/// Each job is listed with what is known of it, in the order of the store.
pub proof fn lists_tell_of_each_job(jobs: Seq<JobRecord>, j: JobRecord, e: Seq<char>)
    ensures
        list_text(Ok(Seq::empty())) == "当前没有任何定时任务。"@,
        jobs.len() > 0 ==> list_text(Ok(jobs.push(j))) == list_text(Ok(jobs)) + told_of(j),
        list_text(Ok(seq![j])) == "定时任务列表：\n"@ + told_of(j),
        list_text(Err(e)) == "读取失败: "@ + e,
{
    assert(jobs.push(j).drop_last() =~= jobs);
    assert(seq![j].drop_last() =~= Seq::empty());
    assert(job_entries(Seq::empty()) =~= Seq::empty());
    assert(job_entry(j) == told_of(j));
    let entry = told_of(j);
    assert(Seq::<char>::empty() + entry =~= entry);
    assert(job_entries(seq![j]) == entry);
    if jobs.len() > 0 {
        lemma_regroup("定时任务列表：\n"@, job_entries(jobs), entry);
    }
}

proof fn lemma_regroup(a: Seq<char>, b: Seq<char>, c: Seq<char>)
    ensures
        a + b + c == a + (b + c),
{
    assert(a + b + c =~= a + (b + c));
}

/// The user is told of each outcome by the id and the name of the job, and of each failure by its
/// words.
pub proof fn outcomes_are_told(id: i64, name: Seq<char>, e: Seq<char>, on: bool)
    ensures
        added_text(name, Ok(id)) == "✅ 已添加任务 ["@ + int_text(id as int) + "] "@ + name + "（下次重载后生效）"@,
        added_text(name, Err(e)) == "添加失败: "@ + e,
        lookup_text(id, None) == "任务 "@ + int_text(id as int) + " 不存在"@,
        lookup_text(id, Some(e)) == "查询失败: "@ + e,
        deleted_text(id, name, None) == "✅ 已删除任务 ["@ + int_text(id as int) + "] "@ + name,
        deleted_text(id, name, Some(e)) == "删除失败: "@ + e,
        switched_text(id, name, true, None) == "▶️ 已恢复"@ + " 任务 ["@ + int_text(id as int) + "] "@ + name,
        switched_text(id, name, false, None) == "⏸️ 已暂停"@ + " 任务 ["@ + int_text(id as int) + "] "@ + name,
        switched_text(id, name, on, Some(e)) == "操作失败: "@ + e,
        bad_schedule(name, e) == "cron 表达式 '"@ + name + "' 非法: "@ + e,
{
}

/// A word: at least one character, and none of them white space.
pub open spec fn is_word(s: Seq<char>) -> bool {
    &&& s.len() > 0
    &&& forall|i: int| 0 <= i < s.len() ==> !is_white_space(#[trigger] s[i])
}

/// Text with something in it and no white space at either end.
pub open spec fn is_core(s: Seq<char>) -> bool {
    s.len() > 0 && !is_white_space(s[0]) && !is_white_space(s.last())
}

proof fn lemma_core(s: Seq<char>)
    requires
        is_core(s),
    ensures
        trimmed(s) == s,
{
    let none = Seq::<char>::empty();
    trimming_keeps_the_core(none, s, none);
    assert(none + s + none =~= s);
}

proof fn lemma_word_cut(word: Seq<char>, rest: Seq<char>)
    requires
        is_word(word),
    ensures
        split_at_first(word + seq![' '] + rest, CharClass::Blank) == Some((word, rest)),
        split_at_first(word, CharClass::Blank) is None,
        is_core(word),
{
    assert forall|i: int| 0 <= i < word.len() implies !CharClass::Blank.has(#[trigger] word[i]) by {}
    texts_are_cut_at_the_first(word, ' ', rest, CharClass::Blank);
}

proof fn lemma_int_word(n: i64)
    ensures
        is_word(int_text(n as int)),
{
    let s = int_text(n as int);
    if n < 0 {
        lemma_nat_text((-n) as nat);
        assert forall|i: int| 0 <= i < s.len() implies !is_white_space(#[trigger] s[i]) by {
            if i > 0 {
                assert(s[i] == crate::text::nat_text((-n) as nat)[i - 1]);
                assert(is_digit(s[i]));
            }
        }
    } else {
        lemma_nat_text(n as nat);
        assert forall|i: int| 0 <= i < s.len() implies !is_white_space(#[trigger] s[i]) by {
            assert(is_digit(s[i]));
        }
    }
}

/// How the parts of a new job are read: a name, an expression in quotes, the number of a chat and
/// what to say. Each part that is not there is told.
#[verifier::spinoff_prover]
#[verifier::rlimit(50)]
pub proof fn new_jobs_are_read(
    name: Seq<char>,
    tail: Seq<char>,
    schedule: Seq<char>,
    chat: Seq<char>,
    prompt: Seq<char>,
)
    requires
        is_word(name),
        is_word(chat),
        is_core(prompt),
        is_core(tail),
        forall|i: int| 0 <= i < schedule.len() ==> #[trigger] schedule[i] != '"',
    ensures
        add_command(name) == CommandView::Tell("用法: /cron add <name> \"<cron>\" <chat_id> <prompt...>"@),
        tail[0] != '"' ==> add_command(name + seq![' '] + tail) == CommandView::Tell(
            "cron 表达式需用双引号包裹，例如 \"0 9 * * *\""@,
        ),
        schedule.len() > 0 && !is_white_space(schedule.last()) ==> add_command(
            name + seq![' '] + (seq!['"'] + schedule),
        ) == CommandView::Tell("cron 表达式的右引号缺失"@),
        add_command(name + seq![' '] + (seq!['"'] + schedule + seq!['"'] + (seq![' '] + chat)))
            == CommandView::Tell("缺少 chat_id 或 prompt"@),
        ({
            let asked = add_command(
                name + seq![' '] + (seq!['"'] + schedule + seq!['"'] + (seq![' '] + (chat + seq![' '] + prompt))),
            );
            &&& i64_of(chat) is None ==> asked == CommandView::Tell("chat_id 非法: "@ + chat)
            &&& i64_of(chat) is Some && cron_error(schedule) is Some ==> asked == CommandView::Tell(
                "cron 表达式 '"@ + schedule + "' 非法: "@ + cron_error(schedule)->0,
            )
            &&& i64_of(chat) is Some && cron_error(schedule) is None ==> asked == (CommandView::Add {
                name,
                schedule,
                chat_id: i64_of(chat)->0,
                prompt,
            })
        }),
{
    reveal_strlit("\"");
    let one = seq!['"'];
    assert("\""@ =~= one);
    lemma_word_cut(name, tail);
    lemma_core(name);
    lemma_core(tail);
    if tail[0] != '"' {
        assert(!starts_with(tail, "\""@)) by {
            if starts_with(tail, "\""@) {
                assert(tail.take(1)[0] == '"');
            }
        }
    }
    assert forall|i: int| 0 <= i < schedule.len() implies !CharClass::Just('"').has(#[trigger] schedule[i]) by {}
    if schedule.len() > 0 && !is_white_space(schedule.last()) {
        let t = one + schedule;
        lemma_word_cut(name, t);
        lemma_core(t);
        prefixes_come_off("\""@, schedule);
        texts_are_cut_at_the_first(schedule, '"', schedule, CharClass::Just('"'));
    }
    lemma_quoted_tail(name, schedule, chat);
    lemma_word_cut(chat, prompt);
    lemma_quoted_tail(name, schedule, chat + seq![' '] + prompt);
    lemma_core(chat);
    lemma_core(prompt);
}

proof fn lemma_quoted_tail(name: Seq<char>, schedule: Seq<char>, rest: Seq<char>)
    requires
        is_word(name),
        is_core(rest),
        forall|i: int| 0 <= i < schedule.len() ==> #[trigger] schedule[i] != '"',
    ensures
        add_command(name + seq![' '] + (seq!['"'] + schedule + seq!['"'] + (seq![' '] + rest))) == add_chat(
            name,
            schedule,
            rest,
        ),
{
    let t = seq!['"'] + schedule + seq!['"'] + (seq![' '] + rest);
    assert(is_core(t)) by {
        assert(t[0] == '"');
        assert(t.last() == rest.last());
    }
    assert(add_command(name + seq![' '] + t) == add_schedule(name, t)) by {
        lemma_word_cut(name, t);
        lemma_core(name);
        lemma_core(t);
    }
    lemma_quoted_schedule(name, schedule, rest);
}

#[verifier::spinoff_prover]
#[verifier::rlimit(50)]
proof fn lemma_quoted_schedule(name: Seq<char>, schedule: Seq<char>, rest: Seq<char>)
    requires
        is_core(rest),
        forall|i: int| 0 <= i < schedule.len() ==> #[trigger] schedule[i] != '"',
    ensures
        add_schedule(name, seq!['"'] + schedule + seq!['"'] + (seq![' '] + rest)) == add_chat(
            name,
            schedule,
            rest,
        ),
{
    let one = seq!['"'];
    let space = seq![' '];
    let last = space + rest;
    let inner = schedule + one + last;
    let t = one + schedule + one + last;
    assert(t == one + inner) by {
        lemma_regroup(one, schedule, one);
        lemma_regroup(one, schedule + one, last);
    }
    assert(after_prefix(t, "\""@) == Some(inner)) by {
        reveal_strlit("\"");
        assert("\""@ =~= one);
        prefixes_come_off("\""@, inner);
    }
    assert(split_at_first(inner, CharClass::Just('"')) == Some((schedule, last))) by {
        assert forall|i: int| 0 <= i < schedule.len() implies !CharClass::Just('"').has(
            #[trigger] schedule[i],
        ) by {}
        texts_are_cut_at_the_first(schedule, '"', last, CharClass::Just('"'));
    }
    assert(trim_start_by(last, CharClass::Blank) == rest) by {
        assert forall|i: int| 0 <= i < space.len() implies CharClass::Blank.has(#[trigger] space[i]) by {}
        ends_are_taken_off(rest, space, CharClass::Blank);
    }
}

/// The text of a command without its argument, or with one.
pub open spec fn command_line(word: Seq<char>, argument: Seq<char>) -> Seq<char> {
    "/cron "@ + word + seq![' '] + argument
}

#[verifier::spinoff_prover]
#[verifier::rlimit(50)]
proof fn lemma_command(word: Seq<char>, argument: Seq<char>)
    requires
        is_word(word),
        is_core(argument),
    ensures
        handled(command_line(word, argument)) == crate::cron::commands::dispatched(
            word + seq![' '] + argument,
        ),
        crate::cron::commands::command_parts(word + seq![' '] + argument) == (word, argument),
        handled("/cron "@ + word) == crate::cron::commands::dispatched(word),
        crate::cron::commands::command_parts(word) == (word, ""@),
{
    reveal_strlit("/cron");
    reveal_strlit("/cron ");
    let space = seq![' '];
    let none = Seq::<char>::empty();
    assert forall|i: int| 0 <= i < space.len() implies is_white_space(#[trigger] space[i]) by {}
    let core = word + space + argument;
    assert(command_line(word, argument) =~= "/cron"@ + (space + core));
    prefixes_come_off("/cron"@, space + core);
    assert(core[0] == word[0]);
    assert(core.last() == argument.last());
    trimming_keeps_the_core(space, core, none);
    assert(space + core + none =~= space + core);
    lemma_word_cut(word, argument);
    lemma_core(word);
    lemma_core(argument);
    assert("/cron "@ + word =~= "/cron"@ + (space + word));
    prefixes_come_off("/cron"@, space + word);
    trimming_keeps_the_core(space, word, none);
    assert(space + word + none =~= space + word);
}

proof fn lemma_command_words()
    ensures
        "help"@.len() == 4 && "list"@.len() == 4 && "add"@.len() == 3 && "del"@.len() == 3,
        "pause"@.len() == 5 && "resume"@.len() == 6,
        "help"@ != "list"@ && "add"@ != "del"@,
        is_word("add"@) && is_word("del"@) && is_word("pause"@) && is_word("resume"@) && is_word("list"@),
        is_word("help"@),
{
    reveal_strlit("help");
    reveal_strlit("list");
    reveal_strlit("add");
    reveal_strlit("del");
    reveal_strlit("pause");
    reveal_strlit("resume");
    assert("help"@[0] == 'h' && "list"@[0] == 'l' && "add"@[0] == 'a' && "del"@[0] == 'd');
}

/// A job that is written out as a command is the job that is asked for.
#[verifier::spinoff_prover]
#[verifier::rlimit(50)]
pub proof fn new_jobs_read_back(name: Seq<char>, schedule: Seq<char>, chat: i64, prompt: Seq<char>)
    requires
        is_word(name),
        is_core(prompt),
        forall|i: int| 0 <= i < schedule.len() ==> #[trigger] schedule[i] != '"',
        cron_error(schedule) is None,
    ensures
        handled(
            command_line(
                "add"@,
                name + seq![' '] + (seq!['"'] + schedule + seq!['"'] + (seq![' '] + (int_text(chat as int) + seq![' ']
                    + prompt))),
            ),
        ) == (CommandView::Add { name, schedule, chat_id: chat, prompt }),
{
    lemma_command_words();
    lemma_int_word(chat);
    number_text_reads_back(chat);
    let c = int_text(chat as int);
    new_jobs_are_read(name, prompt, schedule, c, prompt);
    let end = c + seq![' '] + prompt;
    assert(end.last() == prompt.last() && end.len() > 0);
    let quoted = seq!['"'] + schedule + seq!['"'] + (seq![' '] + end);
    assert(quoted.last() == end.last() && quoted.len() > 0);
    let args = name + seq![' '] + quoted;
    assert(is_core(args)) by {
        assert(args[0] == name[0]);
        assert(args.last() == quoted.last());
    }
    lemma_command("add"@, args);
}

/// A job is deleted, paused and resumed by the number that is written; anything but a number is
/// told.
pub proof fn jobs_go_by_their_number(id: i64, word: Seq<char>)
    requires
        is_word(word),
        i64_of(word) is None,
    ensures
        handled(command_line("del"@, int_text(id as int))) == CommandView::Delete(id),
        handled(command_line("pause"@, int_text(id as int))) == CommandView::SetEnabled(id, false),
        handled(command_line("resume"@, int_text(id as int))) == CommandView::SetEnabled(id, true),
        handled(command_line("del"@, word)) == CommandView::Tell("用法: /cron del <id>"@),
        handled(command_line("pause"@, word)) == CommandView::Tell("用法: /cron pause <id>"@),
        handled(command_line("resume"@, word)) == CommandView::Tell("用法: /cron resume <id>"@),
{
    lemma_command_words();
    lemma_int_word(id);
    number_text_reads_back(id);
    let n = int_text(id as int);
    assert(is_core(n) && is_core(word));
    assert(trimmed(n) == n) by {
        lemma_core(n);
    }
    assert(trimmed(word) == word) by {
        lemma_core(word);
    }
    lemma_numbered("del"@, n);
    lemma_numbered("pause"@, n);
    lemma_numbered("resume"@, n);
    lemma_numbered("del"@, word);
    lemma_numbered("pause"@, word);
    lemma_numbered("resume"@, word);
}

proof fn lemma_numbered(word: Seq<char>, argument: Seq<char>)
    requires
        word == "del"@ || word == "pause"@ || word == "resume"@,
        is_word(word),
        is_core(argument),
        trimmed(argument) == argument,
    ensures
        handled(command_line(word, argument)) == match (i64_of(argument), word == "del"@, word == "pause"@) {
            (Some(id), true, _) => CommandView::Delete(id),
            (Some(id), false, on) => CommandView::SetEnabled(id, !on),
            (None, true, _) => CommandView::Tell("用法: /cron del <id>"@),
            (None, false, true) => CommandView::Tell("用法: /cron pause <id>"@),
            (None, false, false) => CommandView::Tell("用法: /cron resume <id>"@),
        },
{
    lemma_command_words();
    lemma_command(word, argument);
}

/// A word that is no command is told with the help; so is a command without a word.
pub proof fn other_words_are_told(word: Seq<char>)
    requires
        is_word(word),
    ensures
        handled("/cron "@ + "list"@) is List,
        handled("/cron "@ + "help"@) == CommandView::Tell(HELP@),
        handled("/cron"@) == CommandView::Tell(HELP@),
        word != "help"@ && word != "list"@ && word != "add"@ && word != "del"@ && word != "pause"@ && word
            != "resume"@ ==> handled("/cron "@ + word) == CommandView::Tell(
            "未知子命令 '"@ + word + "'。\n\n"@ + HELP@,
        ),
{
    lemma_command_words();
    lemma_command("list"@, word);
    lemma_command("help"@, word);
    lemma_command(word, word);
    let none = Seq::<char>::empty();
    prefixes_come_off("/cron"@, none);
    assert("/cron"@ + none =~= "/cron"@);
    trimming_keeps_the_core(none, none, none);
    assert(none + none + none =~= none);
}

/// White space around what is asked does not count, and neither does the command's own name.
pub proof fn space_around_a_command_does_not_count(before: Seq<char>, core: Seq<char>, after: Seq<char>, text: Seq<char>)
    requires
        forall|i: int| 0 <= i < before.len() ==> is_white_space(#[trigger] before[i]),
        forall|i: int| 0 <= i < after.len() ==> is_white_space(#[trigger] after[i]),
        core.len() > 0 ==> is_core(core),
        !starts_with(text, "/cron"@),
    ensures
        handled("/cron"@ + (before + core + after)) == handled("/cron"@ + core),
        handled(text) == handled("/cron"@ + text),
{
    let none = Seq::<char>::empty();
    prefixes_come_off("/cron"@, before + core + after);
    prefixes_come_off("/cron"@, core);
    prefixes_come_off("/cron"@, text);
    trimming_keeps_the_core(before, core, after);
    trimming_keeps_the_core(none, core, none);
    assert(none + core + none =~= core);
}

/// However much white space stands between a command and its argument, the argument is the same.
pub proof fn space_within_a_command_does_not_count(word: Seq<char>, gap: Seq<char>, argument: Seq<char>)
    requires
        is_word(word),
        is_core(argument),
        gap.len() > 0,
        forall|i: int| 0 <= i < gap.len() ==> is_white_space(#[trigger] gap[i]),
    ensures
        crate::cron::commands::command_parts(word + gap + argument) == (word, argument),
{
    let c = gap[0];
    let rest = gap.skip(1) + argument;
    assert(word + gap + argument =~= word + seq![c] + rest);
    assert forall|i: int| 0 <= i < word.len() implies !CharClass::Blank.has(#[trigger] word[i]) by {}
    texts_are_cut_at_the_first(word, c, rest, CharClass::Blank);
    lemma_core(word);
    let none = Seq::<char>::empty();
    let more = gap.skip(1);
    assert forall|i: int| 0 <= i < more.len() implies is_white_space(#[trigger] more[i]) by {
        assert(more[i] == gap[i + 1]);
    }
    trimming_keeps_the_core(more, argument, none);
    assert(more + argument + none =~= more + argument);
}

/// Whether a text is made of white space alone.
pub open spec fn is_gap(s: Seq<char>) -> bool {
    forall|i: int| 0 <= i < s.len() ==> is_white_space(#[trigger] s[i])
}

proof fn lemma_gap_cut(word: Seq<char>, gap: Seq<char>, rest: Seq<char>)
    requires
        is_word(word),
        gap.len() > 0 && is_gap(gap),
        is_core(rest),
    ensures
        split_at_first(word + gap + rest, CharClass::Blank) matches Some((w, r)) && w == word && trimmed(r) == rest,
{
    let c = gap[0];
    let more = gap.skip(1);
    assert(word + gap + rest =~= word + seq![c] + (more + rest));
    assert forall|i: int| 0 <= i < word.len() implies !CharClass::Blank.has(#[trigger] word[i]) by {}
    texts_are_cut_at_the_first(word, c, more + rest, CharClass::Blank);
    assert forall|i: int| 0 <= i < more.len() implies is_white_space(#[trigger] more[i]) by {
        assert(more[i] == gap[i + 1]);
    }
    let none = Seq::<char>::empty();
    trimming_keeps_the_core(more, rest, none);
    assert(more + rest + none =~= more + rest);
}

/// However much white space stands between the parts of a new job, the job is the same; none has to
/// stand behind the closing quote.
#[verifier::spinoff_prover]
#[verifier::rlimit(50)]
pub proof fn space_within_a_new_job_does_not_count(
    name: Seq<char>,
    before: Seq<char>,
    schedule: Seq<char>,
    behind: Seq<char>,
    chat: Seq<char>,
    between: Seq<char>,
    prompt: Seq<char>,
)
    requires
        is_word(name) && is_word(chat) && is_core(prompt),
        before.len() > 0 && is_gap(before),
        is_gap(behind),
        between.len() > 0 && is_gap(between),
        forall|i: int| 0 <= i < schedule.len() ==> #[trigger] schedule[i] != '"',
        i64_of(chat) is Some && cron_error(schedule) is None,
    ensures
        add_command(
            name + before + (seq!['"'] + schedule + seq!['"'] + (behind + (chat + between + prompt))),
        ) == (CommandView::Add { name, schedule, chat_id: i64_of(chat)->0, prompt }),
{
    let end = chat + between + prompt;
    assert(end[0] == chat[0] && end.last() == prompt.last());
    let last = behind + end;
    let one = seq!['"'];
    let t = one + schedule + one + last;
    assert(is_core(t)) by {
        assert(t[0] == '"');
        assert(last.last() == end.last());
        assert(t.last() == last.last());
    }
    assert(add_command(name + before + t) == add_schedule(name, t)) by {
        lemma_gap_cut(name, before, t);
        lemma_core(name);
    }
    let inner = schedule + one + last;
    assert(t == one + inner) by {
        lemma_regroup(one, schedule, one);
        lemma_regroup(one, schedule + one, last);
    }
    assert(after_prefix(t, "\""@) == Some(inner)) by {
        reveal_strlit("\"");
        assert("\""@ =~= one);
        prefixes_come_off("\""@, inner);
    }
    assert(split_at_first(inner, CharClass::Just('"')) == Some((schedule, last))) by {
        assert forall|i: int| 0 <= i < schedule.len() implies !CharClass::Just('"').has(
            #[trigger] schedule[i],
        ) by {}
        texts_are_cut_at_the_first(schedule, '"', last, CharClass::Just('"'));
    }
    assert(trim_start_by(last, CharClass::Blank) == end) by {
        assert forall|i: int| 0 <= i < behind.len() implies CharClass::Blank.has(#[trigger] behind[i]) by {}
        ends_are_taken_off(end, behind, CharClass::Blank);
    }
    assert(add_schedule(name, t) == add_chat(name, schedule, end));
    lemma_gap_cut(chat, between, prompt);
    lemma_core(chat);
}

} // verus!
