//! Laws of the chat: what a message calls for, what is shown while a run goes on, and what it ends in.
use vstd::prelude::*;
use crate::agent::turn::EventView;
use crate::bot::{
    agrees, args_summary, blank_screen, chat_input_text, command_answer, display, edit_body, handled, log_with,
    on_screen, routed, screened, send_body, sent_id, settled, short_name, shown_texts, telling_field,
    telling_keys, token, updates_body, value_summary, Handling, Outcome, OutgoingView, RouteView, ScreenView,
    TokenError, Waiting, HELP, SHOWN_CHARS, TIMEOUT_QUESTION,
};
use crate::json::{json_render, json_text, JsonView, NumberView};
use crate::laws::jobs::{is_core, is_word};
use crate::laws::streams::{field, text_field, text_or};
use crate::laws::texts::{parts_are_there, prefixes_come_off, trimming_keeps_the_core, words_stand_between_white_space};
use crate::markdown::html;
use crate::text::{ascii_lower, first_chars, int_text, is_white_space, trimmed, words};

verus! {

/// The start of a text: all of it, or so many characters where it is longer.
pub open spec fn start(s: Seq<char>, n: nat) -> Seq<char> {
    if s.len() <= n {
        s
    } else {
        s.take(n as int)
    }
}

proof fn lemma_start(s: Seq<char>, n: nat)
    ensures
        first_chars(s, n) == start(s, n),
{
    assert(first_chars(s, n) =~= start(s, n));
}

// ---------- messages ----------

/// The token of the configuration comes first, then that of the environment; an empty one is none.
pub proof fn tokens_are_found(configured: Seq<char>, other: Seq<char>, environment: Option<Seq<char>>)
    ensures
        configured.len() > 0 ==> token(configured, environment) == Ok::<Seq<char>, TokenError>(configured),
        configured.len() == 0 && other.len() > 0 ==> token(configured, Some(other)) == Ok::<
            Seq<char>,
            TokenError,
        >(other),
        configured.len() == 0 && other.len() == 0 ==> token(configured, Some(other)) == Err::<
            Seq<char>,
            TokenError,
        >(TokenError::Empty),
        configured.len() == 0 ==> token(configured, None) == Err::<Seq<char>, TokenError>(TokenError::Missing),
{
}

proof fn lemma_chat_keys()
    ensures
        "chat_id"@.len() == 7 && "text"@.len() == 4 && "parse_mode"@.len() == 10 && "message_id"@.len() == 10,
        "parse_mode"@ != "message_id"@,
        "timeout"@.len() == 7 && "offset"@.len() == 6,
{
    reveal_strlit("chat_id");
    reveal_strlit("text");
    reveal_strlit("parse_mode");
    reveal_strlit("message_id");
    reveal_strlit("timeout");
    reveal_strlit("offset");
    assert("parse_mode"@[0] == 'p' && "message_id"@[0] == 'm');
}

/// Whether a field of an object is an integer.
pub open spec fn holds_number(v: JsonView, key: Seq<char>, n: i64) -> bool {
    field(v, key) == Some(JsonView::Number(NumberView::of(n)))
}

/// What is sent and edited goes to its chat and its message, with all its text, and as HTML where it
/// is HTML.
pub proof fn texts_are_sent_whole(chat: i64, message: i64, text: Seq<char>, as_html: bool, offset: i64)
    ensures
        ({
            let v = send_body(chat, text, as_html);
            &&& holds_number(v, "chat_id"@, chat)
            &&& text_field(v, "text"@) == Some(text)
            &&& as_html ==> text_field(v, "parse_mode"@) == Some("HTML"@)
            &&& !as_html ==> field(v, "parse_mode"@) is None
        }),
        ({
            let v = edit_body(chat, message, text, as_html);
            &&& holds_number(v, "chat_id"@, chat)
            &&& holds_number(v, "message_id"@, message)
            &&& text_field(v, "text"@) == Some(text)
            &&& as_html ==> text_field(v, "parse_mode"@) == Some("HTML"@)
            &&& !as_html ==> field(v, "parse_mode"@) is None
        }),
        holds_number(updates_body(Some(offset)), "offset"@, offset),
        holds_number(updates_body(Some(offset)), "timeout"@, 30),
        holds_number(updates_body(None), "timeout"@, 30),
        field(updates_body(None), "offset"@) is None,
        chat_input_text(chat, text) == "[chat_id: "@ + int_text(chat as int) + "]\n\n"@ + text,
{
    lemma_chat_keys();
}

/// What is shown in a message is the start of the text, at most 4000 characters: as HTML, and as it is
/// where HTML is not taken.
pub proof fn messages_show_the_start(chat: i64, message: i64, text: Seq<char>)
    ensures
        text_field(edit_body(chat, message, html(first_chars(text, SHOWN_CHARS as nat)), true), "text"@) == Some(
            html(start(text, 4000)),
        ),
        text_field(edit_body(chat, message, first_chars(text, SHOWN_CHARS as nat), false), "text"@) == Some(
            start(text, 4000),
        ),
{
    lemma_chat_keys();
    lemma_start(text, 4000);
}

/// The id of a message is read out of what came back for it.
pub proof fn ids_read_back(v: JsonView, result: JsonView, id: i64)
    requires
        field(v, "result"@) == Some(result),
    ensures
        holds_number(result, "message_id"@, id) ==> sent_id(v) == Some(id),
        field(result, "message_id"@) is None ==> sent_id(v) is None,
{
}

/// A message without text is passed over, one that is no command is talk.
pub proof fn talk_is_no_command(before: Seq<char>, core: Seq<char>, after: Seq<char>)
    requires
        forall|i: int| 0 <= i < before.len() ==> is_white_space(#[trigger] before[i]),
        forall|i: int| 0 <= i < after.len() ==> is_white_space(#[trigger] after[i]),
        is_core(core),
    ensures
        routed(before) is Ignore,
        core[0] != '/' ==> routed(before + core + after) is Talk,
{
    let none = Seq::<char>::empty();
    trimming_keeps_the_core(before, core, after);
    trimming_keeps_the_core(before, none, none);
    assert(before + none + none =~= before);
    reveal_strlit("/");
    if crate::text::starts_with(core, "/"@) {
        assert(core.take(1)[0] == core[0]);
    }
}

/// A command goes by its first word, whatever follows.
pub proof fn commands_go_by_their_word(
    before: Seq<char>,
    gap: Seq<char>,
    name: Seq<char>,
    rest: Seq<char>,
    after: Seq<char>,
)
    requires
        forall|i: int| 0 <= i < gap.len() ==> is_white_space(#[trigger] gap[i]),
        forall|i: int| 0 <= i < before.len() ==> is_white_space(#[trigger] before[i]),
        forall|i: int| 0 <= i < after.len() ==> is_white_space(#[trigger] after[i]),
        is_word(name),
        rest.len() > 0 ==> is_white_space(rest[0]) && !is_white_space(rest.last()),
    ensures
        ({
            let r = routed(before + (seq!['/'] + (gap + name + rest)) + after);
            &&& r is Restart <==> name == "new"@ || name == "clear"@
            &&& r is Help <==> name == "help"@ || name == "start"@
            &&& name != "new"@ && name != "clear"@ && name != "help"@ && name != "start"@ ==> r
                == RouteView::Unknown(name)
        }),
        routed(before + seq!['/'] + after) == RouteView::Unknown(Seq::empty()),
{
    reveal_strlit("/");
    reveal_strlit("new");
    reveal_strlit("clear");
    reveal_strlit("help");
    reveal_strlit("start");
    assert("clear"@[0] == 'c' && "start"@[0] == 's');
    let said = gap + name + rest;
    let core = seq!['/'] + said;
    assert(core.last() == if rest.len() > 0 { rest.last() } else { name.last() });
    trimming_keeps_the_core(before, core, after);
    assert("/"@ =~= seq!['/']);
    prefixes_come_off("/"@, said);
    words_stand_between_white_space(gap, name, rest);
    assert(words(said)[0] == name);
    // No word at all.
    let none = Seq::<char>::empty();
    trimming_keeps_the_core(before, "/"@, after);
    prefixes_come_off("/"@, none);
    assert("/"@ + none =~= "/"@);
    words_stand_between_white_space(none, name, none);
    reveal_strlit("");
    assert(""@ =~= none);
}

/// What each command is answered with; talk has no answer of its own.
pub proof fn commands_are_answered(name: Seq<char>, had: bool)
    ensures
        command_answer(RouteView::Restart, true) == Some(("✅ 已开启新会话，上下文已清空。"@, true)),
        command_answer(RouteView::Restart, false) == Some(("（当前本就是新会话，无需清空。）"@, true)),
        command_answer(RouteView::Help, had) == Some((HELP@, true)),
        command_answer(RouteView::Unknown(name), had) == Some(
            ("未知命令 /"@ + name + "。发送 /help 查看可用命令。"@, false),
        ),
        command_answer(RouteView::Talk, had) is None,
        command_answer(RouteView::Ignore, had) is None,
{
}

// ---------- summaries ----------

/// The arguments that tell most of a call, the most telling first.
pub open spec fn telling() -> Seq<Seq<char>> {
    seq![
        "url"@, "command"@, "query"@, "text"@, "prompt"@, "message"@, "name"@, "file_path"@, "selector"@, "path"@,
        "skill"@,
    ]
}

proof fn lemma_telling(v: JsonView, i: int, k: int)
    requires
        0 <= i <= k <= telling().len(),
        forall|j: int| i <= j < k ==> text_or(#[trigger] text_field(v, telling()[j]), Seq::empty()).len() == 0,
    ensures
        telling_field(v, telling_keys(), i) == telling_field(v, telling_keys(), k),
    decreases k - i,
{
    assert(telling() =~= telling_keys());
    if i < k {
        assert(text_or(text_field(v, telling()[i]), Seq::empty()).len() == 0);
        lemma_telling(v, i + 1, k);
    }
}

/// A call is summed up by the most telling argument that it has, or else by all its arguments.
pub proof fn calls_are_summed_up(v: JsonView, k: int)
    requires
        0 <= k <= telling().len(),
        forall|j: int| 0 <= j < k ==> text_or(#[trigger] text_field(v, telling()[j]), Seq::empty()).len() == 0,
    ensures
        k < telling().len() && text_or(text_field(v, telling()[k]), Seq::empty()).len() > 0 ==> value_summary(v)
            == start(text_field(v, telling()[k])->0, 80),
        k == telling().len() ==> value_summary(v) == start(json_render(v), 60),
{
    assert(telling() =~= telling_keys());
    lemma_telling(v, 0, k);
    lemma_start(json_render(v), 60);
    if k < telling().len() && text_field(v, telling()[k]) is Some {
        lemma_start(text_field(v, telling()[k])->0, 80);
    }
}

/// Arguments are summed up by what they hold; those that are no JSON by their start; and where there
/// are none, that is told. Of an outside tool the mark is left out of the name.
pub proof fn arguments_are_summed_up(before: Seq<char>, core: Seq<char>, after: Seq<char>, name: Seq<char>)
    requires
        forall|i: int| 0 <= i < before.len() ==> is_white_space(#[trigger] before[i]),
        forall|i: int| 0 <= i < after.len() ==> is_white_space(#[trigger] after[i]),
        is_core(core),
    ensures
        args_summary(before) == "(无参数)"@,
        json_text(core) is Some ==> args_summary(before + core + after) == value_summary(json_text(core)->0),
        json_text(core) is None ==> args_summary(before + core + after) == start(core, 80),
        short_name("mcp__"@ + name) == name,
        (forall|rest: Seq<char>| name != #[trigger] ("mcp__"@ + rest)) ==> short_name(name) == name,
{
    let none = Seq::<char>::empty();
    trimming_keeps_the_core(before, core, after);
    trimming_keeps_the_core(before, none, none);
    assert(before + none + none =~= before);
    lemma_start(core, 80);
    prefixes_come_off("mcp__"@, name);
    parts_are_there(name, "mcp__"@);
    if crate::text::after_prefix(name, "mcp__"@) is Some {
        assert(name == "mcp__"@ + crate::text::after_prefix(name, "mcp__"@)->0);
    }
}

// ---------- what is shown ----------

/// What is shown is the text and, where there are any, the calls below it.
pub proof fn the_display_shows_both(buf: Seq<char>, log: Seq<char>, line: Seq<char>)
    ensures
        display(buf, Seq::empty()) == buf,
        buf.len() > 0 && log.len() > 0 ==> display(buf, log) == buf + "\n\n"@ + "🔧 操作中\n"@ + log,
        log.len() > 0 ==> display(Seq::empty(), log) == "🔧 操作中\n"@ + log,
        log_with(Seq::empty(), line) == line,
        log.len() > 0 ==> log_with(log, line) == log + "\n"@ + line,
{
    reveal_strlit("");
    let none = Seq::<char>::empty();
    assert(none + ""@ + "🔧 操作中\n"@ + log =~= "🔧 操作中\n"@ + log);
}

/// What each event does to the screen: text goes behind what is there, and is shown anew after every
/// 120 characters; a call and a failure are logged; the answer takes the place of all; a question goes
/// below.
pub proof fn events_reach_the_screen(s: ScreenView, t: Seq<char>, name: Seq<char>, args: Seq<char>)
    ensures
        ({
            let (after, anew) = on_screen(s, EventView::Text(t));
            &&& after.buf == s.buf + t
            &&& after.log == s.log && after.asking == s.asking
            &&& anew <==> s.buf.len() + t.len() >= s.shown + 120
            &&& after.shown == if anew {
                s.buf.len() + t.len()
            } else {
                s.shown
            }
        }),
        ({
            let (after, anew) = on_screen(s, EventView::ToolCall(name, args));
            &&& anew
            &&& after.buf == s.buf && after.shown == s.shown && after.asking == s.asking
            &&& after.log == log_with(s.log, "• "@ + short_name(name) + " → "@ + args_summary(args))
        }),
        ({
            let (after, anew) = on_screen(s, EventView::ToolError(t));
            &&& anew
            &&& after.buf == s.buf && after.shown == s.shown && after.asking == s.asking
            &&& after.log == log_with(s.log, "• ⚠️ "@ + start(t, 80))
        }),
        ({
            let (after, anew) = on_screen(s, EventView::Final(t));
            &&& !anew
            &&& after.buf == t && after.log.len() == 0
            &&& after.shown == s.shown && after.asking == s.asking
        }),
        ({
            let (after, anew) = on_screen(s, EventView::ContinuePrompt(t));
            &&& anew
            &&& after.asking
            &&& after.log == s.log && after.shown == s.shown
            &&& s.buf.len() == 0 ==> after.buf == t
            &&& s.buf.len() > 0 ==> after.buf == s.buf + "\n\n"@ + t
        }),
        blank_screen().buf.len() == 0 && blank_screen().log.len() == 0 && blank_screen().shown == 0
            && !blank_screen().asking,
{
    lemma_start(t, 80);
    reveal_strlit("");
}

/// The screen goes through all events in their order, and shows each state that is to be shown.
pub proof fn all_events_reach_the_screen(s: ScreenView, events: Seq<EventView>, e: EventView)
    ensures
        screened(s, Seq::empty()) == s,
        screened(s, events.push(e)) == on_screen(screened(s, events), e).0,
        shown_texts(s, Seq::empty()).len() == 0,
        on_screen(screened(s, events), e).1 ==> shown_texts(s, events.push(e)) == shown_texts(s, events).push(
            display(screened(s, events.push(e)).buf, screened(s, events.push(e)).log),
        ),
        !on_screen(screened(s, events), e).1 ==> shown_texts(s, events.push(e)) == shown_texts(s, events),
{
    assert(events.push(e).drop_last() =~= events);
}

/// The texts of a run, one after the other.
pub open spec fn said_in(events: Seq<EventView>) -> Seq<char>
    decreases events.len(),
{
    if events.len() == 0 {
        Seq::empty()
    } else if events[0] is Text {
        events[0]->Text_0 + said_in(events.skip(1))
    } else {
        said_in(events.skip(1))
    }
}

proof fn lemma_said_push(events: Seq<EventView>, e: EventView)
    ensures
        said_in(events.push(e)) == said_in(events) + if e is Text {
            e->Text_0
        } else {
            Seq::empty()
        },
    decreases events.len(),
{
    let all = events.push(e);
    let more = if e is Text {
        e->Text_0
    } else {
        Seq::empty()
    };
    if events.len() == 0 {
        assert(all.skip(1) =~= Seq::empty());
        assert(said_in(all.skip(1)) =~= Seq::empty());
        assert(said_in(all) =~= said_in(events) + more);
    } else {
        assert(all.skip(1) =~= events.skip(1).push(e));
        lemma_said_push(events.skip(1), e);
        assert(said_in(all) =~= said_in(events) + more);
    }
}

/// Until the answer comes or the user is asked, the screen holds all the text that came, in its order,
/// whatever calls stand between.
pub proof fn all_text_is_on_the_screen(s: ScreenView, events: Seq<EventView>)
    requires
        forall|i: int| 0 <= i < events.len() ==> !(#[trigger] events[i] is Final) && !(events[i] is ContinuePrompt),
    ensures
        screened(s, events).buf == s.buf + said_in(events),
    decreases events.len(),
{
    if events.len() == 0 {
        assert(s.buf + said_in(events) =~= s.buf);
    } else {
        let front = events.drop_last();
        assert forall|i: int| 0 <= i < front.len() implies !(#[trigger] front[i] is Final) && !(
        front[i] is ContinuePrompt) by {
            assert(front[i] == events[i]);
        }
        all_text_is_on_the_screen(s, front);
        assert(events =~= front.push(events.last()));
        lemma_said_push(front, events.last());
        let last = events[events.len() - 1];
        assert(!(last is Final) && !(last is ContinuePrompt));
        assert(screened(s, events).buf =~= s.buf + said_in(events));
    }
}

// ---------- questions ----------

/// The words with which a user agrees, in any case and with white space around them.
pub proof fn users_agree_by_these_words(before: Seq<char>, core: Seq<char>, after: Seq<char>)
    requires
        forall|i: int| 0 <= i < before.len() ==> is_white_space(#[trigger] before[i]),
        forall|i: int| 0 <= i < after.len() ==> is_white_space(#[trigger] after[i]),
        core.len() > 0 ==> !is_white_space(core[0]) && !is_white_space(core.last()),
    ensures
        ({
            let t = ascii_lower(core);
            let words = seq!["继续"@, "是"@, "好"@, "好的"@, "ok"@, "continue"@, "yes"@, "y"@, "1"@];
            &&& crate::cli::agrees(before + core + after) == words.contains(t)
            &&& agrees(before + core + after) == (words.contains(t) || t == "继续吧"@)
        }),
{
    trimming_keeps_the_core(before, core, after);
    let words = seq!["继续"@, "是"@, "好"@, "好的"@, "ok"@, "continue"@, "yes"@, "y"@, "1"@];
    assert(words[0] == "继续"@ && words[1] == "是"@ && words[2] == "好"@ && words[3] == "好的"@ && words[4] == "ok"@
        && words[5] == "continue"@ && words[6] == "yes"@ && words[7] == "y"@ && words[8] == "1"@);
}

/// How an open question is answered: after a time-out "1" goes on and "2" gives up; a run at its limit
/// goes on where the user agrees; anything else is a message of its own.
pub proof fn questions_are_answered(w: Waiting, text: Seq<char>, id: i64)
    ensures
        handled(w, text).0.pending_timeout is None,
        handled(w, text).0.pending_continue is Some ==> handled(w, text).0.pending_continue == w.pending_continue,
        w.pending_timeout == Some(id) && trimmed(text) == "1"@ ==> handled(w, text).1 == Handling::Resume(id),
        w.pending_timeout == Some(id) && trimmed(text) == "2"@ ==> handled(w, text).1 == Handling::GiveUp(id),
        w.pending_timeout is None && w.pending_continue == Some(id) && agrees(text) ==> handled(w, text).1
            == Handling::Resume(id),
        w.pending_timeout is None && w.pending_continue == Some(id) ==> handled(w, text).0.pending_continue is None,
        w.pending_timeout is None && w.pending_continue is Some && !agrees(text) ==> handled(w, text).1
            == Handling::Fresh,
        w.pending_timeout is None && w.pending_continue is None ==> handled(w, text).1 == Handling::Fresh,
        w.pending_timeout is Some && w.pending_continue is None && trimmed(text) != "1"@ && trimmed(text) != "2"@
            ==> handled(w, text).1 == Handling::Fresh,
        w.pending_timeout is Some && (trimmed(text) == "1"@ || trimmed(text) == "2"@) ==> handled(
            w,
            text,
        ).0.pending_continue == w.pending_continue,
        w.pending_timeout is Some && trimmed(text) != "1"@ && trimmed(text) != "2"@ ==> handled(w, text)
            == handled(Waiting { pending_continue: w.pending_continue, pending_timeout: None }, text),
        w.pending_timeout is None && w.pending_continue is None ==> handled(w, text).0 == w,
{
    reveal_strlit("1");
    reveal_strlit("2");
    assert("1"@[0] != "2"@[0]);
}

/// What a run ends in: the answer takes the place of what was shown; a question stays open; a failure is
/// told with all its words; after a time-out the user is asked.
pub proof fn runs_end_in_what_is_shown(w: Waiting, id: i64, o: Outcome, message: Option<i64>)
    ensures
        (o matches Outcome::Ended { text, asking } && !asking) ==> {
            let text = o->text@;
            &&& settled(w, message, o).0 == w
            &&& text.len() > 0 ==> settled(w, Some(id), o).1 == OutgoingView::Edit(id, text)
            &&& text.len() == 0 ==> settled(w, Some(id), o).1 == OutgoingView::Edit(id, "（无输出）"@)
            &&& settled(w, None, o).1 is Nothing
        },
        (o matches Outcome::Ended { text, asking } && asking) ==> {
            &&& settled(w, message, o).0.pending_continue == message
            &&& settled(w, message, o).0.pending_timeout == w.pending_timeout
            &&& settled(w, message, o).1 is Nothing
        },
        o matches Outcome::Failed(e) ==> {
            &&& settled(w, message, o).0 == w
            &&& settled(w, Some(id), o).1 == OutgoingView::Edit(id, "[错误] "@ + e@)
            &&& settled(w, None, o).1 == OutgoingView::Send("[错误] "@ + e@, true)
        },
        o is TimedOut ==> {
            &&& settled(w, message, o).0.pending_timeout == message
            &&& settled(w, message, o).0.pending_continue == w.pending_continue
            &&& settled(w, Some(id), o).1 == OutgoingView::Edit(id, TIMEOUT_QUESTION@)
            &&& settled(w, None, o).1 == OutgoingView::Send(TIMEOUT_QUESTION@, false)
        },
{
}

} // verus!
