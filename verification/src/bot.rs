//! The Telegram bot: which update calls for what, what is sent, and what each chat is waiting for.
use vstd::prelude::*;
use crate::agent::turn::{event_views, AgentEvent, EventView};
use crate::json::{json_render, json_text, Json, JsonView, NumberView};
use crate::llm::body::str_json;
use crate::markdown::{html, md_to_tg_html};
use crate::text::{
    after_prefix, ascii_lower, chars_of, first_chars, i64_text, int_text, opt_view, same, split_words,
    strip_prefix, take_chars, to_lower, trim, trimmed, views, words,
};

verus! {

// ---------- start ----------

/// Why there is no token to run with.
#[derive(Clone, Copy, Debug, PartialEq, Eq, Structural)]
pub enum TokenError {
    /// Neither the configuration nor the environment has one.
    Missing,
    /// The one in the environment is empty.
    Empty,
}

/// The token: that of the configuration, unless it is empty, else that of the environment.
pub open spec fn token(configured: Seq<char>, environment: Option<Seq<char>>) -> Result<
    Seq<char>,
    TokenError,
> {
    if configured.len() > 0 {
        Ok(configured)
    } else {
        match environment {
            Some(t) => if t.len() == 0 {
                Err(TokenError::Empty)
            } else {
                Ok(t)
            },
            None => Err(TokenError::Missing),
        }
    }
}

/// [`token`].
pub fn resolve_token(configured: &str, environment: Option<String>) -> (r: Result<
    String,
    TokenError,
>)
    ensures
        match r {
            Ok(t) => token(configured@, opt_view(environment)) == Ok::<Seq<char>, TokenError>(t@),
            Err(e) => token(configured@, opt_view(environment)) == Err::<Seq<char>, TokenError>(e),
        },
{
    if !configured.is_empty() {
        return Ok(configured.to_owned());
    }
    match environment {
        Some(t) => if t.as_str().is_empty() {
            Err(TokenError::Empty)
        } else {
            Ok(t)
        },
        None => Err(TokenError::Missing),
    }
}

// ---------- updates ----------

pub open spec fn int_json(n: i64) -> JsonView {
    JsonView::Number(NumberView::of(n))
}

/// The body of a request for updates: those from `offset` on, waiting half a minute.
pub open spec fn updates_body(offset: Option<i64>) -> JsonView {
    let body = map!["timeout"@ => int_json(30)];
    JsonView::Object(
        match offset {
            Some(o) => body.insert("offset"@, int_json(o)),
            None => body,
        },
    )
}

pub fn updates_params(offset: Option<i64>) -> (r: Json)
    ensures
        r@ == updates_body(offset),
{
    let body = Json::object().with("timeout", Json::signed(30));
    match offset {
        Some(o) => body.with("offset", Json::signed(o)),
        None => body,
    }
}

/// Where to go on after an update.
pub fn next_offset(update_id: i64) -> (r: i64)
    requires
        update_id < i64::MAX,
    ensures
        r == update_id + 1,
{
    update_id + 1
}

/// What an update calls for.
pub enum Route {
    Ignore,
    /// Forget the conversation.
    Restart,
    Help,
    /// A command that there is not.
    Unknown(String),
    /// Something to talk about.
    Talk,
}

pub enum RouteView {
    Ignore,
    Restart,
    Help,
    Unknown(Seq<char>),
    Talk,
}

impl View for Route {
    type V = RouteView;

    open spec fn view(&self) -> RouteView {
        match self {
            Route::Ignore => RouteView::Ignore,
            Route::Restart => RouteView::Restart,
            Route::Help => RouteView::Help,
            Route::Unknown(name) => RouteView::Unknown(name@),
            Route::Talk => RouteView::Talk,
        }
    }
}

/// The first word, or nothing.
pub open spec fn first_word(s: Seq<char>) -> Seq<char> {
    if words(s).len() > 0 {
        words(s)[0]
    } else {
        ""@
    }
}

/// Blank messages are passed over; a slash at the start makes a command of the first word.
pub open spec fn routed(text: Seq<char>) -> RouteView {
    let t = trimmed(text);
    if t.len() == 0 {
        RouteView::Ignore
    } else {
        match after_prefix(t, "/"@) {
            Some(rest) => {
                let name = first_word(rest);
                if name == "new"@ || name == "clear"@ {
                    RouteView::Restart
                } else if name == "help"@ || name == "start"@ {
                    RouteView::Help
                } else {
                    RouteView::Unknown(name)
                }
            },
            None => RouteView::Talk,
        }
    }
}

pub fn route(text: &str) -> (r: Route)
    ensures
        r@ == routed(text@),
{
    let t = trim(text);
    if t.as_str().is_empty() {
        return Route::Ignore;
    }
    match strip_prefix(t.as_str(), "/") {
        Some(rest) => {
            let parts = split_words(rest.as_str());
            let name = if parts.len() > 0 {
                assert(views(parts@)[0] == parts@[0]@);
                parts[0].clone()
            } else {
                "".to_owned()
            };
            if same(name.as_str(), "new") || same(name.as_str(), "clear") {
                Route::Restart
            } else if same(name.as_str(), "help") || same(name.as_str(), "start") {
                Route::Help
            } else {
                Route::Unknown(name)
            }
        },
        None => Route::Talk,
    }
}

/// Takes in an update: gives where to go on, and what its text calls for. An update without text
/// is passed over.
pub fn take_update(update_id: i64, text: Option<&str>) -> (r: (i64, Route))
    requires
        update_id < i64::MAX,
    ensures
        r.0 == update_id + 1,
        r.1@ == match text {
            Some(t) => routed(t@),
            None => RouteView::Ignore,
        },
{
    let offset: i64 = next_offset(update_id);
    match text {
        Some(t) => (offset, route(t)),
        None => (offset, Route::Ignore),
    }
}

/// The text of the help command.
pub const HELP: &'static str = "<b>命令</b>\n/new · /clear — 开启新会话，清空当前上下文\n/help — 显示本帮助\n\n直接发消息即可对话。长期记忆跨会话保留。";

/// What a command is answered, and whether the answer is HTML. `had` says whether there was a
/// conversation to forget.
pub open spec fn command_answer(r: RouteView, had: bool) -> Option<(Seq<char>, bool)> {
    match r {
        RouteView::Restart => Some(
            (
                if had {
                    "✅ 已开启新会话，上下文已清空。"@
                } else {
                    "（当前本就是新会话，无需清空。）"@
                },
                true,
            ),
        ),
        RouteView::Help => Some((HELP@, true)),
        RouteView::Unknown(name) => Some(
            ("未知命令 /"@ + name + "。发送 /help 查看可用命令。"@, false),
        ),
        _ => None,
    }
}

pub fn command_reply(r: &Route, had: bool) -> (a: Option<(String, bool)>)
    ensures
        match a {
            Some(p) => command_answer(r@, had) == Some((p.0@, p.1)),
            None => command_answer(r@, had) is None,
        },
{
    match r {
        Route::Restart => {
            if had {
                Some(("✅ 已开启新会话，上下文已清空。".to_owned(), true))
            } else {
                Some(("（当前本就是新会话，无需清空。）".to_owned(), true))
            }
        },
        Route::Help => Some((HELP.to_owned(), true)),
        Route::Unknown(name) => {
            let mut t = "未知命令 /".to_owned();
            t.append(name.as_str());
            t.append("。发送 /help 查看可用命令。");
            Some((t, false))
        },
        _ => None,
    }
}

// ---------- what is sent ----------

pub open spec fn send_body(chat: i64, text: Seq<char>, as_html: bool) -> JsonView {
    let body = map!["chat_id"@ => int_json(chat), "text"@ => str_json(text)];
    JsonView::Object(
        if as_html {
            body.insert("parse_mode"@, str_json("HTML"@))
        } else {
            body
        },
    )
}

/// The body of a message to a chat.
pub fn send_message(chat: i64, text: &str, as_html: bool) -> (r: Json)
    ensures
        r@ == send_body(chat, text@, as_html),
{
    let body = Json::object().with("chat_id", Json::signed(chat)).with("text", Json::text(text));
    if as_html {
        body.with("parse_mode", Json::text("HTML"))
    } else {
        body
    }
}

/// The message that stands for the answer until there is one.
pub fn send_placeholder(chat: i64) -> (r: Json)
    ensures
        r@ == send_body(chat, "…"@, true),
{
    send_message(chat, "…", true)
}

/// The id of a message that was sent, as the answer to sending it tells.
pub open spec fn sent_id(v: JsonView) -> Option<i64> {
    match v.get("result"@) {
        Some(r) => r.sint_at("message_id"@),
        None => None,
    }
}

pub fn message_id(v: &Json) -> (r: Option<i64>)
    ensures
        r == sent_id(v@),
{
    match v.get("result") {
        Some(r) => r.i64_at("message_id"),
        None => None,
    }
}

/// How many characters of a text are shown.
pub const SHOWN_CHARS: usize = 4000;

pub open spec fn edit_body(chat: i64, message: i64, text: Seq<char>, as_html: bool) -> JsonView {
    let body = map![
        "chat_id"@ => int_json(chat),
        "message_id"@ => int_json(message),
        "text"@ => str_json(text),
    ];
    JsonView::Object(
        if as_html {
            body.insert("parse_mode"@, str_json("HTML"@))
        } else {
            body
        },
    )
}

/// The bodies that change a message: one with the text as HTML, and one with the plain text for
/// the case that the first is turned down. Only the start of a long text is shown.
pub fn edit_text(chat: i64, message: i64, text: &str) -> (r: (Json, Json))
    ensures
        r.0@ == edit_body(chat, message, html(first_chars(text@, SHOWN_CHARS as nat)), true),
        r.1@ == edit_body(chat, message, first_chars(text@, SHOWN_CHARS as nat), false),
{
    let safe = take_chars(text, SHOWN_CHARS);
    let marked = md_to_tg_html(safe.as_str());
    let rich = Json::object().with("chat_id", Json::signed(chat)).with(
        "message_id",
        Json::signed(message),
    ).with("text", Json::text(marked.as_str())).with("parse_mode", Json::text("HTML"));
    let plain = Json::object().with("chat_id", Json::signed(chat)).with(
        "message_id",
        Json::signed(message),
    ).with("text", Json::text(safe.as_str()));
    (rich, plain)
}

/// Whether the plain text is sent as well: an answer came, and it does not say that all is well.
/// An answer that is no JSON is `None`.
pub fn falls_back_to_plain(answer: Option<&Json>) -> (r: bool)
    ensures
        r == !(answer is Some && answer->0@.truth_at("ok"@) == Some(true)),
{
    match answer {
        Some(v) => match v.bool_at("ok") {
            Some(b) => !b,
            None => true,
        },
        None => true,
    }
}

// ---------- what a run shows ----------

/// The name of a tool without the mark of tools of other servers.
pub open spec fn short_name(name: Seq<char>) -> Seq<char> {
    match after_prefix(name, "mcp__"@) {
        Some(rest) => rest,
        None => name,
    }
}

pub fn short_tool_name(name: &str) -> (r: String)
    ensures
        r@ == short_name(name@),
{
    match strip_prefix(name, "mcp__") {
        Some(rest) => rest,
        None => name.to_owned(),
    }
}

/// The first `max` characters.
pub fn truncate_chars(s: &str, max: usize) -> (r: String)
    ensures
        r@ == first_chars(s@, max as nat),
{
    take_chars(s, max)
}

/// The fields of arguments that say best what a call is about, the best first.
pub open spec fn telling_keys() -> Seq<Seq<char>> {
    seq![
        "url"@,
        "command"@,
        "query"@,
        "text"@,
        "prompt"@,
        "message"@,
        "name"@,
        "file_path"@,
        "selector"@,
        "path"@,
        "skill"@,
    ]
}

/// The first of the fields, from `i` on, that holds a string that is not empty.
pub open spec fn telling_field(v: JsonView, keys: Seq<Seq<char>>, i: int) -> Option<Seq<char>>
    decreases keys.len() - i,
{
    if i < 0 || i >= keys.len() {
        None
    } else {
        match v.text_at(keys[i]) {
            Some(t) => if t.len() > 0 {
                Some(t)
            } else {
                telling_field(v, keys, i + 1)
            },
            None => telling_field(v, keys, i + 1),
        }
    }
}

pub open spec fn value_summary(v: JsonView) -> Seq<char> {
    match telling_field(v, telling_keys(), 0) {
        Some(t) => first_chars(t, 80),
        None => first_chars(json_render(v), 60),
    }
}

/// What the arguments of a call say in brief.
pub open spec fn args_summary(args: Seq<char>) -> Seq<char> {
    let t = trimmed(args);
    if t.len() == 0 {
        "(无参数)"@
    } else {
        match json_text(t) {
            Some(v) => value_summary(v),
            None => first_chars(t, 80),
        }
    }
}

/// [`value_summary`].
pub fn summarize_value(v: &Json) -> (r: String)
    ensures
        r@ == value_summary(v@),
{
    let keys: Vec<&str> = vec![
        "url",
        "command",
        "query",
        "text",
        "prompt",
        "message",
        "name",
        "file_path",
        "selector",
        "path",
        "skill",
    ];
    let ghost all = telling_keys();
    let mut i: usize = 0;
    assert(forall|k: int| 0 <= k < keys@.len() ==> (#[trigger] keys@[k])@ == all[k]);
    while i < keys.len()
        invariant
            i <= keys@.len(),
            keys@.len() == all.len(),
            all == telling_keys(),
            forall|k: int| 0 <= k < keys@.len() ==> (#[trigger] keys@[k])@ == all[k],
            telling_field(v@, all, 0) == telling_field(v@, all, i as int),
        decreases keys@.len() - i,
    {
        assert(keys@[i as int]@ == all[i as int]);
        if let Some(t) = v.text_at(keys[i]) {
            if !t.is_empty() {
                return truncate_chars(t, 80);
            }
        }
        i += 1;
    }
    truncate_chars(v.render().as_str(), 60)
}

/// [`args_summary`].
pub fn summarize_args(args: &str) -> (r: String)
    ensures
        r@ == args_summary(args@),
{
    let t = trim(args);
    if t.as_str().is_empty() {
        return "(无参数)".to_owned();
    }
    match Json::parse(t.as_str()) {
        Some(v) => summarize_value(&v),
        None => truncate_chars(t.as_str(), 80),
    }
}

/// The text so far and, below it, what the tools have been doing.
pub open spec fn display(buf: Seq<char>, log: Seq<char>) -> Seq<char> {
    if log.len() == 0 {
        buf
    } else {
        buf + if buf.len() == 0 {
            ""@
        } else {
            "\n\n"@
        } + "🔧 操作中\n"@ + log
    }
}

pub fn compose_display(buf: &str, tool_log: &str) -> (r: String)
    ensures
        r@ == display(buf@, tool_log@),
{
    let mut r = buf.to_owned();
    if !tool_log.is_empty() {
        if buf.is_empty() {
            r.append("");
        } else {
            r.append("\n\n");
        }
        r.append("🔧 操作中\n");
        r.append(tool_log);
    }
    r
}

/// What is shown of a run: the text, how many characters of it were there when it was last shown for
/// the text's sake, what the tools have been doing, and whether the user is being asked.
#[verifier::ext_equal]
pub struct ScreenView {
    pub buf: Seq<char>,
    pub shown: nat,
    pub log: Seq<char>,
    pub asking: bool,
}

pub open spec fn blank_screen() -> ScreenView {
    ScreenView { buf: ""@, shown: 0, log: ""@, asking: false }
}

pub open spec fn log_with(log: Seq<char>, line: Seq<char>) -> Seq<char> {
    if log.len() == 0 {
        line
    } else {
        log + "\n"@ + line
    }
}

/// What an event does to the screen, and whether it is shown anew. Text is shown when enough of it
/// has come in, what the tools do at once; the answer takes the place of everything before it.
pub open spec fn on_screen(s: ScreenView, e: EventView) -> (ScreenView, bool) {
    match e {
        EventView::Text(t) => {
            let buf = s.buf + t;
            if buf.len() >= s.shown + 120 {
                (ScreenView { buf, shown: buf.len(), ..s }, true)
            } else {
                (ScreenView { buf, ..s }, false)
            }
        },
        EventView::ToolCall(name, args) => (
            ScreenView {
                log: log_with(s.log, "• "@ + short_name(name) + " → "@ + args_summary(args)),
                ..s
            },
            true,
        ),
        EventView::ToolError(msg) => (
            ScreenView { log: log_with(s.log, "• ⚠️ "@ + first_chars(msg, 80)), ..s },
            true,
        ),
        EventView::Final(t) => (ScreenView { buf: t, log: ""@, ..s }, false),
        EventView::ContinuePrompt(note) => (
            ScreenView {
                buf: if s.buf.len() == 0 {
                    note
                } else {
                    s.buf + "\n\n"@ + note
                },
                asking: true,
                ..s
            },
            true,
        ),
    }
}

/// The screen after events, shown or not.
pub open spec fn screened(s: ScreenView, events: Seq<EventView>) -> ScreenView
    decreases events.len(),
{
    if events.len() == 0 {
        s
    } else {
        on_screen(screened(s, events.drop_last()), events.last()).0
    }
}

pub struct Screen {
    pub buf: String,
    pub shown: usize,
    pub log: String,
    pub asking: bool,
}

impl View for Screen {
    type V = ScreenView;

    open spec fn view(&self) -> ScreenView {
        ScreenView {
            buf: self.buf@,
            shown: self.shown as nat,
            log: self.log@,
            asking: self.asking,
        }
    }
}

fn push_log(log: &mut String, line: &str)
    ensures
        final(log)@ == log_with(old(log)@, line@),
{
    if !log.as_str().is_empty() {
        log.append("\n");
    }
    log.append(line);
    assert(log@ =~= log_with(old(log)@, line@));
}

impl Screen {
    pub fn new() -> (r: Screen)
        ensures
            r@ == blank_screen(),
    {
        Screen { buf: "".to_owned(), shown: 0, log: "".to_owned(), asking: false }
    }

    /// Takes in an event. Where the message is to be shown anew, gives its text.
    pub fn render_event(&mut self, e: &AgentEvent) -> (r: Option<String>)
        ensures
            final(self)@ == on_screen(old(self)@, e@).0,
            r is Some == on_screen(old(self)@, e@).1,
            r matches Some(t) ==> t@ == display(final(self)@.buf, final(self)@.log),
    {
        let mut anew = true;
        match e {
            AgentEvent::Text(t) => {
                self.buf.append(t.as_str());
                let n: usize = chars_of(self.buf.as_str()).len();
                if n >= self.shown && n - self.shown >= 120 {
                    self.shown = n;
                } else {
                    anew = false;
                }
            },
            AgentEvent::ToolCall { name, args } => {
                let mut line = "• ".to_owned();
                line.append(short_tool_name(name.as_str()).as_str());
                line.append(" → ");
                line.append(summarize_args(args.as_str()).as_str());
                push_log(&mut self.log, line.as_str());
            },
            AgentEvent::ToolError(msg) => {
                let mut line = "• ⚠️ ".to_owned();
                line.append(truncate_chars(msg.as_str(), 80).as_str());
                push_log(&mut self.log, line.as_str());
            },
            AgentEvent::Final(t) => {
                self.buf = t.clone();
                self.log = "".to_owned();
                anew = false;
            },
            AgentEvent::ContinuePrompt(note) => {
                if !self.buf.as_str().is_empty() {
                    self.buf.append("\n\n");
                }
                self.buf.append(note.as_str());
                self.asking = true;
                assert(old(self).buf@.len() == 0 ==> self.buf@ =~= note@);
            },
        }
        assert(self@ =~= on_screen(old(self)@, e@).0);
        if anew {
            Some(compose_display(self.buf.as_str(), self.log.as_str()))
        } else {
            None
        }
    }
}

/// What is shown in turn while events come in, starting from a screen.
pub open spec fn shown_texts(s: ScreenView, events: Seq<EventView>) -> Seq<Seq<char>>
    decreases events.len(),
{
    if events.len() == 0 {
        Seq::empty()
    } else {
        let before = screened(s, events.drop_last());
        let (after, anew) = on_screen(before, events.last());
        if anew {
            shown_texts(s, events.drop_last()).push(display(after.buf, after.log))
        } else {
            shown_texts(s, events.drop_last())
        }
    }
}

/// What a run shows: the texts to show in turn, the text that is there in the end, and whether the
/// user is being asked.
pub fn render_events(events: &Vec<AgentEvent>) -> (r: (Vec<String>, String, bool))
    ensures
        views(r.0@) == shown_texts(blank_screen(), event_views(events@)),
        r.1@ == screened(blank_screen(), event_views(events@)).buf,
        r.2 == screened(blank_screen(), event_views(events@)).asking,
{
    let ghost all = event_views(events@);
    let mut screen = Screen::new();
    let mut shown: Vec<String> = Vec::new();
    let mut i: usize = 0;
    proof {
        assert(all.take(0) =~= Seq::empty());
        assert(views(shown@) =~= Seq::empty());
    }
    while i < events.len()
        invariant
            i <= events@.len(),
            all == event_views(events@),
            screen@ == screened(blank_screen(), all.take(i as int)),
            views(shown@) == shown_texts(blank_screen(), all.take(i as int)),
        decreases events@.len() - i,
    {
        assert(all.take(i + 1).drop_last() =~= all.take(i as int));
        assert(all[i as int] == events@[i as int]@);
        if let Some(t) = screen.render_event(&events[i]) {
            let ghost before = shown@;
            shown.push(t);
            assert(views(shown@) =~= views(before).push(t@));
        }
        i += 1;
    }
    assert(all.take(all.len() as int) =~= all);
    (shown, screen.buf, screen.asking)
}

/// Once the answer is there, it alone is on the screen.
pub proof fn answer_is_shown_alone(s: ScreenView, events: Seq<EventView>, answer: Seq<char>)
    ensures
        ({
            let end = screened(s, events.push(EventView::Final(answer)));
            display(end.buf, end.log) == answer
        }),
{
    assert(events.push(EventView::Final(answer)).drop_last() =~= events);
    reveal_strlit("");
}

/// The user is being asked exactly when one of the events asks.
pub proof fn asking_is_asked_for(s: ScreenView, events: Seq<EventView>)
    ensures
        screened(s, events).asking == (s.asking || exists|i: int|
            0 <= i < events.len() && #[trigger] events[i] is ContinuePrompt),
    decreases events.len(),
{
    if events.len() > 0 {
        let front = events.drop_last();
        asking_is_asked_for(s, front);
        assert(events[events.len() - 1] == events.last());
        assert forall|i: int| 0 <= i < front.len() implies #[trigger] front[i] == events[i] by {}
        if exists|i: int| 0 <= i < front.len() && #[trigger] front[i] is ContinuePrompt {
            let i = choose|i: int| 0 <= i < front.len() && #[trigger] front[i] is ContinuePrompt;
            assert(events[i] is ContinuePrompt);
        }
        if exists|i: int| 0 <= i < events.len() && #[trigger] events[i] is ContinuePrompt {
            let i = choose|i: int| 0 <= i < events.len() && #[trigger] events[i] is ContinuePrompt;
            if i < front.len() {
                assert(front[i] is ContinuePrompt);
            }
        }
    }
}

// ---------- one chat ----------

/// Words with which a user agrees to go on.
pub open spec fn agrees(s: Seq<char>) -> bool {
    let t = ascii_lower(trimmed(s));
    t == "继续"@ || t == "继续吧"@ || t == "是"@ || t == "好"@ || t == "好的"@ || t == "ok"@ || t
        == "continue"@ || t == "yes"@ || t == "y"@ || t == "1"@
}

pub fn is_affirmative(s: &str) -> (r: bool)
    ensures
        r == agrees(s@),
{
    let t = to_lower(trim(s).as_str());
    let t = t.as_str();
    same(t, "继续") || same(t, "继续吧") || same(t, "是") || same(t, "好") || same(t, "好的") || same(
        t,
        "ok",
    ) || same(t, "continue") || same(t, "yes") || same(t, "y") || same(t, "1")
}

/// What a chat waits for: an answer to the question whether to go on past the limit, or to the
/// question whether to wait longer. Each question stands in the message named.
#[derive(Clone, Copy, Debug, PartialEq, Eq, Structural)]
pub struct Waiting {
    pub pending_continue: Option<i64>,
    pub pending_timeout: Option<i64>,
}

/// What is done with a message of the user.
#[derive(Clone, Copy, Debug, PartialEq, Eq, Structural)]
pub enum Handling {
    /// Go on with the conversation, showing the answer in this message.
    Resume(i64),
    /// Say in this message that the work was given up.
    GiveUp(i64),
    /// Take it as something new.
    Fresh,
}

pub open spec fn handled(w: Waiting, text: Seq<char>) -> (Waiting, Handling) {
    let kept = Waiting { pending_timeout: None, ..w };
    match w.pending_timeout {
        Some(id) => if trimmed(text) == "1"@ {
            (kept, Handling::Resume(id))
        } else if trimmed(text) == "2"@ {
            (kept, Handling::GiveUp(id))
        } else {
            handled_continue(kept, text)
        },
        None => handled_continue(kept, text),
    }
}

pub open spec fn handled_continue(w: Waiting, text: Seq<char>) -> (Waiting, Handling) {
    match w.pending_continue {
        Some(id) => (
            Waiting { pending_continue: None, ..w },
            if agrees(text) {
                Handling::Resume(id)
            } else {
                Handling::Fresh
            },
        ),
        None => (w, Handling::Fresh),
    }
}

/// How a run that a message started came out.
pub enum Outcome {
    /// It ended, with this on the screen; with `asking`, by asking whether to go on.
    Ended { text: String, asking: bool },
    Failed(String),
    TimedOut,
}

/// What is sent when a run is over.
pub enum Outgoing {
    Nothing,
    /// Put this text into the message.
    Edit(i64, String),
    /// Send a new message, as HTML or as plain text.
    Send(String, bool),
}

pub enum OutgoingView {
    Nothing,
    Edit(i64, Seq<char>),
    Send(Seq<char>, bool),
}

impl View for Outgoing {
    type V = OutgoingView;

    open spec fn view(&self) -> OutgoingView {
        match self {
            Outgoing::Nothing => OutgoingView::Nothing,
            Outgoing::Edit(id, t) => OutgoingView::Edit(*id, t@),
            Outgoing::Send(t, h) => OutgoingView::Send(t@, *h),
        }
    }
}

/// The question after a run that took too long.
pub const TIMEOUT_QUESTION: &'static str = "⏰ 处理已超过 3 分钟仍未完成。\n\n回复数字选择：\n1️⃣ 继续等待\n2️⃣ 终止本次处理";

/// What is shown in place of an empty answer.
pub const NO_ANSWER: &'static str = "（无输出）";

/// What is shown when the work was given up.
pub const GIVEN_UP: &'static str = "🛑 已终止本次处理。";

/// How many seconds a run may take.
pub const CHAT_TIMEOUT_SECS: u64 = 180;

pub open spec fn shown_in(message: Option<i64>, text: Seq<char>, else_html: bool) -> OutgoingView {
    match message {
        Some(id) => OutgoingView::Edit(id, text),
        None => OutgoingView::Send(text, else_html),
    }
}

/// What a chat waits for after a run, and what is sent. `message` is the one that stands for the
/// answer, where it could be sent.
pub open spec fn settled(w: Waiting, message: Option<i64>, o: Outcome) -> (Waiting, OutgoingView) {
    match o {
        Outcome::Ended { text, asking } => if asking {
            (Waiting { pending_continue: message, ..w }, OutgoingView::Nothing)
        } else {
            (
                w,
                match message {
                    Some(id) => OutgoingView::Edit(
                        id,
                        if text@.len() == 0 {
                            NO_ANSWER@
                        } else {
                            text@
                        },
                    ),
                    None => OutgoingView::Nothing,
                },
            )
        },
        Outcome::Failed(e) => (w, shown_in(message, "[错误] "@ + e@, true)),
        Outcome::TimedOut => (
            Waiting { pending_timeout: message, ..w },
            shown_in(message, TIMEOUT_QUESTION@, false),
        ),
    }
}

fn show_in(message: Option<i64>, text: String, else_html: bool) -> (r: Outgoing)
    ensures
        r@ == shown_in(message, text@, else_html),
{
    match message {
        Some(id) => Outgoing::Edit(id, text),
        None => Outgoing::Send(text, else_html),
    }
}

/// The report of an error: in the message that stands for the answer, or as a new one.
pub fn report_error(message: Option<i64>, e: &str) -> (r: Outgoing)
    ensures
        r@ == shown_in(message, "[错误] "@ + e@, true),
{
    let mut text = "[错误] ".to_owned();
    text.append(e);
    show_in(message, text, true)
}

impl Waiting {
    pub fn new() -> (r: Waiting)
        ensures
            r == (Waiting { pending_continue: None, pending_timeout: None }),
    {
        Waiting { pending_continue: None, pending_timeout: None }
    }

    /// Takes in a message of the user.
    pub fn handle_message(&mut self, text: &str) -> (r: Handling)
        ensures
            (*final(self), r) == handled(*old(self), text@),
    {
        let asked = self.pending_timeout;
        self.pending_timeout = None;
        if let Some(id) = asked {
            let t = trim(text);
            if same(t.as_str(), "1") {
                return Handling::Resume(id);
            }
            if same(t.as_str(), "2") {
                return Handling::GiveUp(id);
            }
        }
        let asked = self.pending_continue;
        self.pending_continue = None;
        if let Some(id) = asked {
            if is_affirmative(text) {
                return Handling::Resume(id);
            }
        }
        Handling::Fresh
    }

    /// Takes in how a run came out.
    pub fn process(&mut self, message: Option<i64>, o: Outcome) -> (r: Outgoing)
        ensures
            (*final(self), r@) == settled(*old(self), message, o),
    {
        match o {
            Outcome::Ended { text, asking } => {
                if asking {
                    self.pending_continue = message;
                    Outgoing::Nothing
                } else {
                    match message {
                        Some(id) => {
                            if text.as_str().is_empty() {
                                Outgoing::Edit(id, NO_ANSWER.to_owned())
                            } else {
                                Outgoing::Edit(id, text)
                            }
                        },
                        None => Outgoing::Nothing,
                    }
                }
            },
            Outcome::Failed(e) => report_error(message, e.as_str()),
            Outcome::TimedOut => {
                self.pending_timeout = message;
                show_in(message, TIMEOUT_QUESTION.to_owned(), false)
            },
        }
    }
}

pub open spec fn chat_input_text(chat: i64, text: Seq<char>) -> Seq<char> {
    "[chat_id: "@ + int_text(chat as int) + "]\n\n"@ + text
}

/// What the agent is told when a user of this chat says something.
pub fn chat_input(chat: i64, text: &str) -> (r: String)
    ensures
        r@ == chat_input_text(chat, text@),
{
    let mut r = "[chat_id: ".to_owned();
    r.append(i64_text(chat).as_str());
    r.append("]\n\n");
    r.append(text);
    r
}

/// A chat never waits for two answers at once: whatever the user says and however the run that it
/// starts comes out, at most one question is open afterwards.
pub proof fn at_most_one_question(w: Waiting, text: Seq<char>, message: Option<i64>, o: Outcome)
    requires
        w.pending_continue is None || w.pending_timeout is None,
    ensures
        ({
            let asked = handled(w, text).0;
            let after = settled(asked, message, o).0;
            &&& asked.pending_continue is None && asked.pending_timeout is None
            &&& after.pending_continue is None || after.pending_timeout is None
        }),
{
}

/// A question is answered once: the message after it closes it, whatever it says.
pub proof fn questions_are_asked_once(w: Waiting, text: Seq<char>, again: Seq<char>)
    requires
        w.pending_continue is None || w.pending_timeout is None,
    ensures
        handled(handled(w, text).0, again).1 == Handling::Fresh,
{
}

} // verus!
