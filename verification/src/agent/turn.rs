//! A run of the agent, from an input to the answer.
//!
//! Whoever drives the run sends the requests and runs the tools. It hands in what the model says
//! and what the tools give back, and is told what to do next.
use vstd::prelude::*;
use crate::agent::{build_mcp_summary, are_mcp_names, mcp_summary, EXTRACT_PROMPT};
use crate::llm::body::{call_item, input_items, output_item, ToolInfo};
use crate::llm::{
    call_views, copy_calls, message_views, CallView, Delta, DeltaView, LlmConfig,
    Message, MessageView, ToolCall,
};
use crate::memory::History;
use crate::text::{
    byte_count, byte_len, chars_of, has_prefix, join, joined, nat_text, starts_with, trim, trimmed, u64_text, views,
};

verus! {

/// How often the model is asked in one run.
pub const MAX_TURNS: usize = 6;

// ---------- events ----------

/// What a run reports while it goes on.
#[derive(Clone, Debug)]
pub enum AgentEvent {
    /// A piece of text.
    Text(String),
    /// A tool is about to run.
    ToolCall { name: String, args: String },
    /// The whole answer.
    Final(String),
    /// A tool failed; the model is told so.
    ToolError(String),
    /// The run came to its limit without an answer; the user is asked whether to go on.
    ContinuePrompt(String),
}

#[verifier::ext_equal]
pub enum EventView {
    Text(Seq<char>),
    ToolCall(Seq<char>, Seq<char>),
    Final(Seq<char>),
    ToolError(Seq<char>),
    ContinuePrompt(Seq<char>),
}

impl View for AgentEvent {
    type V = EventView;

    open spec fn view(&self) -> EventView {
        match self {
            AgentEvent::Text(t) => EventView::Text(t@),
            AgentEvent::ToolCall { name, args } => EventView::ToolCall(name@, args@),
            AgentEvent::Final(t) => EventView::Final(t@),
            AgentEvent::ToolError(t) => EventView::ToolError(t@),
            AgentEvent::ContinuePrompt(t) => EventView::ContinuePrompt(t@),
        }
    }
}

pub open spec fn event_views(events: Seq<AgentEvent>) -> Seq<EventView> {
    events.map_values(|e: AgentEvent| e@)
}

fn push_event(events: &mut Vec<AgentEvent>, e: AgentEvent)
    ensures
        event_views(final(events)@) == event_views(old(events)@).push(e@),
{
    let ghost before = events@;
    events.push(e);
    assert(event_views(events@) =~= event_views(before).push(e@));
}

/// The text of a run: its pieces and its answer, one after the other.
pub open spec fn events_text(events: Seq<EventView>) -> Seq<char>
    decreases events.len(),
{
    if events.len() == 0 {
        Seq::empty()
    } else {
        events_text(events.drop_last()) + match events.last() {
            EventView::Text(t) => t,
            EventView::Final(t) => t,
            _ => Seq::empty(),
        }
    }
}

/// [`events_text`].
pub fn collect_text(events: &Vec<AgentEvent>) -> (r: String)
    ensures
        r@ == events_text(event_views(events@)),
{
    let ghost all = event_views(events@);
    let mut r = String::new();
    let mut i: usize = 0;
    assert(r@ =~= events_text(all.take(0)));
    while i < events.len()
        invariant
            i <= events@.len(),
            all == event_views(events@),
            r@ == events_text(all.take(i as int)),
        decreases events@.len() - i,
    {
        assert(all.take(i + 1).drop_last() =~= all.take(i as int));
        assert(all[i as int] == events@[i as int]@);
        match &events[i] {
            AgentEvent::Text(t) => r.append(t.as_str()),
            AgentEvent::Final(t) => r.append(t.as_str()),
            _ => {},
        }
        i += 1;
        assert(r@ =~= events_text(all.take(i as int)));
    }
    assert(all.take(all.len() as int) =~= all);
    r
}

// ---------- a run, step by step ----------

/// Where a run stands.
#[verifier::ext_equal]
pub enum PhaseView {
    /// The model has been asked; this much of its reply is in.
    Reading { text: Seq<char>, calls: Option<Seq<CallView>>, cut: bool },
    /// The calls before `next` are done, the call at `next` is running.
    Calling { calls: Seq<CallView>, next: nat },
    /// The model has answered.
    Answered { text: Seq<char> },
    /// The limit was reached.
    Stopped,
}

/// A run: the conversation, how many replies of the model are complete, where it stands, and what
/// it has reported.
#[verifier::ext_equal]
pub struct RunView {
    pub history: Seq<MessageView>,
    pub turn: nat,
    pub phase: PhaseView,
    pub events: Seq<EventView>,
}

pub open spec fn nothing_read() -> PhaseView {
    PhaseView::Reading { text: ""@, calls: None, cut: false }
}

/// A run that begins with this conversation.
pub open spec fn begun_run(history: Seq<MessageView>) -> RunView {
    RunView { history, turn: 0, phase: nothing_read(), events: Seq::empty() }
}

pub open spec fn continue_text() -> Seq<char> {
    "（已达到最大轮次 "@ + nat_text(MAX_TURNS as nat) + "，是否继续？回复「继续」即可）"@
}

/// One more reply is complete: the model is asked again, or the limit is reached.
pub open spec fn next_turn(r: RunView) -> RunView {
    if r.turn + 1 < MAX_TURNS {
        RunView { turn: r.turn + 1, phase: nothing_read(), ..r }
    } else {
        RunView {
            turn: r.turn + 1,
            phase: PhaseView::Stopped,
            events: r.events.push(EventView::ContinuePrompt(continue_text())),
            ..r
        }
    }
}

/// What the model said, as a message of the conversation.
pub open spec fn reply_message(text: Seq<char>, calls: Option<Seq<CallView>>) -> MessageView {
    MessageView {
        role: "assistant"@,
        content: if text.len() == 0 {
            None
        } else {
            Some(text)
        },
        tool_calls: calls,
        tool_call_id: None,
        name: None,
    }
}

/// The call at `next` starts, or, where there is none left, the model is asked again.
pub open spec fn next_call(r: RunView, calls: Seq<CallView>, next: nat) -> RunView {
    if next < calls.len() {
        RunView {
            phase: PhaseView::Calling { calls, next },
            events: r.events.push(
                EventView::ToolCall(calls[next as int].name, calls[next as int].arguments),
            ),
            ..r
        }
    } else {
        next_turn(r)
    }
}

/// What happens to a run.
pub enum Input {
    /// The reply brings this.
    Says(DeltaView),
    /// The reply is over.
    ReplyEnds,
    /// The tool that runs gave this back, or failed with these words.
    ToolGives(Result<Seq<char>, Seq<char>>),
}

pub open spec fn on_delta(r: RunView, d: DeltaView) -> RunView {
    match r.phase {
        PhaseView::Reading { text, calls, cut } => match d {
            DeltaView::Text(t) => RunView {
                phase: PhaseView::Reading { text: text + t, calls, cut },
                events: r.events.push(EventView::Text(t)),
                ..r
            },
            DeltaView::ToolCalls(c) => RunView {
                phase: PhaseView::Reading { text, calls: Some(c), cut },
                ..r
            },
            DeltaView::Final => r,
            DeltaView::Truncated => RunView {
                phase: PhaseView::Reading { text, calls, cut: true },
                ..r
            },
        },
        _ => r,
    }
}

/// Calls come first; a reply that was cut off is continued; any other reply is the answer.
pub open spec fn on_reply_end(r: RunView) -> RunView {
    match r.phase {
        PhaseView::Reading { text, calls, cut } => {
            let said = RunView { history: r.history.push(reply_message(text, calls)), ..r };
            match calls {
                Some(c) => next_call(said, c, 0),
                None => if cut {
                    next_turn(said)
                } else {
                    RunView {
                        phase: PhaseView::Answered { text },
                        events: r.events.push(EventView::Final(text)),
                        ..said
                    }
                },
            }
        },
        _ => r,
    }
}

pub open spec fn result_text(given: Result<Seq<char>, Seq<char>>) -> Seq<char> {
    match given {
        Ok(t) => t,
        Err(e) => "[工具错误] "@ + e,
    }
}

pub open spec fn on_tool(r: RunView, given: Result<Seq<char>, Seq<char>>) -> RunView {
    match r.phase {
        PhaseView::Calling { calls, next } => {
            let call = calls[next as int];
            let told = RunView {
                history: r.history.push(
                    MessageView::result_of(call.id, call.name, result_text(given)),
                ),
                events: match given {
                    Ok(_) => r.events,
                    Err(_) => r.events.push(EventView::ToolError(result_text(given))),
                },
                ..r
            };
            next_call(told, calls, next + 1)
        },
        _ => r,
    }
}

pub open spec fn step(r: RunView, input: Input) -> RunView {
    match input {
        Input::Says(d) => on_delta(r, d),
        Input::ReplyEnds => on_reply_end(r),
        Input::ToolGives(given) => on_tool(r, given),
    }
}

/// A run after all that happened to it.
pub open spec fn played(r: RunView, inputs: Seq<Input>) -> RunView
    decreases inputs.len(),
{
    if inputs.len() == 0 {
        r
    } else {
        step(played(r, inputs.drop_last()), inputs.last())
    }
}

// ---------- the agent ----------

/// What the driver of a run does next.
pub enum Step {
    /// Ask the model, with the conversation as it is.
    Ask,
    /// Run the tool that this call names.
    Call(ToolCall),
    /// The run is over. Where there are messages, the model is to be asked with them for
    /// statements worth keeping.
    Answered(Option<Vec<Message>>),
    /// The run came to its limit.
    Stopped,
}

pub enum Phase {
    Reading { text: String, calls: Option<Vec<ToolCall>>, cut: bool },
    Calling { calls: Vec<ToolCall>, next: usize },
    Answered { text: String },
    Stopped,
}

pub open spec fn opt_calls(calls: Option<Vec<ToolCall>>) -> Option<Seq<CallView>> {
    match calls {
        Some(c) => Some(call_views(c@)),
        None => None,
    }
}

impl View for Phase {
    type V = PhaseView;

    open spec fn view(&self) -> PhaseView {
        match self {
            Phase::Reading { text, calls, cut } => PhaseView::Reading {
                text: text@,
                calls: opt_calls(*calls),
                cut: *cut,
            },
            Phase::Calling { calls, next } => PhaseView::Calling {
                calls: call_views(calls@),
                next: *next as nat,
            },
            Phase::Answered { text } => PhaseView::Answered { text: text@ },
            Phase::Stopped => PhaseView::Stopped,
        }
    }
}

/// The part of a run that is not the conversation.
pub struct Run {
    pub turn: usize,
    pub phase: Phase,
    pub events: Vec<AgentEvent>,
}

impl Run {
    /// A run does not go past its limit, and a call that runs is one of those asked for.
    pub open spec fn wf(self) -> bool {
        &&& self.turn <= MAX_TURNS
        &&& !(self.phase is Stopped) ==> self.turn < MAX_TURNS
        &&& self.phase matches Phase::Calling { calls, next } ==> next < calls@.len()
    }

    /// The run together with the conversation it belongs to.
    pub open spec fn with(self, history: Seq<MessageView>) -> RunView {
        RunView {
            history,
            turn: self.turn as nat,
            phase: self.phase@,
            events: event_views(self.events@),
        }
    }

    fn begin() -> (r: Run)
        ensures
            r.wf(),
            forall|h: Seq<MessageView>| r.with(h) == begun_run(h),
    {
        let r = Run {
            turn: 0,
            phase: Phase::Reading { text: "".to_owned(), calls: None, cut: false },
            events: Vec::new(),
        };
        assert(event_views(r.events@) =~= Seq::empty());
        r
    }
}

/// The agent: how to reach the model, the conversation, and what the user said last.
pub struct Agent {
    pub cfg: LlmConfig,
    pub history: History,
    /// Whether statements are kept across conversations.
    pub remembers: bool,
    pub top_k: usize,
    pub last_input: Option<String>,
}

/// Whether the kept statements are searched for this input. Input of fewer than four characters
/// and commands are not worth a search.
pub open spec fn worth_recalling(input: Seq<char>) -> bool {
    trimmed(input).len() >= 4 && !starts_with(trimmed(input), "/"@)
}

pub open spec fn hit_lines(hits: Seq<Seq<char>>) -> Seq<Seq<char>> {
    hits.map_values(|h: Seq<char>| "- "@ + h)
}

/// The input with the statements found for it.
pub open spec fn input_with(input: Seq<char>, hits: Seq<Seq<char>>) -> Seq<char> {
    if hits.len() == 0 {
        input
    } else {
        input + "\n\n"@ + "[长期记忆]\n"@ + joined(hit_lines(hits), "\n"@)
    }
}

/// Whether an exchange may hold something worth keeping: the input is no command and has at least
/// eight bytes, and there is an answer.
pub open spec fn worth_remembering(input: Seq<char>, reply: Seq<char>) -> bool {
    &&& byte_count(trimmed(input)) >= 8
    &&& !starts_with(trimmed(input), "/"@)
    &&& trimmed(reply).len() > 0
}

/// The messages that ask the model for statements worth keeping.
pub open spec fn extraction(input: Seq<char>, reply: Seq<char>) -> Seq<MessageView> {
    seq![
        MessageView::said("system"@, EXTRACT_PROMPT@),
        MessageView::said(
            "user"@,
            "用户输入：\n"@ + input + "\n\n助手答复：\n"@ + reply + "\n\n请抽取值得长期记住的信息。"@,
        ),
    ]
}

/// What the model is asked for when this answer ends a run.
pub open spec fn to_extract(
    remembers: bool,
    last_input: Option<Seq<char>>,
    reply: Seq<char>,
) -> Option<Seq<MessageView>> {
    match last_input {
        Some(input) => if remembers && worth_remembering(input, reply) {
            Some(extraction(input, reply))
        } else {
            None
        },
        None => None,
    }
}

/// Whether a step is the one that follows from where the run stands.
pub open spec fn follows(s: Step, phase: PhaseView, agent: Agent) -> bool {
    match (phase, s) {
        (PhaseView::Reading { .. }, Step::Ask) => true,
        (PhaseView::Calling { calls, next }, Step::Call(c)) => c@ == calls[next as int],
        (PhaseView::Answered { text }, Step::Answered(messages)) => match messages {
            Some(m) => to_extract(
                agent.remembers,
                crate::text::opt_view(agent.last_input),
                text,
            ) == Some(message_views(m@)),
            None => to_extract(
                agent.remembers,
                crate::text::opt_view(agent.last_input),
                text,
            ) is None,
        },
        (PhaseView::Stopped, Step::Stopped) => true,
        _ => false,
    }
}

fn text_or_none(text: &String) -> (r: Option<String>)
    ensures
        crate::text::opt_view(r) == reply_message(text@, None).content,
{
    if text.as_str().is_empty() {
        None
    } else {
        Some(text.clone())
    }
}

/// The messages that ask the model for statements worth keeping, where the exchange is worth it.
pub fn maybe_remember(input: &str, reply: &str) -> (r: Option<Vec<Message>>)
    ensures
        match r {
            Some(m) => worth_remembering(input@, reply@) && message_views(m@) == extraction(
                input@,
                reply@,
            ),
            None => !worth_remembering(input@, reply@),
        },
{
    let t = trim(input);
    if byte_len(t.as_str()) < 8 || has_prefix(t.as_str(), "/") || trim(reply).as_str().is_empty() {
        return None;
    }
    let mut ask = "用户输入：\n".to_owned();
    ask.append(input);
    ask.append("\n\n助手答复：\n");
    ask.append(reply);
    ask.append("\n\n请抽取值得长期记住的信息。");
    let mut m: Vec<Message> = Vec::new();
    m.push(Message::system(EXTRACT_PROMPT));
    m.push(Message::user(ask.as_str()));
    assert(message_views(m@) =~= extraction(input@, reply@));
    Some(m)
}

impl Agent {
    /// A fresh agent. The list of the tools of other servers goes behind the persona.
    pub fn new(
        cfg: LlmConfig,
        persona: String,
        tools: &Vec<ToolInfo>,
        remembers: bool,
        top_k: usize,
    ) -> (r: Agent)
        ensures
            r.cfg == cfg,
            r.remembers == remembers,
            r.top_k == top_k,
            r.last_input is None,
            exists|names: Seq<Seq<char>>|
                are_mcp_names(names, tools@) && r.history@ == seq![
                    MessageView::said("system"@, persona@ + #[trigger] mcp_summary(names, tools@)),
                ],
    {
        let mut system = persona;
        let summary = build_mcp_summary(tools);
        system.append(summary.as_str());
        Agent { cfg, history: History::new(system), remembers, top_k, last_input: None }
    }

    /// Whether the kept statements are to be searched before a run with this input.
    pub fn recalls(&self, input: &str) -> (r: bool)
        ensures
            r == (self.remembers && worth_recalling(input@)),
    {
        let t = trim(input);
        self.remembers && chars_of(t.as_str()).len() >= 4 && !has_prefix(t.as_str(), "/")
    }

    /// Begins a run with an input. `hits` are the statements found for it.
    pub fn chat_stream(&mut self, input: &str, hits: &Vec<String>) -> (r: Run)
        ensures
            r.wf(),
            r.with(final(self).history@) == begun_run(
                old(self).history@.push(
                    MessageView::said("user"@, input_with(input@, views(hits@))),
                ),
            ),
            final(self).last_input matches Some(l) && l@ == input@,
            final(self).cfg == old(self).cfg,
            final(self).remembers == old(self).remembers,
            final(self).top_k == old(self).top_k,
    {
        self.last_input = Some(input.to_owned());
        let mut text = input.to_owned();
        if hits.len() > 0 {
            let ghost all = hit_lines(views(hits@));
            let mut lines: Vec<String> = Vec::new();
            let mut i: usize = 0;
            assert(views(lines@) =~= all.take(0));
            while i < hits.len()
                invariant
                    i <= hits@.len(),
                    all == hit_lines(views(hits@)),
                    views(lines@) == all.take(i as int),
                decreases hits@.len() - i,
            {
                let mut line = "- ".to_owned();
                line.append(hits[i].as_str());
                let ghost before = lines@;
                lines.push(line);
                assert(line@ == all[i as int]);
                assert(views(lines@) =~= views(before).push(line@));
                assert(views(lines@) =~= all.take(i + 1));
                i += 1;
            }
            assert(all.take(all.len() as int) =~= all);
            text.append("\n\n");
            text.append("[长期记忆]\n");
            text.append(join(&lines, "\n").as_str());
        }
        self.history.add(Message::user(text.as_str()));
        Run::begin()
    }

    /// Begins a run that goes on where the last one came to its limit.
    pub fn continue_stream(&self) -> (r: Run)
        ensures
            r.wf(),
            r.with(self.history@) == begun_run(self.history@),
    {
        Run::begin()
    }

    /// Takes in one piece of the reply.
    pub fn on_delta(&self, run: &mut Run, d: Delta)
        requires
            old(run).wf(),
            old(run).phase is Reading,
        ensures
            final(run).wf(),
            final(run).with(self.history@) == on_delta(old(run).with(self.history@), d@),
    {
        let mut phase = Phase::Stopped;
        std::mem::swap(&mut phase, &mut run.phase);
        match phase {
            Phase::Reading { text, calls, cut } => {
                match d {
                    Delta::Text(t) => {
                        let mut text = text;
                        text.append(t.as_str());
                        run.phase = Phase::Reading { text, calls, cut };
                        push_event(&mut run.events, AgentEvent::Text(t));
                    },
                    Delta::ToolCalls(c) => {
                        run.phase = Phase::Reading { text, calls: Some(c), cut };
                    },
                    Delta::Final => {
                        run.phase = Phase::Reading { text, calls, cut };
                    },
                    Delta::Truncated => {
                        run.phase = Phase::Reading { text, calls, cut: true };
                    },
                }
            },
            other => {
                run.phase = other;
            },
        }
        assert(run.with(self.history@) =~= on_delta(old(run).with(self.history@), d@));
    }

    fn next_turn(&self, run: &mut Run) -> (r: Step)
        requires
            old(run).turn < MAX_TURNS,
        ensures
            final(run).wf(),
            final(run).with(self.history@) == next_turn(old(run).with(self.history@)),
            follows(r, final(run).phase@, *self),
    {
        run.turn = run.turn + 1;
        if run.turn < MAX_TURNS {
            run.phase = Phase::Reading { text: "".to_owned(), calls: None, cut: false };
            Step::Ask
        } else {
            let mut note = "（已达到最大轮次 ".to_owned();
            note.append(u64_text(MAX_TURNS as u64).as_str());
            note.append("，是否继续？回复「继续」即可）");
            run.phase = Phase::Stopped;
            push_event(&mut run.events, AgentEvent::ContinuePrompt(note));
            Step::Stopped
        }
    }

    fn next_call(&self, run: &mut Run, calls: Vec<ToolCall>, next: usize) -> (r: Step)
        requires
            old(run).turn < MAX_TURNS,
        ensures
            final(run).wf(),
            final(run).with(self.history@) == next_call(
                old(run).with(self.history@),
                call_views(calls@),
                next as nat,
            ),
            follows(r, final(run).phase@, *self),
    {
        if next < calls.len() {
            let call = calls[next].duplicate();
            push_event(
                &mut run.events,
                AgentEvent::ToolCall {
                    name: call.function.name.clone(),
                    args: call.function.arguments.clone(),
                },
            );
            run.phase = Phase::Calling { calls, next };
            Step::Call(call)
        } else {
            self.next_turn(run)
        }
    }

    /// Takes in that the reply is over.
    pub fn on_reply_end(&mut self, run: &mut Run) -> (r: Step)
        requires
            old(run).wf(),
            old(run).phase is Reading,
        ensures
            final(run).wf(),
            final(run).with(final(self).history@) == on_reply_end(
                old(run).with(old(self).history@),
            ),
            follows(r, final(run).phase@, *final(self)),
            final(self).last_input == old(self).last_input,
            final(self).cfg == old(self).cfg,
            final(self).remembers == old(self).remembers,
            final(self).top_k == old(self).top_k,
    {
        let mut phase = Phase::Stopped;
        std::mem::swap(&mut phase, &mut run.phase);
        match phase {
            Phase::Reading { text, calls, cut } => {
                match calls {
                    Some(c) => {
                        let m = Message {
                            role: "assistant".to_owned(),
                            content: text_or_none(&text),
                            tool_calls: Some(copy_calls(&c)),
                            tool_call_id: None,
                            name: None,
                        };
                        assert(m@ == reply_message(text@, Some(call_views(c@))));
                        self.history.add(m);
                        let r = self.next_call(run, c, 0);
                        assert(run.with(self.history@) =~= on_reply_end(
                            old(run).with(old(self).history@),
                        ));
                        r
                    },
                    None => {
                        let m = Message {
                            role: "assistant".to_owned(),
                            content: text_or_none(&text),
                            tool_calls: None,
                            tool_call_id: None,
                            name: None,
                        };
                        assert(m@ == reply_message(text@, None));
                        self.history.add(m);
                        if cut {
                            let r = self.next_turn(run);
                            assert(run.with(self.history@) =~= on_reply_end(
                                old(run).with(old(self).history@),
                            ));
                            return r;
                        }
                        push_event(&mut run.events, AgentEvent::Final(text.clone()));
                        let messages = match &self.last_input {
                            Some(input) => {
                                if self.remembers {
                                    maybe_remember(input.as_str(), text.as_str())
                                } else {
                                    None
                                }
                            },
                            None => None,
                        };
                        run.phase = Phase::Answered { text };
                        assert(run.with(self.history@) =~= on_reply_end(
                            old(run).with(old(self).history@),
                        ));
                        Step::Answered(messages)
                    },
                }
            },
            other => {
                run.phase = other;
                Step::Stopped
            },
        }
    }

    /// Takes in what the tool gave back, or the words with which it failed.
    pub fn on_tool(&mut self, run: &mut Run, given: Result<String, String>) -> (r: Step)
        requires
            old(run).wf(),
            old(run).phase is Calling,
        ensures
            final(run).wf(),
            final(run).with(final(self).history@) == on_tool(
                old(run).with(old(self).history@),
                match given {
                    Ok(t) => Ok(t@),
                    Err(e) => Err(e@),
                },
            ),
            follows(r, final(run).phase@, *final(self)),
            final(self).last_input == old(self).last_input,
            final(self).cfg == old(self).cfg,
            final(self).remembers == old(self).remembers,
            final(self).top_k == old(self).top_k,
    {
        let mut phase = Phase::Stopped;
        std::mem::swap(&mut phase, &mut run.phase);
        match phase {
            Phase::Calling { calls, next } => {
                let text = match given {
                    Ok(t) => t,
                    Err(e) => {
                        let mut msg = "[工具错误] ".to_owned();
                        msg.append(e.as_str());
                        push_event(&mut run.events, AgentEvent::ToolError(msg.clone()));
                        msg
                    },
                };
                let m = Message::tool_result(
                    calls[next].id.as_str(),
                    calls[next].function.name.as_str(),
                    text,
                );
                assert(call_views(calls@)[next as int] == calls@[next as int]@);
                self.history.add(m);
                let n: usize = calls.len();
                assert(next < n);
                self.next_call(run, calls, next + 1)
            },
            other => {
                run.phase = other;
                Step::Stopped
            },
        }
    }
}

// ---------- laws ----------

/// Whether the run stands as a run can: below its limit unless it stopped, and with the call that
/// runs among those asked for.
pub open spec fn run_ok(r: RunView) -> bool {
    &&& r.turn <= MAX_TURNS
    &&& !(r.phase is Stopped) ==> r.turn < MAX_TURNS
    &&& r.phase matches PhaseView::Calling { calls, next } ==> next < calls.len()
}

/// How often the model was asked up to here: once for each complete reply, and once more where a
/// reply or the calls of one are still open or the reply was the answer.
pub open spec fn asked(r: RunView) -> nat {
    match r.phase {
        PhaseView::Stopped => r.turn,
        _ => r.turn + 1,
    }
}

proof fn lemma_played_ok(r: RunView, inputs: Seq<Input>)
    requires
        run_ok(r),
    ensures
        run_ok(played(r, inputs)),
    decreases inputs.len(),
{
    if inputs.len() > 0 {
        lemma_played_ok(r, inputs.drop_last());
    }
}

/// Whatever the model says and the tools give back, the model is asked at most [`MAX_TURNS`] times
/// in a run.
pub proof fn turns_are_limited(history: Seq<MessageView>, inputs: Seq<Input>)
    ensures
        asked(played(begun_run(history), inputs)) <= MAX_TURNS,
{
    lemma_played_ok(begun_run(history), inputs);
}

/// A run only adds to the conversation: what was said before it stays, the system message at the
/// start among it.
pub proof fn history_only_grows(r: RunView, inputs: Seq<Input>)
    ensures
        r.history.len() <= played(r, inputs).history.len(),
        played(r, inputs).history.take(r.history.len() as int) == r.history,
    decreases inputs.len(),
{
    if inputs.len() == 0 {
        assert(r.history.take(r.history.len() as int) =~= r.history);
    } else {
        let before = played(r, inputs.drop_last());
        history_only_grows(r, inputs.drop_last());
        lemma_step_grows(before, inputs.last());
        let after = step(before, inputs.last());
        assert(after.history.take(r.history.len() as int) =~= before.history.take(
            r.history.len() as int,
        ));
    }
}

proof fn lemma_step_grows(r: RunView, input: Input)
    ensures
        r.history.len() <= step(r, input).history.len(),
        forall|i: int| 0 <= i < r.history.len() ==> #[trigger] step(r, input).history[i] == r.history[i],
{
}

/// A run only adds to what it has reported.
pub proof fn events_only_grow(r: RunView, inputs: Seq<Input>)
    ensures
        r.events.len() <= played(r, inputs).events.len(),
        played(r, inputs).events.take(r.events.len() as int) == r.events,
    decreases inputs.len(),
{
    if inputs.len() == 0 {
        assert(r.events.take(r.events.len() as int) =~= r.events);
    } else {
        let before = played(r, inputs.drop_last());
        events_only_grow(r, inputs.drop_last());
        let after = step(before, inputs.last());
        assert(after.events.take(r.events.len() as int) =~= before.events.take(
            r.events.len() as int,
        ));
    }
}

/// Whether a message says what a tool gave back for this call.
pub open spec fn answers(m: MessageView, c: CallView) -> bool {
    &&& m.role == "tool"@
    &&& m.content is Some
    &&& m.tool_calls is None
    &&& m.tool_call_id == Some(c.id)
    &&& m.name == Some(c.name)
}

/// Whether the first `n` calls of the message at `i` are answered by the messages right behind it,
/// in the order of the calls.
pub open spec fn answered_from(h: Seq<MessageView>, i: int, n: int) -> bool {
    h[i].tool_calls matches Some(calls) ==> {
        &&& n <= calls.len()
        &&& i + n < h.len()
        &&& forall|k: int| 0 <= k < n ==> answers(#[trigger] h[i + 1 + k], calls[k])
    }
}

/// Whether all calls of all messages before `end` are answered.
pub open spec fn all_answered(h: Seq<MessageView>, end: int) -> bool {
    forall|i: int|
        0 <= i < end ==> (#[trigger] h[i].tool_calls matches Some(calls) ==> answered_from(
            h,
            i,
            calls.len() as int,
        ))
}

/// What holds of the calls at every point of a run: those of earlier replies are answered, and of
/// those that are running, the ones before the current call.
pub open spec fn calls_ok(r: RunView) -> bool {
    match r.phase {
        PhaseView::Calling { calls, next } => {
            let at = r.history.len() - 1 - next;
            &&& 0 <= at
            &&& next < calls.len()
            &&& r.history[at].tool_calls == Some(calls)
            &&& answered_from(r.history, at, next as int)
            &&& all_answered(r.history, at)
            &&& forall|i: int| at < i < r.history.len() ==> #[trigger] r.history[i].tool_calls is None
        },
        _ => all_answered(r.history, r.history.len() as int),
    }
}

proof fn lemma_answered_push(h: Seq<MessageView>, m: MessageView, end: int)
    requires
        all_answered(h, end),
        0 <= end <= h.len(),
    ensures
        all_answered(h.push(m), end),
{
    let g = h.push(m);
    assert forall|i: int| 0 <= i < end implies (#[trigger] g[i].tool_calls matches Some(
        calls,
    ) ==> answered_from(g, i, calls.len() as int)) by {
        assert(g[i] == h[i]);
        if let Some(calls) = h[i].tool_calls {
            assert(answered_from(h, i, calls.len() as int));
            assert forall|k: int| 0 <= k < calls.len() implies answers(#[trigger] g[i + 1 + k], calls[k]) by {
                assert(answers(h[i + 1 + k], calls[k]));
            }
        }
    }
}

/// `calls_ok` is kept when the reply ends.
proof fn lemma_reply_keeps(r: RunView)
    requires
        calls_ok(r),
    ensures
        calls_ok(on_reply_end(r)),
{
    if let PhaseView::Reading { text, calls, cut } = r.phase {
        let m = reply_message(text, calls);
        let g = r.history.push(m);
        let n = r.history.len() as int;
        lemma_answered_push(r.history, m, n);
        let after = on_reply_end(r);
        assert(after.history == g);
        assert(g[n] == m);
        match calls {
            Some(c) => {
                if c.len() == 0 {
                    assert(all_answered(g, n + 1)) by {
                        assert forall|i: int| 0 <= i < n + 1 implies (#[trigger] g[i].tool_calls matches Some(
                            cs,
                        ) ==> answered_from(g, i, cs.len() as int)) by {
                            if i < n {
                                assert(all_answered(g, n));
                            }
                        }
                    }
                } else {
                    assert(answered_from(g, n, 0));
                }
            },
            None => {
                assert(all_answered(g, n + 1)) by {
                    assert forall|i: int| 0 <= i < n + 1 implies (#[trigger] g[i].tool_calls matches Some(
                        cs,
                    ) ==> answered_from(g, i, cs.len() as int)) by {
                        if i < n {
                            assert(all_answered(g, n));
                        }
                    }
                }
            },
        }
    }
}

/// `calls_ok` is kept when a tool gives something back.
proof fn lemma_tool_keeps(r: RunView, given: Result<Seq<char>, Seq<char>>)
    requires
        calls_ok(r),
    ensures
        calls_ok(on_tool(r, given)),
{
    if let PhaseView::Calling { calls, next } = r.phase {
        let at = r.history.len() - 1 - next;
        let c = calls[next as int];
        let m = MessageView::result_of(c.id, c.name, result_text(given));
        let g = r.history.push(m);
        let n = r.history.len() as int;
        lemma_answered_push(r.history, m, at);
        assert(g[at] == r.history[at]);
        assert(answered_from(g, at, next as int + 1)) by {
            assert forall|k: int| 0 <= k < next + 1 implies answers(#[trigger] g[at + 1 + k], calls[k]) by {
                if k < next {
                    assert(answers(r.history[at + 1 + k], calls[k]));
                } else {
                    assert(at + 1 + k == n);
                }
            }
        }
        assert forall|i: int| at < i < g.len() implies #[trigger] g[i].tool_calls is None by {
            if i < n {
                assert(r.history[i].tool_calls is None);
            }
        }
        if next + 1 == calls.len() {
            assert(all_answered(g, g.len() as int)) by {
                assert forall|i: int| 0 <= i < g.len() implies (#[trigger] g[i].tool_calls matches Some(
                    cs,
                ) ==> answered_from(g, i, cs.len() as int)) by {
                    if i < at {
                        assert(all_answered(g, at));
                    }
                }
            }
        } else {
            assert(g.len() - 1 - (next + 1) == at);
        }
    }
}

proof fn lemma_played_calls(r: RunView, inputs: Seq<Input>)
    requires
        calls_ok(r),
    ensures
        calls_ok(played(r, inputs)),
    decreases inputs.len(),
{
    if inputs.len() > 0 {
        lemma_played_calls(r, inputs.drop_last());
        let before = played(r, inputs.drop_last());
        lemma_reply_keeps(before);
        match inputs.last() {
            Input::ToolGives(given) => lemma_tool_keeps(before, given),
            _ => {},
        }
    }
}

/// Whenever the model is asked, and when a run ends, each call that was asked for has its answer:
/// right behind the message that asks for it, one answer for each call, in their order. A call
/// that failed or names no tool is answered with the error.
pub proof fn every_call_is_answered(history: Seq<MessageView>, inputs: Seq<Input>)
    requires
        all_answered(history, history.len() as int),
    ensures
        ({
            let r = played(begun_run(history), inputs);
            !(r.phase is Calling) ==> all_answered(r.history, r.history.len() as int)
        }),
{
    lemma_played_calls(begun_run(history), inputs);
}

/// A reply that was cut off is never taken for the answer.
pub proof fn cut_replies_are_continued(r: RunView, text: Seq<char>, calls: Option<Seq<CallView>>)
    requires
        r.phase == (PhaseView::Reading { text, calls, cut: true }),
    ensures
        !(on_reply_end(r).phase is Answered),
{
}

/// Pieces of text, one after the other.
pub open spec fn in_one(pieces: Seq<Seq<char>>) -> Seq<char>
    decreases pieces.len(),
{
    if pieces.len() == 0 {
        ""@
    } else {
        in_one(pieces.drop_last()) + pieces.last()
    }
}

pub open spec fn said(pieces: Seq<Seq<char>>) -> Seq<Input> {
    pieces.map_values(|t: Seq<char>| Input::Says(DeltaView::Text(t)))
}

proof fn lemma_said(r: RunView, pieces: Seq<Seq<char>>)
    requires
        r.phase == nothing_read(),
    ensures
        played(r, said(pieces)) == (RunView {
            phase: PhaseView::Reading { text: in_one(pieces), calls: None, cut: false },
            events: r.events + pieces.map_values(|t: Seq<char>| EventView::Text(t)),
            ..r
        }),
    decreases pieces.len(),
{
    let told = pieces.map_values(|t: Seq<char>| EventView::Text(t));
    if pieces.len() == 0 {
        assert(r.events + told =~= r.events);
    } else {
        let front = pieces.drop_last();
        lemma_said(r, front);
        assert(said(pieces).drop_last() =~= said(front));
        assert(r.events + told =~= (r.events + front.map_values(|t: Seq<char>| EventView::Text(t))).push(
            EventView::Text(pieces.last()),
        ));
    }
}

/// The answer is what the model said piece by piece: the same text is reported in pieces, reported
/// as a whole, and noted in the conversation.
pub proof fn answer_is_what_was_said(r: RunView, pieces: Seq<Seq<char>>)
    requires
        r.phase == nothing_read(),
    ensures
        ({
            let end = played(r, said(pieces).push(Input::ReplyEnds));
            let text = in_one(pieces);
            &&& end.phase == (PhaseView::Answered { text })
            &&& end.events == (r.events + pieces.map_values(
                |t: Seq<char>| EventView::Text(t),
            )).push(EventView::Final(text))
            &&& end.history == r.history.push(reply_message(text, None))
        }),
{
    lemma_said(r, pieces);
    assert(said(pieces).push(Input::ReplyEnds).drop_last() =~= said(pieces));
}

/// In a Responses request, each call and its answer carry the same id, whatever the tool gave
/// back.
pub proof fn calls_and_answers_share_their_id(m: MessageView, c: CallView)
    requires
        answers(m, c),
    ensures
        input_items(m) == seq![output_item(m)],
        call_item(c).text_at("call_id"@) == Some(c.id),
        output_item(m).text_at("call_id"@) == Some(c.id),
        output_item(m).text_at("output"@) == m.content,
{
    reveal_strlit("tool");
    reveal_strlit("assistant");
    assert("tool"@.len() != "assistant"@.len());
    reveal_strlit("type");
    reveal_strlit("call_id");
    reveal_strlit("output");
    reveal_strlit("name");
    reveal_strlit("arguments");
    assert("call_id"@.len() == 7 && "output"@.len() == 6 && "name"@.len() == 4 && "arguments"@.len()
        == 9 && "type"@.len() == 4);
}

} // verus!
