//! Laws of values: what the contracts speak of holds all that the values hold.
use vstd::prelude::*;
use crate::agent::turn::{event_views, opt_calls, AgentEvent, EventView, Phase, PhaseView, Run};
use crate::bot::{Outgoing, OutgoingView, Route, RouteView, Screen};
use crate::config::CronJob;
use crate::cron::commands::{Command, CommandView};
use crate::cron::{
    all_like, has_name, is_stored, push_failure, seed_views, seeded, stored_views, JobRecord,
    JobView,
};
use crate::json::{fields_view, items_view, lemma_items_view, Json, JsonView};
use crate::llm::body::ToolInfo;
use crate::llm::stream::{item_view, item_views, opt_delta, opt_item, CompletionsStream, ResponsesStream};
use crate::llm::{call_views, delta_views, message_views, Delta, DeltaView, Message, MessageView, ToolCall};
use crate::mcp::{header_views, opt_json, AnswerReader};
use crate::memory::{taken_over, Row, Search, SearchView};
use crate::text::{opt_view, views};
use crate::tools::cron::{action_view, Action, ActionView};
use crate::tools::{is_info, result_view, str_views, tool_views};

verus! {

/// A list stands for its items, all of them and in their order.
pub proof fn lists_hold_their_items(
    texts: Seq<String>,
    names: Seq<&str>,
    calls: Seq<ToolCall>,
    messages: Seq<Message>,
    deltas: Seq<Delta>,
    events: Seq<AgentEvent>,
    tools: Seq<ToolInfo>,
    headers: Seq<(String, String)>,
    i: int,
)
    ensures
        views(texts).len() == texts.len() && (0 <= i < texts.len() ==> views(texts)[i] == texts[i]@),
        str_views(names).len() == names.len() && (0 <= i < names.len() ==> str_views(names)[i] == names[i]@),
        call_views(calls).len() == calls.len() && (0 <= i < calls.len() ==> call_views(calls)[i] == calls[i]@),
        message_views(messages).len() == messages.len() && (0 <= i < messages.len() ==> message_views(messages)[i]
            == messages[i]@),
        delta_views(deltas).len() == deltas.len() && (0 <= i < deltas.len() ==> delta_views(deltas)[i] == deltas[i]@),
        event_views(events).len() == events.len() && (0 <= i < events.len() ==> event_views(events)[i] == events[i]@),
        tool_views(tools).len() == tools.len() && (0 <= i < tools.len() ==> tool_views(tools)[i] == tools[i]@),
        header_views(headers).len() == headers.len() && (0 <= i < headers.len() ==> header_views(headers)[i] == (
            headers[i].0@,
            headers[i].1@,
        )),
{
}

/// A message, a call and a tool stand for all their fields.
pub proof fn messages_hold_their_fields(m: Message, c: ToolCall, t: ToolInfo, s: String)
    ensures
        m@.role == m.role@,
        m.content is Some ==> m@.content == Some(m.content->0@),
        m.content is None ==> m@.content is None,
        m.tool_calls is Some ==> m@.tool_calls == Some(call_views(m.tool_calls->0@)),
        m.tool_calls is None ==> m@.tool_calls is None,
        m.tool_call_id is Some ==> m@.tool_call_id == Some(m.tool_call_id->0@),
        m.tool_call_id is None ==> m@.tool_call_id is None,
        m.name is Some ==> m@.name == Some(m.name->0@),
        m.name is None ==> m@.name is None,
        c@.id == c.id@ && c@.kind == c.kind@ && c@.name == c.function.name@ && c@.arguments == c.function.arguments@,
        t@.name == t.name@ && t@.description == t.description@ && t@.parameters == t.parameters@,
        opt_view(Some(s)) == Some(s@) && opt_view(None) is None,
{
}

/// What a run reports, and what a reply brings, stands for its kind and its texts.
pub proof fn events_hold_their_texts(s: String, args: String, calls: Vec<ToolCall>)
    ensures
        AgentEvent::Text(s)@ == EventView::Text(s@),
        (AgentEvent::ToolCall { name: s, args })@ == EventView::ToolCall(s@, args@),
        AgentEvent::Final(s)@ == EventView::Final(s@),
        AgentEvent::ToolError(s)@ == EventView::ToolError(s@),
        AgentEvent::ContinuePrompt(s)@ == EventView::ContinuePrompt(s@),
        Delta::Text(s)@ == DeltaView::Text(s@),
        Delta::ToolCalls(calls)@ == DeltaView::ToolCalls(call_views(calls@)),
        Delta::Final@ is Final && Delta::Truncated@ is Truncated,
        opt_calls(Some(calls)) == Some(call_views(calls@)) && opt_calls(None) is None,
{
}

/// What comes out of a stream stands for what it is, one item for one.
pub proof fn items_hold_what_came(d: Delta, e: String, items: Seq<Result<Delta, String>>, i: int)
    ensures
        opt_delta(Some(d)).len() == 1 && opt_delta(Some(d))[0] == d@ && opt_delta(None).len() == 0,
        opt_item(None).len() == 0,
        opt_item(Some(Ok(d))).len() == 1 && opt_item(Some(Ok(d)))[0] == Ok::<DeltaView, Seq<char>>(d@),
        opt_item(Some(Err(e))).len() == 1 && opt_item(Some(Err(e)))[0] == Err::<DeltaView, Seq<char>>(e@),
        item_view(Ok(d)) == Ok::<DeltaView, Seq<char>>(d@),
        item_view(Err(e)) == Err::<DeltaView, Seq<char>>(e@),
        item_views(items).len() == items.len(),
        0 <= i < items.len() ==> item_views(items)[i] == item_view(items[i]),
{
}

/// The state of a stream, of a screen and of a run stands for all that it has.
pub proof fn states_hold_their_fields(
    c: CompletionsStream,
    r: ResponsesStream,
    a: AnswerReader,
    screen: Screen,
    run: Run,
    history: Seq<MessageView>,
)
    ensures
        c@.calls == call_views(c.calls@) && c@.finish == opt_view(c.finish_reason) && c@.done == c.done,
        r@.calls == call_views(r.calls@) && r@.positions == r.positions@ && r@.status == opt_view(r.status),
        r@.ended == r.ended && r@.failed == r.failed,
        a@.data == a.data@ && a@.found == opt_json(a.found),
        screen@.buf == screen.buf@ && screen@.shown == screen.shown && screen@.log == screen.log@ && screen@.asking
            == screen.asking,
        run.with(history).history == history && run.with(history).turn == run.turn && run.with(history).events
            == event_views(run.events@),
        run.phase matches Phase::Reading { text, calls, cut } ==> run.with(history).phase == (PhaseView::Reading {
            text: text@,
            calls: opt_calls(calls),
            cut,
        }),
        run.phase matches Phase::Calling { calls, next } ==> run.with(history).phase == (PhaseView::Calling {
            calls: call_views(calls@),
            next: next as nat,
        }),
        run.phase matches Phase::Answered { text } ==> run.with(history).phase == (PhaseView::Answered { text: text@ }),
        run.phase is Stopped ==> run.with(history).phase is Stopped,
{
}

/// What is asked for and what is sent stands for its kind and its parts.
pub proof fn requests_hold_their_parts(s: String, n: i64, on: bool, name: String, schedule: String, prompt: String)
    ensures
        Route::Ignore@ is Ignore && Route::Restart@ is Restart && Route::Help@ is Help && Route::Talk@ is Talk,
        Route::Unknown(s)@ == RouteView::Unknown(s@),
        Outgoing::Nothing@ is Nothing,
        Outgoing::Edit(n, s)@ == OutgoingView::Edit(n, s@),
        Outgoing::Send(s, on)@ == OutgoingView::Send(s@, on),
        Search::Latest(n)@ == SearchView::Latest(n),
        Search::Matching(s, n)@ == SearchView::Matching(s@, n),
        Command::Tell(s)@ == CommandView::Tell(s@),
        Command::List@ is List,
        Command::Delete(n)@ == CommandView::Delete(n),
        Command::SetEnabled(n, on)@ == CommandView::SetEnabled(n, on),
        (Command::Add { name, schedule, chat_id: n, prompt })@ == (CommandView::Add {
            name: name@,
            schedule: schedule@,
            chat_id: n,
            prompt: prompt@,
        }),
        Action::List@ is List,
        Action::Delete(n)@ == ActionView::Delete(n),
        Action::SetEnabled(n, on)@ == ActionView::SetEnabled(n, on),
        (Action::Add { name, schedule, chat_id: n, prompt })@ == (ActionView::Add {
            name: name@,
            schedule: schedule@,
            chat_id: n,
            prompt: prompt@,
        }),
        action_view(Ok(Action::Delete(n))) == Ok::<ActionView, Seq<char>>(ActionView::Delete(n)),
        action_view(Err(s)) == Err::<ActionView, Seq<char>>(s@),
        result_view(Ok(s)) == Ok::<Seq<char>, Seq<char>>(s@),
        result_view(Err(s)) == Err::<Seq<char>, Seq<char>>(s@),
{
}

/// A JSON value stands for all it holds; of two fields of one key the later counts.
pub proof fn json_holds_what_it_holds(
    s: String,
    b: bool,
    items: Vec<Json>,
    fields: Seq<(String, Json)>,
    key: String,
    value: Json,
    i: int,
)
    ensures
        Json::Null@ is Null,
        Json::Bool(b)@ == JsonView::Bool(b),
        Json::Str(s)@ == JsonView::Str(s@),
        Json::Array(items)@ is Array && Json::Array(items)@->Array_0.len() == items@.len(),
        0 <= i < items@.len() ==> Json::Array(items)@->Array_0[i] == items@[i]@,
        fields_view(fields.push((key, value))) == fields_view(fields).insert(key@, value@),
        fields_view(Seq::empty()) == Map::<Seq<char>, JsonView>::empty(),
        opt_json(Some(value)) == Some(value@) && opt_json(None) is None,
{
    lemma_items_view(items@);
    assert(Json::Array(items)@ == JsonView::Array(items_view(items@)));
    assert(fields.push((key, value)).drop_last() =~= fields);
}

/// Copies and rows have all that they are made of.
pub proof fn copies_are_whole(a: Seq<JobRecord>, b: Seq<JobRecord>, i: int, row: Row, old: (String, String))
    requires
        all_like(a, b),
        0 <= i < a.len(),
        taken_over(row, old),
    ensures
        a.len() == b.len(),
        a[i].id == b[i].id && a[i].name@ == b[i].name@ && a[i].schedule@ == b[i].schedule@ && a[i].prompt@
            == b[i].prompt@ && a[i].chat_id == b[i].chat_id && a[i].enabled == b[i].enabled,
        row.raw@ == old.0@ && row.created_at@ == old.1@ && row.indexed@ == crate::memory::index_text(old.0@),
{
    assert(a[i].like(b[i]));
}

/// Jobs stand for all their fields, in their order; a tool is described by all that it is described by.
pub proof fn jobs_hold_their_fields(jobs: Seq<JobRecord>, seeds: Seq<CronJob>, i: int, t: ToolInfo)
    ensures
        stored_views(jobs).len() == jobs.len() && seed_views(seeds).len() == seeds.len(),
        0 <= i < jobs.len() ==> stored_views(jobs)[i] == (JobView {
            name: jobs[i].name@,
            schedule: jobs[i].schedule@,
            prompt: jobs[i].prompt@,
            chat_id: jobs[i].chat_id,
            enabled: jobs[i].enabled,
        }),
        0 <= i < seeds.len() ==> seed_views(seeds)[i] == (JobView {
            name: seeds[i].name@,
            schedule: seeds[i].schedule@,
            prompt: seeds[i].prompt@,
            chat_id: seeds[i].chat_id,
            enabled: seeds[i].enabled,
        }),
        forall|n: Seq<char>, d: Seq<char>, s: JsonView| #[trigger] is_info(t, n, d, s) ==> t.name@ == n && t.description@
            == d && t.parameters@ == s,
{
}

/// The jobs of the configuration are stored in their order, each where none of its name is there yet.
pub proof fn seeds_are_stored_in_order(stored: Seq<JobView>, seeds: Seq<JobView>, s: JobView, jobs: Seq<JobRecord>, name: Seq<char>)
    ensures
        seeded(stored, Seq::empty()) == stored,
        (exists|i: int|
            0 <= i < seeded(stored, seeds).len() && (#[trigger] seeded(stored, seeds)[i]).name == s.name) ==> seeded(
            stored,
            seeds.push(s),
        ) == seeded(stored, seeds),
        (forall|i: int|
            0 <= i < seeded(stored, seeds).len() ==> (#[trigger] seeded(stored, seeds)[i]).name != s.name)
            ==> seeded(stored, seeds.push(s)) == seeded(stored, seeds).push(s),
        is_stored(jobs, name) <==> exists|i: int| 0 <= i < jobs.len() && (#[trigger] jobs[i]).name@ == name,
{
    assert(seeds.push(s).drop_last() =~= seeds);
    let before = seeded(stored, seeds);
    if exists|i: int| 0 <= i < before.len() && (#[trigger] before[i]).name == s.name {
        let i = choose|i: int| 0 <= i < before.len() && (#[trigger] before[i]).name == s.name;
        assert(before[i].name == s.name);
        assert(has_name(before, s.name));
    }
}

/// A message that could not be sent is told with its status and all its text.
pub proof fn push_failures_are_told(status: Seq<char>, text: Seq<char>)
    ensures
        push_failure(status, text) == "Telegram 推送失败 ["@ + status + "]: "@ + text,
{
}

} // verus!
