//! Laws of a run: what the model says and what the tools give back reaches the conversation whole.
use vstd::prelude::*;
use crate::agent::turn::{
    begun_run, continue_text, events_text, extraction, follows, hit_lines, input_with, next_turn, on_delta,
    on_reply_end, on_tool, played, to_extract, worth_recalling, worth_remembering, Agent, EventView, Input,
    PhaseView, RunView, Step,
};
use crate::agent::EXTRACT_PROMPT;
use crate::laws::texts::{joining_is_piecewise, trimming_keeps_the_core};
use crate::llm::{message_views, CallView, DeltaView, MessageView};
use crate::text::{is_white_space, joined, nat_text, opt_view, starts_with};

verus! {

/// What the model is told of the result of a tool: all of it, or all of the error behind a mark.
pub open spec fn told(given: Result<Seq<char>, Seq<char>>) -> Option<Seq<char>> {
    match given {
        Ok(t) => Some(t),
        Err(e) => Some("[工具错误] "@ + e),
    }
}

/// Whether a message is the answer to a call with just this content.
pub open spec fn is_answer(m: MessageView, call: CallView, given: Result<Seq<char>, Seq<char>>) -> bool {
    &&& m.role == "tool"@
    &&& m.content == told(given)
    &&& m.tool_call_id == Some(call.id)
    &&& m.name == Some(call.name)
    &&& m.tool_calls is None
}

/// Whether a message is what the model said, with the calls it asked for.
pub open spec fn is_reply(m: MessageView, text: Seq<char>, calls: Option<Seq<CallView>>) -> bool {
    &&& m.role == "assistant"@
    &&& text.len() > 0 ==> m.content == Some(text)
    &&& text.len() == 0 ==> m.content is None
    &&& m.tool_calls == calls
    &&& m.tool_call_id is None
    &&& m.name is None
}

proof fn lemma_asked(r: RunView)
    ensures
        ""@.len() == 0,
        asks_on(next_turn(r), r.turn),
{
    reveal_strlit("");
    reveal_strlit("（已达到最大轮次 6，是否继续？回复「继续」即可）");
    reveal_strlit("（已达到最大轮次 ");
    reveal_strlit("，是否继续？回复「继续」即可）");
    reveal_with_fuel(nat_text, 2);
    assert(nat_text(6) =~= seq!['6']);
    assert(continue_text() =~= "（已达到最大轮次 6，是否继续？回复「继续」即可）"@);
}

/// What a tool gives back is added to the conversation character for character, as the answer to
/// the call that runs, and nothing else is; a failure is added behind a mark and reported.
pub proof fn tool_results_reach_the_model(
    r: RunView,
    calls: Seq<CallView>,
    next: nat,
    given: Result<Seq<char>, Seq<char>>,
)
    requires
        r.phase == (PhaseView::Calling { calls, next }),
        next < calls.len(),
    ensures
        ({
            let after = on_tool(r, given);
            &&& after.history.len() == r.history.len() + 1
            &&& after.history.take(r.history.len() as int) == r.history
            &&& is_answer(after.history.last(), calls[next as int], given)
            &&& given is Err ==> after.events.len() > r.events.len()
                && after.events[r.events.len() as int] == EventView::ToolError(told(given)->0)
            &&& next + 1 < calls.len() ==> {
                &&& after.phase == (PhaseView::Calling { calls, next: next + 1 })
                &&& after.turn == r.turn
                &&& after.events.last() == EventView::ToolCall(
                    calls[next as int + 1].name,
                    calls[next as int + 1].arguments,
                )
                &&& given is Ok ==> after.events.len() == r.events.len() + 1
            }
            &&& next + 1 == calls.len() ==> asks_on(after, r.turn)
        }),
{
    lemma_asked(r);
    let after = on_tool(r, given);
    assert(after.history.take(r.history.len() as int) =~= r.history);
}

/// Whether a reply is awaited of which nothing has come yet.
pub open spec fn has_read_nothing(phase: PhaseView) -> bool {
    &&& phase is Reading
    &&& phase->Reading_text.len() == 0
    &&& phase->Reading_calls is None
    &&& !phase->Reading_cut
}

/// Whether the model is asked once more after `turn` replies and one more; after the sixth it is
/// not, and the user is asked instead.
pub open spec fn asks_on(r: RunView, turn: nat) -> bool {
    &&& r.turn == turn + 1
    &&& turn + 1 < 6 ==> has_read_nothing(r.phase)
    &&& turn + 1 >= 6 ==> r.phase is Stopped && r.events.len() > 0 && r.events.last()
        == EventView::ContinuePrompt("（已达到最大轮次 6，是否继续？回复「继续」即可）"@)
}

pub open spec fn given_back(results: Seq<Result<Seq<char>, Seq<char>>>) -> Seq<Input> {
    results.map_values(|g: Result<Seq<char>, Seq<char>>| Input::ToolGives(g))
}

/// The inputs of a reply that is over and of the results of its calls.
pub open spec fn reply_and_results(results: Seq<Result<Seq<char>, Seq<char>>>) -> Seq<Input> {
    seq![Input::ReplyEnds] + given_back(results)
}

#[verifier::spinoff_prover]
#[verifier::rlimit(50)]
proof fn lemma_batch(
    r: RunView,
    text: Seq<char>,
    calls: Seq<CallView>,
    cut: bool,
    results: Seq<Result<Seq<char>, Seq<char>>>,
)
    requires
        r.phase == (PhaseView::Reading { text, calls: Some(calls), cut }),
        calls.len() > 0,
        results.len() <= calls.len(),
    ensures
        ({
            let end = played(r, reply_and_results(results));
            let n = r.history.len() as int;
            &&& end.history.len() == n + 1 + results.len()
            &&& end.history.take(n) == r.history
            &&& is_reply(end.history[n], text, Some(calls))
            &&& forall|k: int|
                0 <= k < results.len() ==> is_answer(
                    #[trigger] end.history[n + 1 + k],
                    calls[k],
                    results[k],
                )
            &&& results.len() < calls.len() ==> {
                &&& end.phase == (PhaseView::Calling { calls, next: results.len() })
                &&& end.turn == r.turn
                &&& end.events.len() > 0
                &&& end.events.last() == EventView::ToolCall(
                    calls[results.len() as int].name,
                    calls[results.len() as int].arguments,
                )
            }
            &&& results.len() == calls.len() ==> asks_on(end, r.turn)
        }),
    decreases results.len(),
{
    let inputs = reply_and_results(results);
    let n = r.history.len() as int;
    if results.len() == 0 {
        assert(inputs.drop_last() =~= Seq::empty());
        assert(inputs.last() == Input::ReplyEnds);
        assert(played(r, Seq::empty()) == r);
        let end = played(r, inputs);
        assert(end == on_reply_end(r));
        assert(end.history.take(n) =~= r.history);
    } else {
        let front = results.drop_last();
        lemma_batch(r, text, calls, cut, front);
        assert(inputs.drop_last() =~= reply_and_results(front));
        assert(inputs.last() == Input::ToolGives(results.last()));
        let before = played(r, reply_and_results(front));
        let end = played(r, inputs);
        assert(end == on_tool(before, results.last()));
        tool_results_reach_the_model(before, calls, front.len(), results.last());
        assert(end.history.take(n) =~= before.history.take(n)) by {
            assert forall|i: int| 0 <= i < n implies end.history[i] == before.history[i] by {
                assert(end.history.take(before.history.len() as int)[i] == before.history[i]);
            }
        }
        assert(end.history[n] == before.history[n]) by {
            assert(end.history.take(before.history.len() as int)[n] == before.history[n]);
        }
        assert forall|k: int| 0 <= k < results.len() implies is_answer(
            #[trigger] end.history[n + 1 + k],
            calls[k],
            results[k],
        ) by {
            if k < front.len() {
                assert(end.history.take(before.history.len() as int)[n + 1 + k] == before.history[n + 1
                    + k]);
                assert(front[k] == results[k]);
                assert(is_answer(before.history[n + 1 + k], calls[k], front[k]));
            }
        }
    }
}

/// A reply with calls and the results of these calls reach the conversation in full: the reply with
/// its text and all its calls, then one answer for each call in the order of the calls, each with
/// just what the tool gave back. The calls run one after the other in that order, and then the model
/// is asked again.
pub proof fn calls_are_run_and_answered_in_order(
    r: RunView,
    text: Seq<char>,
    calls: Seq<CallView>,
    cut: bool,
    results: Seq<Result<Seq<char>, Seq<char>>>,
)
    requires
        r.phase == (PhaseView::Reading { text, calls: Some(calls), cut }),
        calls.len() > 0,
        results.len() == calls.len(),
    ensures
        ({
            let end = played(r, reply_and_results(results));
            let n = r.history.len() as int;
            &&& end.history.len() == n + 1 + calls.len()
            &&& end.history.take(n) == r.history
            &&& is_reply(end.history[n], text, Some(calls))
            &&& forall|k: int|
                0 <= k < calls.len() ==> is_answer(
                    #[trigger] end.history[n + 1 + k],
                    calls[k],
                    results[k],
                )
            &&& asks_on(end, r.turn)
        }),
        forall|k: int|
            0 <= k < calls.len() ==> (#[trigger] played(r, reply_and_results(results.take(k)))).phase == (
            PhaseView::Calling { calls, next: k as nat }),
        forall|k: int|
            0 <= k < calls.len() ==> (#[trigger] played(r, reply_and_results(results.take(k)))).events.last()
                == EventView::ToolCall(calls[k].name, calls[k].arguments),
{
    lemma_batch(r, text, calls, cut, results);
    assert forall|k: int| 0 <= k < calls.len() implies (#[trigger] played(
        r,
        reply_and_results(results.take(k)),
    )).phase == (PhaseView::Calling { calls, next: k as nat }) && played(
        r,
        reply_and_results(results.take(k)),
    ).events.last() == EventView::ToolCall(calls[k].name, calls[k].arguments) by {
        lemma_batch(r, text, calls, cut, results.take(k));
    }
}

/// What the answers to calls in a conversation say, one after the other.
pub open spec fn answers_in(history: Seq<MessageView>) -> Seq<Option<Seq<char>>>
    decreases history.len(),
{
    if history.len() == 0 {
        Seq::empty()
    } else if history.last().role == "tool"@ {
        answers_in(history.drop_last()).push(history.last().content)
    } else {
        answers_in(history.drop_last())
    }
}

/// What the tools gave back, one after the other, as the model is told of it.
pub open spec fn given_in(inputs: Seq<Input>) -> Seq<Option<Seq<char>>>
    decreases inputs.len(),
{
    if inputs.len() == 0 {
        Seq::empty()
    } else if inputs.last() is ToolGives {
        given_in(inputs.drop_last()).push(told(inputs.last()->ToolGives_0))
    } else {
        given_in(inputs.drop_last())
    }
}

/// Whether a tool is running.
pub open spec fn is_calling(r: RunView) -> bool {
    r.phase is Calling && r.phase->next < r.phase->Calling_calls.len()
}

/// Over a whole run, whatever else happens in it, the answers that are added to the conversation are
/// just what the tools gave back, character for character and in that order.
#[verifier::spinoff_prover]
#[verifier::rlimit(50)]
pub proof fn the_model_reads_what_the_tools_gave(r: RunView, inputs: Seq<Input>)
    requires
        forall|k: int|
            0 <= k < inputs.len() && #[trigger] inputs[k] is ToolGives ==> is_calling(played(r, inputs.take(k))),
    ensures
        answers_in(played(r, inputs).history) == answers_in(r.history) + given_in(inputs),
    decreases inputs.len(),
{
    if inputs.len() == 0 {
        assert(answers_in(r.history) + given_in(inputs) =~= answers_in(r.history));
    } else {
        let front = inputs.drop_last();
        let last = inputs.last();
        assert(inputs[inputs.len() - 1] == last);
        assert(inputs.take(inputs.len() - 1) =~= front);
        assert forall|k: int| 0 <= k < front.len() && #[trigger] front[k] is ToolGives implies is_calling(
            played(r, front.take(k)),
        ) by {
            assert(inputs[k] == front[k]);
            assert(inputs.take(k) =~= front.take(k));
        }
        the_model_reads_what_the_tools_gave(r, front);
        let before = played(r, front);
        let after = played(r, inputs);
        reveal_strlit("tool");
        reveal_strlit("assistant");
        match last {
            Input::ToolGives(given) => {
                let calls = before.phase->Calling_calls;
                tool_results_reach_the_model(before, calls, before.phase->next, given);
                assert(after.history.drop_last() =~= after.history.take(before.history.len() as int));
                assert(answers_in(after.history) =~= answers_in(r.history) + given_in(inputs));
            },
            Input::ReplyEnds => {
                if before.phase is Reading {
                    assert(after.history.drop_last() =~= before.history);
                    assert("tool"@.len() == 4 && "assistant"@.len() == 9);
                }
            },
            Input::Says(_) => {},
        }
    }
}

/// A reply without calls is noted in the conversation in full. Where it was not cut off, it is the
/// answer, reported in full; where it was, the model is asked to go on.
pub proof fn replies_are_noted_in_full(r: RunView, text: Seq<char>, cut: bool)
    requires
        r.phase == (PhaseView::Reading { text, calls: None, cut }),
    ensures
        ({
            let after = on_reply_end(r);
            &&& after.history.len() == r.history.len() + 1
            &&& after.history.take(r.history.len() as int) == r.history
            &&& is_reply(after.history.last(), text, None)
            &&& !cut ==> after.phase == (PhaseView::Answered { text }) && after.turn == r.turn
                && after.events == r.events.push(EventView::Final(text))
            &&& cut ==> asks_on(after, r.turn)
            &&& cut && r.turn + 1 < 6 ==> after.events == r.events
        }),
{
    lemma_asked(r);
    let after = on_reply_end(r);
    assert(after.history.take(r.history.len() as int) =~= r.history);
}

/// A reply that names an empty list of calls is noted, and the model is asked again.
pub proof fn empty_lists_of_calls_are_noted(r: RunView, text: Seq<char>, cut: bool)
    requires
        r.phase == (PhaseView::Reading { text, calls: Some(Seq::empty()), cut }),
    ensures
        ({
            let after = on_reply_end(r);
            &&& after.history.len() == r.history.len() + 1
            &&& after.history.take(r.history.len() as int) == r.history
            &&& is_reply(after.history.last(), text, Some(Seq::empty()))
            &&& asks_on(after, r.turn)
        }),
{
    let after = on_reply_end(r);
    lemma_asked(RunView { history: after.history, ..r });
    assert(after.history.take(r.history.len() as int) =~= r.history);
}

/// What happens to a run is taken in one by one, each as what it is.
pub proof fn runs_take_in_all_that_happens(
    r: RunView,
    inputs: Seq<Input>,
    d: DeltaView,
    given: Result<Seq<char>, Seq<char>>,
)
    ensures
        played(r, Seq::empty()) == r,
        played(r, inputs.push(Input::Says(d))) == on_delta(played(r, inputs), d),
        played(r, inputs.push(Input::ReplyEnds)) == on_reply_end(played(r, inputs)),
        played(r, inputs.push(Input::ToolGives(given))) == on_tool(played(r, inputs), given),
{
    assert(inputs.push(Input::Says(d)).drop_last() =~= inputs);
    assert(inputs.push(Input::ReplyEnds).drop_last() =~= inputs);
    assert(inputs.push(Input::ToolGives(given)).drop_last() =~= inputs);
}

/// Each piece of text is kept behind those before it and reported; the calls of a reply are taken
/// over as they are; nothing that a reply brings touches the conversation or what was reported.
pub proof fn pieces_are_kept(r: RunView, text: Seq<char>, calls: Option<Seq<CallView>>, cut: bool, d: DeltaView)
    requires
        r.phase == (PhaseView::Reading { text, calls, cut }),
    ensures
        ({
            let after = on_delta(r, d);
            &&& after.history == r.history
            &&& after.turn == r.turn
            &&& match d {
                DeltaView::Text(t) => after.events == r.events.push(EventView::Text(t)) && after.phase == (
                PhaseView::Reading { text: text + t, calls, cut }),
                DeltaView::ToolCalls(c) => after.events == r.events && after.phase == (
                PhaseView::Reading { text, calls: Some(c), cut }),
                DeltaView::Truncated => after.events == r.events && after.phase == (
                PhaseView::Reading { text, calls, cut: true }),
                DeltaView::Final => after == r,
            }
        }),
{
}

/// A run begins with the conversation as it is, with nothing read, nothing reported and no reply
/// counted.
pub proof fn runs_begin_afresh(history: Seq<MessageView>)
    ensures
        ({
            let r = begun_run(history);
            &&& r.history == history
            &&& r.turn == 0
            &&& r.events.len() == 0
            &&& has_read_nothing(r.phase)
        }),
{
    reveal_strlit("");
}

/// What a message of a role says is just the text; the answer to a call names the call.
pub proof fn messages_say_what_was_said(role: Seq<char>, text: Seq<char>, id: Seq<char>, name: Seq<char>)
    ensures
        MessageView::said(role, text) == (MessageView {
            role,
            content: Some(text),
            tool_calls: None,
            tool_call_id: None,
            name: None,
        }),
        MessageView::result_of(id, name, text) == (MessageView {
            role: "tool"@,
            content: Some(text),
            tool_calls: None,
            tool_call_id: Some(id),
            name: Some(name),
        }),
{
}

/// Each statement found for an input goes behind it, on a line of its own and in full; an input for
/// which nothing was found goes as it is.
pub proof fn statements_go_behind_the_input(input: Seq<char>, hits: Seq<Seq<char>>, hit: Seq<char>)
    ensures
        input_with(input, Seq::empty()) == input,
        input_with(input, seq![hit]) == input + "\n\n"@ + "[长期记忆]\n"@ + "- "@ + hit,
        hits.len() > 0 ==> input_with(input, hits.push(hit)) == input_with(input, hits) + "\n"@ + "- "@ + hit,
{
    let one = hit_lines(seq![hit]);
    assert(one =~= seq!["- "@ + hit]);
    assert(joined(one, "\n"@) == one[0]);
    assert(input_with(input, seq![hit]) =~= input + "\n\n"@ + "[长期记忆]\n"@ + "- "@ + hit);
    if hits.len() > 0 {
        assert(hit_lines(hits.push(hit)) =~= hit_lines(hits) + one);
        joining_is_piecewise(hit_lines(hits), one, "\n"@);
        assert(input_with(input, hits.push(hit)) =~= input_with(input, hits) + "\n"@ + "- "@ + hit);
    }
}

/// Kept statements are searched for an input of at least four characters that is no command.
pub proof fn inputs_worth_a_search(before: Seq<char>, core: Seq<char>, after: Seq<char>)
    requires
        forall|i: int| 0 <= i < before.len() ==> is_white_space(#[trigger] before[i]),
        forall|i: int| 0 <= i < after.len() ==> is_white_space(#[trigger] after[i]),
        core.len() > 0 ==> !is_white_space(core[0]) && !is_white_space(core.last()),
    ensures
        worth_recalling(before + core + after) == (core.len() >= 4 && core[0] != '/'),
{
    trimming_keeps_the_core(before, core, after);
    reveal_strlit("/");
    if core.len() > 0 {
        assert(core.take(1)[0] == core[0]);
        assert(core[0] == '/' ==> core.take(1) =~= "/"@);
        assert(starts_with(core, "/"@) == (core[0] == '/'));
    }
}

/// The model is asked for statements worth keeping with the whole input and the whole answer, and
/// only where statements are kept.
pub proof fn exchanges_are_handed_over_whole(
    remembers: bool,
    input: Seq<char>,
    reply: Seq<char>,
)
    ensures
        !remembers ==> to_extract(remembers, Some(input), reply) is None,
        to_extract(remembers, None, reply) is None,
        to_extract(remembers, Some(input), reply) is Some == (remembers && worth_remembering(input, reply)),
        to_extract(remembers, Some(input), reply) matches Some(m) ==> {
            &&& m.len() == 2
            &&& m[0].role == "system"@ && m[0].content == Some(EXTRACT_PROMPT@)
            &&& m[1].role == "user"@ && m[1].content == Some(
                "用户输入：\n"@ + input + "\n\n助手答复：\n"@ + reply + "\n\n请抽取值得长期记住的信息。"@,
            )
            &&& m[0].tool_calls is None && m[1].tool_calls is None
        },
        worth_remembering(input, reply) ==> !starts_with(crate::text::trimmed(input), "/"@)
            && crate::text::trimmed(reply).len() > 0,
{
}

/// An exchange is worth it where the input has at least eight bytes and is no command, and the answer is
/// not blank, white space at the ends apart.
pub proof fn exchanges_worth_keeping(
    before: Seq<char>,
    core: Seq<char>,
    after: Seq<char>,
    blank: Seq<char>,
    reply: Seq<char>,
    rest: Seq<char>,
)
    requires
        forall|i: int| 0 <= i < before.len() ==> is_white_space(#[trigger] before[i]),
        forall|i: int| 0 <= i < after.len() ==> is_white_space(#[trigger] after[i]),
        forall|i: int| 0 <= i < blank.len() ==> is_white_space(#[trigger] blank[i]),
        forall|i: int| 0 <= i < rest.len() ==> is_white_space(#[trigger] rest[i]),
        core.len() > 0 ==> !is_white_space(core[0]) && !is_white_space(core.last()),
        reply.len() > 0 ==> !is_white_space(reply[0]) && !is_white_space(reply.last()),
    ensures
        worth_remembering(before + core + after, blank + reply + rest) == (vstd::utf8::encode_utf8(core).len() >= 8
            && core[0] != '/' && reply.len() > 0),
        core.len() >= 8 && core[0] != '/' && reply.len() > 0 ==> worth_remembering(
            before + core + after,
            blank + reply + rest,
        ),
{
    trimming_keeps_the_core(before, core, after);
    trimming_keeps_the_core(blank, reply, rest);
    lemma_bytes(core);
    reveal_strlit("/");
    if core.len() > 0 {
        assert(core.take(1)[0] == core[0]);
        assert(core[0] == '/' ==> core.take(1) =~= "/"@);
        assert(starts_with(core, "/"@) == (core[0] == '/'));
    }
}

proof fn lemma_bytes(s: Seq<char>)
    ensures
        vstd::utf8::encode_utf8(s).len() >= s.len(),
        s.len() == 0 ==> vstd::utf8::encode_utf8(s).len() == 0,
    decreases s.len(),
{
    if s.len() > 0 {
        lemma_bytes(s.drop_first());
        assert(vstd::utf8::encode_utf8(s).len() == vstd::utf8::encode_scalar(s[0] as u32).len()
            + vstd::utf8::encode_utf8(s.drop_first()).len());
        assert(vstd::utf8::encode_scalar(s[0] as u32).len() >= 1);
    }
}

/// Each step follows from where the run stands, and names the call that is to run, as it was asked
/// for.
pub proof fn steps_follow_from_the_run(s: Step, phase: PhaseView, agent: Agent)
    requires
        follows(s, phase, agent),
    ensures
        phase is Reading <==> s is Ask,
        phase is Calling <==> s is Call,
        phase is Answered <==> s is Answered,
        phase is Stopped <==> s is Stopped,
        (phase matches PhaseView::Calling { calls, next } ==> s matches Step::Call(c) && c@
            == calls[next as int]),
        (phase matches PhaseView::Answered { text } ==> s matches Step::Answered(m) && (m is Some) == (
        agent.remembers && agent.last_input is Some && worth_remembering(
            opt_view(agent.last_input)->0,
            text,
        ))),
        (phase matches PhaseView::Answered { text } ==> s matches Step::Answered(m) && (m matches Some(
            messages,
        ) ==> message_views(messages@) == extraction(opt_view(agent.last_input)->0, text))),
{
}

/// The text of a run is made up of its pieces and its answer, and of nothing else.
pub proof fn the_text_of_events_is_piecewise(events: Seq<EventView>, e: EventView)
    ensures
        events_text(Seq::empty()) == Seq::<char>::empty(),
        events_text(events.push(e)) == events_text(events) + (if e is Text {
            e->Text_0
        } else if e is Final {
            e->Final_0
        } else {
            Seq::empty()
        }),
{
    assert(events.push(e).drop_last() =~= events);
}

} // verus!
