//! What a streamed turn sends on, from its first poll to its last.
use crate::chunk::{ChatApiErrorView, ChatChoiceView, ChatStreamChunkView, ChatUsage};
use crate::converter::{optional_usage_of, ConverterView, ToolCallView};
use crate::error::ApiErrorView;
use crate::laws::calls::{call_item, deltas_in, lemma_taken_calls, merged_calls};
use crate::laws::gather::{gather, lemma_gather_add, lemma_gather_none};
use crate::laws::stream::{
    after_taken, completes, hands_out_reasoning, law_completion_ends_a_choice,
    lemma_choice_reasoning, lemma_choice_text, lemma_chunk_is_its_choices, lemma_taken_in_a_row,
    lemma_taken_reasoning, lemma_taken_text, message_text, reasoning_delta, reasoning_text,
    text_delta, Taken,
};
use crate::protocol::ResponseEventView;
use crate::session::{
    as_sends, chat_error, has_completed, lemma_until_completed_push, stream_failure,
    until_completed, SendView, SessionView, SsePollView,
};
use crate::text::is_token;
use vstd::prelude::*;

verus! {

/// Everything that a session sends on for these polls. Polls behind the one
/// at which it stops are not made.
pub open spec fn run(session: SessionView, polls: Seq<SsePollView>) -> Seq<SendView>
    decreases polls.len(),
{
    if polls.len() == 0 {
        Seq::empty()
    } else {
        let (next, step) = session.after_poll(polls.first());
        if step.done {
            step.sends
        } else {
            step.sends + run(next, polls.drop_first())
        }
    }
}

/// Whether a session stops at one of these polls.
pub open spec fn finished(session: SessionView, polls: Seq<SsePollView>) -> bool
    decreases polls.len(),
{
    if polls.len() == 0 {
        false
    } else {
        let (next, step) = session.after_poll(polls.first());
        step.done || finished(next, polls.drop_first())
    }
}

/// The session that these polls leave, where it does not stop at one.
pub open spec fn left_by(session: SessionView, polls: Seq<SsePollView>) -> SessionView
    decreases polls.len(),
{
    if polls.len() == 0 {
        session
    } else {
        left_by(session.after_poll(polls.first()).0, polls.drop_first())
    }
}

/// Whether a send ends a turn.
pub open spec fn is_terminal(send: SendView) -> bool {
    match send {
        Ok(event) => event is Completed,
        Err(_) => true,
    }
}

/// Whether the last thing sent on is the report of completion.
pub open spec fn ends_completed(sends: Seq<SendView>) -> bool {
    sends.len() > 0 && match sends.last() {
        Ok(event) => event is Completed,
        Err(_) => false,
    }
}

/// Whether the last thing sent on is the report that the turn goes on with
/// tool calls.
pub open spec fn asks_for_calls(sends: Seq<SendView>) -> bool {
    sends.len() > 0 && match sends.last() {
        Ok(ResponseEventView::Completed { end_turn, .. }) => end_turn == Some(false),
        _ => false,
    }
}

/// The choices up to the first that ends the turn, which is among them.
pub open spec fn up_to_completion(choices: Seq<ChatChoiceView>) -> Seq<ChatChoiceView>
    decreases choices.len(),
{
    if choices.len() == 0 {
        Seq::empty()
    } else if completes(choices.first()) {
        seq![choices.first()]
    } else {
        seq![choices.first()] + up_to_completion(choices.drop_first())
    }
}

/// Whether one of the choices ends the turn.
pub open spec fn any_completes(choices: Seq<ChatChoiceView>) -> bool {
    exists|i: int| 0 <= i < choices.len() && completes(#[trigger] choices[i])
}

/// The choices of a poll that are reported.
pub open spec fn taken_at(poll: SsePollView) -> Seq<Taken> {
    match poll.chunk_in() {
        Some(chunk) => up_to_completion(chunk.choices).map_values(
            |choice: ChatChoiceView| (choice, chunk.usage),
        ),
        None => Seq::empty(),
    }
}

/// The choices that a session reports for these polls.
pub open spec fn taken_by(session: SessionView, polls: Seq<SsePollView>) -> Seq<Taken>
    decreases polls.len(),
{
    if polls.len() == 0 {
        Seq::empty()
    } else {
        let (next, step) = session.after_poll(polls.first());
        if step.done {
            taken_at(polls.first())
        } else {
            taken_at(polls.first()) + taken_by(next, polls.drop_first())
        }
    }
}

/// The converter as it stands before the first of the polls that reach it.
pub open spec fn first_converter(session: SessionView, polls: Seq<SsePollView>) -> Option<
    ConverterView,
>
    decreases polls.len(),
{
    if session.converter is Some {
        session.converter
    } else if polls.len() == 0 {
        None
    } else {
        match polls.first().chunk_in() {
            Some(chunk) => Some(session.converter_for(chunk)),
            None => {
                let (next, step) = session.after_poll(polls.first());
                if step.done {
                    None
                } else {
                    first_converter(next, polls.drop_first())
                }
            },
        }
    }
}

/// The first chunk that a poll hands to the converter.
pub open spec fn first_chunk(polls: Seq<SsePollView>) -> Option<ChatStreamChunkView>
    decreases polls.len(),
{
    if polls.len() == 0 {
        None
    } else if polls.first().chunk_in() is Some {
        polls.first().chunk_in()
    } else {
        first_chunk(polls.drop_first())
    }
}

/// The error that a poll reports.
pub open spec fn error_in(poll: SsePollView) -> Option<ApiErrorView> {
    match poll {
        SsePollView::Event { data, error, .. } => if is_token(data, "[DONE]"@) {
            None
        } else {
            chat_error(error)
        },
        _ => None,
    }
}

/// The error that the polls reported last, or `earlier` where they reported
/// none.
pub open spec fn last_error(polls: Seq<SsePollView>, earlier: Option<ApiErrorView>) -> Option<
    ApiErrorView,
>
    decreases polls.len(),
{
    if polls.len() == 0 {
        earlier
    } else if error_in(polls.last()) is Some {
        error_in(polls.last())
    } else {
        last_error(polls.drop_last(), earlier)
    }
}

/// The event that a send carries.
pub open spec fn event_in(send: SendView) -> Seq<ResponseEventView> {
    match send {
        Ok(event) => seq![event],
        Err(_) => Seq::empty(),
    }
}

/// The events among what is sent on.
pub open spec fn events_in(sends: Seq<SendView>) -> Seq<ResponseEventView> {
    gather(sends, |send: SendView| event_in(send))
}

/// The report of creation, where the converter is yet to come.
pub open spec fn created_by(session: SessionView) -> Seq<ResponseEventView> {
    if session.converter is None {
        seq![ResponseEventView::Created]
    } else {
        Seq::empty()
    }
}

proof fn lemma_events_in_sends(events: Seq<ResponseEventView>)
    ensures
        events_in(as_sends(events)) == events,
    decreases events.len(),
{
    if events.len() > 0 {
        lemma_events_in_sends(events.drop_last());
        assert(as_sends(events).drop_last() =~= as_sends(events.drop_last()));
        assert(events_in(as_sends(events)) =~= events);
    } else {
        assert(events_in(as_sends(events)) =~= events);
    }
}

/// Events in a row, up to the first report of completion.
proof fn lemma_until_in_a_row(left: Seq<ResponseEventView>, right: Seq<ResponseEventView>)
    ensures
        has_completed(left + right) <==> has_completed(left) || has_completed(right),
        has_completed(left) ==> until_completed(left + right) == until_completed(left),
        !has_completed(left) ==> until_completed(left + right) == left + until_completed(right),
    decreases right.len(),
{
    if right.len() == 0 {
        assert(left + right =~= left);
        assert(left + until_completed(right) =~= left);
        if left.len() > 0 {
            lemma_until_completed_push(left.drop_last(), left.last());
            assert(left =~= left.drop_last().push(left.last()));
        }
    } else {
        let shorter = right.drop_last();
        assert(left + right =~= (left + shorter).push(right.last()));
        assert(right =~= shorter.push(right.last()));
        lemma_until_in_a_row(left, shorter);
        lemma_until_completed_push(left + shorter, right.last());
        lemma_until_completed_push(shorter, right.last());
        if !has_completed(left) && !has_completed(shorter) {
            assert((left + shorter).push(right.last()) =~= left + right);
        }
    }
}

/// A choice is reported whole.
proof fn lemma_choice_is_reported_whole(
    state: ConverterView,
    choice: ChatChoiceView,
    usage: Option<ChatUsage>,
)
    ensures
        until_completed(state.after_choice(choice, usage).1) == state.after_choice(
            choice,
            usage,
        ).1,
        has_completed(state.after_choice(choice, usage).1) <==> completes(choice),
{
    let events = state.after_choice(choice, usage).1;
    law_completion_ends_a_choice(state, choice, usage);
    if events.len() > 0 {
        let earlier = events.drop_last();
        assert(events =~= earlier.push(events.last()));
        assert(!has_completed(earlier)) by {
            if has_completed(earlier) {
                let i = choose|i: int| 0 <= i < earlier.len() && earlier[i] is Completed;
                assert(events[i] is Completed);
            }
        }
        lemma_until_completed_push(earlier, events.last());
    }
}

proof fn lemma_up_to_completion_push(choices: Seq<ChatChoiceView>, choice: ChatChoiceView)
    ensures
        any_completes(choices.push(choice)) <==> any_completes(choices) || completes(choice),
        any_completes(choices) ==> up_to_completion(choices.push(choice)) == up_to_completion(
            choices,
        ),
        !any_completes(choices) ==> up_to_completion(choices) == choices,
        !any_completes(choices) ==> up_to_completion(choices.push(choice)) == choices.push(choice),
    decreases choices.len(),
{
    let longer = choices.push(choice);
    assert(longer.last() == choice);
    assert(completes(choice) ==> completes(longer[choices.len() as int]));
    assert forall|i: int| 0 <= i < choices.len() implies choices[i] == longer[i] by {}
    if any_completes(choices) {
        let i = choose|i: int| 0 <= i < choices.len() && completes(#[trigger] choices[i]);
        assert(completes(longer[i]));
    }
    if any_completes(longer) {
        let i = choose|i: int| 0 <= i < longer.len() && completes(#[trigger] longer[i]);
        assert(i < choices.len() ==> completes(choices[i]));
    }
    if choices.len() == 0 {
        assert(longer.drop_first() =~= Seq::empty());
        assert(up_to_completion(longer.drop_first()) =~= Seq::empty());
        assert(up_to_completion(longer) =~= longer);
        assert(up_to_completion(choices) =~= choices);
    } else {
        let rest = choices.drop_first();
        assert(longer.drop_first() =~= rest.push(choice));
        assert(longer.first() == choices.first());
        lemma_up_to_completion_push(rest, choice);
        if completes(choices.first()) {
            assert(completes(choices[0]));
        } else {
            assert(any_completes(choices) ==> any_completes(rest)) by {
                if any_completes(choices) {
                    let i = choose|i: int|
                        0 <= i < choices.len() && completes(#[trigger] choices[i]);
                    assert(completes(rest[i - 1]));
                }
            }
            assert(any_completes(rest) ==> any_completes(choices)) by {
                if any_completes(rest) {
                    let i = choose|i: int| 0 <= i < rest.len() && completes(#[trigger] rest[i]);
                    assert(completes(choices[i + 1]));
                }
            }
            assert(!any_completes(choices) ==> up_to_completion(choices) =~= choices);
            assert(!any_completes(choices) ==> up_to_completion(longer) =~= longer);
        }
    }
}

/// Of a chunk, what is reported up to completion are its choices up to the
/// first that ends the turn.
proof fn lemma_chunk_up_to_completion(
    state: ConverterView,
    choices: Seq<ChatChoiceView>,
    usage: Option<ChatUsage>,
)
    ensures
        until_completed(state.after_choices(choices, usage).1) == state.after_choices(
            up_to_completion(choices),
            usage,
        ).1,
        has_completed(state.after_choices(choices, usage).1) <==> any_completes(choices),
        !any_completes(choices) ==> up_to_completion(choices) == choices,
    decreases choices.len(),
{
    if choices.len() > 0 {
        let shorter = choices.drop_last();
        let choice = choices.last();
        let (before, events) = state.after_choices(shorter, usage);
        let last = before.after_choice(choice, usage).1;
        assert(choices =~= shorter.push(choice));
        lemma_chunk_up_to_completion(state, shorter, usage);
        lemma_up_to_completion_push(shorter, choice);
        lemma_choice_is_reported_whole(before, choice, usage);
        lemma_until_in_a_row(events, last);
    }
}

/// One poll: what it sends on, and the converter that it leaves.
pub proof fn lemma_poll(session: SessionView, poll: SsePollView)
    ensures
        ({
            let (next, step) = session.after_poll(poll);
            match poll.chunk_in() {
                Some(chunk) => {
                    let converter = session.converter_for(chunk);
                    let (after, events) = after_taken(converter, taken_at(poll));
                    &&& step.sends == as_sends(created_by(session) + events)
                    &&& events_in(step.sends) == created_by(session) + events
                    &&& step.done <==> any_completes(chunk.choices)
                    &&& !step.done ==> next.converter == Some(after)
                    &&& next.response_error == session.response_error
                },
                None => {
                    &&& events_in(step.sends) == Seq::<ResponseEventView>::empty()
                    &&& next.converter == session.converter
                    &&& !step.done ==> step.sends.len() == 0
                    &&& step.done ==> step.sends.len() <= 1
                },
            }
        }),
{
    let (next, step) = session.after_poll(poll);
    match poll.chunk_in() {
        Some(chunk) => {
            let converter = session.converter_for(chunk);
            let events = converter.after_choices(chunk.choices, chunk.usage).1;
            lemma_chunk_up_to_completion(converter, chunk.choices, chunk.usage);
            lemma_chunk_is_its_choices(converter, up_to_completion(chunk.choices), chunk.usage);
            let reported = created_by(session) + until_completed(events);
            assert(step.sends =~= as_sends(reported));
            lemma_events_in_sends(reported);
        },
        None => {
            let part = |send: SendView| event_in(send);
            lemma_gather_none(step.sends, part);
        },
    }
}

/// A session sends on, for whatever polls, what the converter reports of
/// the choices up to the first that ends the turn, and the report of
/// creation before it.
pub proof fn lemma_run(session: SessionView, polls: Seq<SsePollView>)
    ensures
        match first_converter(session, polls) {
            Some(converter) => events_in(run(session, polls)) == created_by(session) + after_taken(
                converter,
                taken_by(session, polls),
            ).1,
            None => {
                &&& events_in(run(session, polls)) == Seq::<ResponseEventView>::empty()
                &&& taken_by(session, polls) == Seq::<Taken>::empty()
            },
        },
    decreases polls.len(),
{
    let part = |send: SendView| event_in(send);
    if polls.len() == 0 {
        if let Some(converter) = session.converter {
            assert(events_in(run(session, polls)) =~= created_by(session) + after_taken(
                converter,
                taken_by(session, polls),
            ).1);
        }
    } else {
        let poll = polls.first();
        let rest = polls.drop_first();
        let (next, step) = session.after_poll(poll);
        lemma_poll(session, poll);
        if !step.done {
            lemma_run(next, rest);
            lemma_gather_add(step.sends, run(next, rest), part);
        }
        match poll.chunk_in() {
            Some(chunk) => {
                let converter = session.converter_for(chunk);
                if !step.done {
                    lemma_taken_in_a_row(converter, taken_at(poll), taken_by(next, rest));
                    assert(events_in(run(session, polls)) =~= created_by(session) + after_taken(
                        converter,
                        taken_by(session, polls),
                    ).1);
                }
            },
            None => {
                if step.done {
                    if let Some(converter) = session.converter {
                        assert(events_in(run(session, polls)) =~= created_by(session)
                            + after_taken(converter, taken_by(session, polls)).1);
                    }
                } else {
                    assert(step.sends =~= Seq::empty());
                    assert(run(session, polls) =~= run(next, rest));
                    assert(taken_by(session, polls) =~= taken_by(next, rest));
                }
            },
        }
    }
}

proof fn lemma_until_shape(events: Seq<ResponseEventView>)
    ensures
        ({
            let reported = until_completed(events);
            &&& forall|i: int|
                0 <= i < reported.len() - 1 ==> !((#[trigger] reported[i]) is Completed)
            &&& has_completed(events) <==> reported.len() > 0 && reported.last() is Completed
        }),
    decreases events.len(),
{
    if events.len() > 0 {
        let shorter = events.drop_last();
        assert(events =~= shorter.push(events.last()));
        lemma_until_shape(shorter);
        lemma_until_completed_push(shorter, events.last());
        if !has_completed(shorter) {
            assert forall|i: int| 0 <= i < events.len() - 1 implies !(
            (#[trigger] events[i]) is Completed) by {
                assert(shorter[i] == events[i]);
            }
        }
    }
}

proof fn lemma_up_to_completion_shape(choices: Seq<ChatChoiceView>)
    ensures
        ({
            let reported = up_to_completion(choices);
            &&& forall|i: int| 0 <= i < reported.len() - 1 ==> !completes(#[trigger] reported[i])
            &&& any_completes(choices) <==> reported.len() > 0 && completes(reported.last())
        }),
    decreases choices.len(),
{
    if choices.len() > 0 {
        let shorter = choices.drop_last();
        assert(choices =~= shorter.push(choices.last()));
        lemma_up_to_completion_shape(shorter);
        lemma_up_to_completion_push(shorter, choices.last());
        if !any_completes(shorter) {
            assert forall|i: int| 0 <= i < choices.len() - 1 implies !completes(
                #[trigger] choices[i],
            ) by {
                assert(shorter[i] == choices[i]);
            }
        }
    }
}

proof fn lemma_sends_shape(session: SessionView, events: Seq<ResponseEventView>)
    ensures
        ({
            let sends = as_sends(created_by(session) + until_completed(events));
            &&& forall|i: int| 0 <= i < sends.len() - 1 ==> !is_terminal(#[trigger] sends[i])
            &&& ends_completed(sends) <==> has_completed(events)
            &&& sends.len() > 0 && is_terminal(sends.last()) <==> has_completed(events)
        }),
{
    let reported = until_completed(events);
    let sent = created_by(session) + reported;
    let sends = as_sends(sent);
    lemma_until_shape(events);
    assert forall|i: int| 0 <= i < sends.len() - 1 implies !is_terminal(#[trigger] sends[i]) by {
        assert(sends[i] == SendView::Ok(sent[i]));
        if i >= created_by(session).len() {
            assert(sent[i] == reported[i - created_by(session).len()]);
        }
    }
    if sends.len() > 0 {
        assert(sends.last() == SendView::Ok(sent.last()));
        if reported.len() > 0 {
            assert(sent.last() == reported.last());
        }
    }
}

proof fn lemma_taken_shape(poll: SsePollView)
    ensures
        ({
            let taken = taken_at(poll);
            &&& forall|i: int|
                0 <= i < taken.len() - 1 ==> !completes((#[trigger] taken[i]).0)
            &&& taken.len() > 0 && completes(taken.last().0) <==> (poll.chunk_in() is Some
                && any_completes(poll.chunk_in()->0.choices))
        }),
{
    let taken = taken_at(poll);
    if let Some(chunk) = poll.chunk_in() {
        lemma_up_to_completion_shape(chunk.choices);
        assert forall|i: int| 0 <= i < taken.len() - 1 implies !completes(
            (#[trigger] taken[i]).0,
        ) by {
            assert(taken[i].0 == up_to_completion(chunk.choices)[i]);
        }
    }
}

/// A poll that hands no chunk to the converter sends on an error or nothing.
proof fn lemma_poll_without_chunk(session: SessionView, poll: SsePollView)
    requires
        poll.chunk_in() is None,
    ensures
        ({
            let (next, step) = session.after_poll(poll);
            &&& step.sends.len() <= 1
            &&& step.sends.len() == 1 ==> step.sends[0] is Err
            &&& step.done <==> step.sends.len() == 1
        }),
{
}

/// One poll: what of its sends and choices ends the turn.
proof fn lemma_poll_shape(session: SessionView, poll: SsePollView)
    ensures
        ({
            let (next, step) = session.after_poll(poll);
            let taken = taken_at(poll);
            &&& forall|i: int|
                0 <= i < step.sends.len() - 1 ==> !is_terminal(#[trigger] step.sends[i])
            &&& forall|i: int|
                0 <= i < taken.len() - 1 ==> !completes((#[trigger] taken[i]).0)
            &&& taken.len() > 0 && completes(taken.last().0) <==> ends_completed(step.sends)
            &&& step.done <==> step.sends.len() > 0 && is_terminal(step.sends.last())
        }),
{
    lemma_taken_shape(poll);
    match poll.chunk_in() {
        Some(chunk) => {
            let (next, step) = session.after_poll(poll);
            let converter = session.converter_for(chunk);
            let events = converter.after_choices(chunk.choices, chunk.usage).1;
            lemma_chunk_up_to_completion(converter, chunk.choices, chunk.usage);
            lemma_sends_shape(session, events);
            assert(step.sends =~= as_sends(created_by(session) + until_completed(events)));
        },
        None => {
            lemma_poll_without_chunk(session, poll);
        },
    }
}

/// What of the sends and choices of a session ends the turn.
pub proof fn lemma_run_shape(session: SessionView, polls: Seq<SsePollView>)
    ensures
        ({
            let sends = run(session, polls);
            let taken = taken_by(session, polls);
            &&& forall|i: int| 0 <= i < sends.len() - 1 ==> !is_terminal(#[trigger] sends[i])
            &&& forall|i: int|
                0 <= i < taken.len() - 1 ==> !completes((#[trigger] taken[i]).0)
            &&& taken.len() > 0 && completes(taken.last().0) <==> ends_completed(sends)
            &&& finished(session, polls) <==> sends.len() > 0 && is_terminal(sends.last())
        }),
    decreases polls.len(),
{
    if polls.len() > 0 {
        let poll = polls.first();
        let rest = polls.drop_first();
        let (next, step) = session.after_poll(poll);
        lemma_poll(session, poll);
        lemma_poll_shape(session, poll);
        if !step.done {
            lemma_run_shape(next, rest);
            let later = run(next, rest);
            let sends = run(session, polls);
            assert(sends == step.sends + later);
            assert forall|i: int| 0 <= i < sends.len() - 1 implies !is_terminal(
                #[trigger] sends[i],
            ) by {
                if i < step.sends.len() {
                    assert(sends[i] == step.sends[i]);
                    if i == step.sends.len() - 1 {
                        assert(step.sends.last() == step.sends[i]);
                    }
                } else {
                    assert(sends[i] == later[i - step.sends.len()]);
                }
            }
            let here = taken_at(poll);
            let there = taken_by(next, rest);
            let taken = taken_by(session, polls);
            assert(taken == here + there);
            assert forall|i: int| 0 <= i < taken.len() - 1 implies !completes(
                (#[trigger] taken[i]).0,
            ) by {
                if i < here.len() {
                    assert(taken[i] == here[i]);
                    if i == here.len() - 1 {
                        assert(here.last() == here[i]);
                    }
                } else {
                    assert(taken[i] == there[i - here.len()]);
                }
            }
            if later.len() > 0 {
                assert(sends.last() == later.last());
            } else if sends.len() > 0 {
                assert(sends.last() == step.sends.last());
            }
            if there.len() > 0 {
                assert(taken.last() == there.last());
            } else if taken.len() > 0 {
                assert(taken.last() == here.last());
            }
        }
    }
}

/// A session without a converter gets a new one, which bears the names that
/// the first chunk gives.
proof fn lemma_first_converter_is_new(session: SessionView, polls: Seq<SsePollView>)
    requires
        session.converter is None,
    ensures
        first_converter(session, polls) matches Some(converter) ==> first_chunk(polls) is Some
            && converter == SessionView::start().converter_for(first_chunk(polls)->0),
    decreases polls.len(),
{
    if polls.len() > 0 && polls.first().chunk_in() is None {
        let (next, step) = session.after_poll(polls.first());
        lemma_poll(session, polls.first());
        if !step.done {
            lemma_first_converter_is_new(next, polls.drop_first());
        }
    }
}

/// Where all sends but the last are events, the events stand where they are
/// sent.
proof fn lemma_events_in_place(sends: Seq<SendView>)
    requires
        forall|i: int| 0 <= i < sends.len() - 1 ==> (#[trigger] sends[i]) is Ok,
    ensures
        sends.len() > 0 && sends.last() is Ok ==> sends == as_sends(events_in(sends)),
        sends.len() > 0 && sends.last() is Err ==> sends.drop_last() == as_sends(events_in(sends)),
        sends.len() == 0 ==> events_in(sends).len() == 0,
    decreases sends.len(),
{
    if sends.len() > 0 {
        let shorter = sends.drop_last();
        assert forall|i: int| 0 <= i < shorter.len() - 1 implies (#[trigger] shorter[i]) is Ok by {
            assert(shorter[i] == sends[i]);
        }
        lemma_events_in_place(shorter);
        if shorter.len() > 0 {
            assert(shorter.last() == sends[sends.len() - 2]);
        } else {
            assert(as_sends(events_in(shorter)) =~= shorter);
        }
        if sends.last() is Ok {
            assert(as_sends(events_in(sends)) =~= as_sends(events_in(shorter)).push(sends.last()));
            assert(sends =~= shorter.push(sends.last()));
        } else {
            assert(events_in(sends) =~= events_in(shorter));
        }
    }
}

/// Choices report nothing as created, and hand items out only where one of
/// them ends the turn.
proof fn lemma_taken_events(state: ConverterView, taken: Seq<Taken>)
    ensures
        ({
            let (after, events) = after_taken(state, taken);
            &&& after.response_id == state.response_id
            &&& forall|i: int| 0 <= i < events.len() ==> !((#[trigger] events[i]) is Created)
            &&& (forall|i: int| 0 <= i < taken.len() ==> !completes((#[trigger] taken[i]).0))
                ==> forall|i: int|
                0 <= i < events.len() ==> !((#[trigger] events[i]) is OutputItemDone)
        }),
    decreases taken.len(),
{
    if taken.len() > 0 {
        let shorter = taken.drop_last();
        let (before, earlier) = after_taken(state, shorter);
        let (choice, usage) = taken.last();
        let last = before.after_choice(choice, usage).1;
        let events = after_taken(state, taken).1;
        lemma_taken_events(state, shorter);
        law_completion_ends_a_choice(before, choice, usage);
        assert(events == earlier + last);
        assert forall|i: int| 0 <= i < events.len() implies !((#[trigger] events[i]) is Created) by {
            if i >= earlier.len() {
                assert(events[i] == last[i - earlier.len()]);
            }
        }
        if forall|i: int| 0 <= i < taken.len() ==> !completes((#[trigger] taken[i]).0) {
            assert forall|i: int| 0 <= i < shorter.len() implies !completes(
                (#[trigger] shorter[i]).0,
            ) by {
                assert(shorter[i] == taken[i]);
            }
            assert(!completes(taken[taken.len() - 1].0));
            assert forall|i: int| 0 <= i < events.len() implies !(
            (#[trigger] events[i]) is OutputItemDone) by {
                if i >= earlier.len() {
                    assert(events[i] == last[i - earlier.len()]);
                }
            }
        }
    }
}

/// Choices none of which hands the reasoning out hand out none.
proof fn lemma_taken_without_reasoning(state: ConverterView, taken: Seq<Taken>)
    requires
        forall|i: int| 0 <= i < taken.len() ==> !hands_out_reasoning((#[trigger] taken[i]).0),
    ensures
        gather(after_taken(state, taken).1, |e: ResponseEventView| reasoning_text(e)).len() == 0,
    decreases taken.len(),
{
    let part = |e: ResponseEventView| reasoning_text(e);
    if taken.len() > 0 {
        let shorter = taken.drop_last();
        let (before, earlier) = after_taken(state, shorter);
        let (choice, usage) = taken.last();
        assert forall|i: int| 0 <= i < shorter.len() implies !hands_out_reasoning(
            (#[trigger] shorter[i]).0,
        ) by {
            assert(shorter[i] == taken[i]);
        }
        lemma_taken_without_reasoning(state, shorter);
        assert(!hands_out_reasoning(taken[taken.len() - 1].0));
        lemma_choice_reasoning(before, choice, usage);
        lemma_gather_add(earlier, before.after_choice(choice, usage).1, part);
    }
}

/// The report of completion is that of the last choice.
proof fn lemma_calls_are_asked_for(polls: Seq<SsePollView>)
    ensures
        ({
            let start = SessionView::start();
            let sends = run(start, polls);
            let taken = taken_by(start, polls);
            &&& ends_completed(sends) ==> {
                &&& first_converter(start, polls) is Some
                &&& sends.last() == SendView::Ok(
                    first_converter(start, polls)->0.completed(
                        taken.last().1,
                        taken.last().0.finish_reason != Some("tool_calls"@),
                    ),
                )
            }
            &&& asks_for_calls(sends) <==> taken.len() > 0 && taken.last().0.finish_reason == Some(
                "tool_calls"@,
            )
        }),
{
    let start = SessionView::start();
    let sends = run(start, polls);
    let taken = taken_by(start, polls);
    lemma_run(start, polls);
    lemma_run_shape(start, polls);
    if ends_completed(sends) {
        let converter = first_converter(start, polls)->0;
        let events = after_taken(converter, taken).1;
        let (before, earlier) = after_taken(converter, taken.drop_last());
        let last = before.after_choice(taken.last().0, taken.last().1).1;
        lemma_taken_events(converter, taken.drop_last());
        law_completion_ends_a_choice(before, taken.last().0, taken.last().1);
        assert(events == earlier + last);
        assert(events.last() == last.last());
        assert forall|i: int| 0 <= i < sends.len() - 1 implies (#[trigger] sends[i]) is Ok by {
            assert(!is_terminal(sends[i]));
        }
        lemma_events_in_place(sends);
        let all = events_in(sends);
        assert(all.last() == events.last());
        assert(sends.last() == as_sends(all).last());
    }
}

/// A turn that sends an event on reports first that it was created, and
/// reports that only once.
pub proof fn law_creation_comes_first(polls: Seq<SsePollView>)
    ensures
        ({
            let sends = run(SessionView::start(), polls);
            forall|i: int|
                0 <= i < sends.len() ==> ((#[trigger] sends[i]) == SendView::Ok(
                    ResponseEventView::Created,
                ) <==> i == 0 && sends[0] is Ok)
        }),
{
    let start = SessionView::start();
    let sends = run(start, polls);
    let events = events_in(sends);
    lemma_run(start, polls);
    lemma_run_shape(start, polls);
    assert forall|i: int| 0 <= i < sends.len() - 1 implies (#[trigger] sends[i]) is Ok by {
        assert(!is_terminal(sends[i]));
    }
    lemma_events_in_place(sends);
    if let Some(converter) = first_converter(start, polls) {
        lemma_taken_events(converter, taken_by(start, polls));
    }
    assert forall|i: int| 0 <= i < sends.len() implies ((#[trigger] sends[i]) == SendView::Ok(
        ResponseEventView::Created,
    ) <==> i == 0 && sends[0] is Ok) by {
        if sends[i] is Ok {
            assert(i == sends.len() - 1 ==> sends[i] == sends.last());
            assert(as_sends(events).len() == events.len());
            if sends.last() is Err {
                assert(sends.drop_last()[i] == sends[i]);
            }
            assert(sends[i] == as_sends(events)[i]);
            assert(sends[i] == SendView::Ok(events[i]));
            assert(i == 0 <==> events[i] is Created);
        }
    }
}

/// Nothing is sent on behind an error or the report of completion.
pub proof fn law_nothing_follows_the_end(session: SessionView, polls: Seq<SsePollView>)
    ensures
        forall|i: int|
            0 <= i < run(session, polls).len() - 1 ==> !is_terminal(
                #[trigger] run(session, polls)[i],
            ),
{
    lemma_run_shape(session, polls);
}

/// A turn has stopped exactly where it has sent on, as the last thing, an
/// error or the report of completion: no turn ends in silence.
pub proof fn law_the_end_is_reported(session: SessionView, polls: Seq<SsePollView>)
    ensures
        finished(session, polls) <==> run(session, polls).len() > 0 && is_terminal(
            run(session, polls).last(),
        ),
{
    lemma_run_shape(session, polls);
}

/// Polls behind the one at which a session stops change nothing; where it
/// does not stop, it goes on with the session that the polls leave.
pub proof fn law_polls_in_a_row(
    session: SessionView,
    polls: Seq<SsePollView>,
    more: Seq<SsePollView>,
)
    ensures
        finished(session, polls) ==> run(session, polls + more) == run(session, polls),
        !finished(session, polls) ==> run(session, polls + more) == run(session, polls) + run(
            left_by(session, polls),
            more,
        ),
    decreases polls.len(),
{
    if polls.len() == 0 {
        assert(polls + more =~= more);
        assert(Seq::empty() + run(session, more) =~= run(session, more));
    } else {
        let next = session.after_poll(polls.first()).0;
        assert((polls + more).first() == polls.first());
        assert((polls + more).drop_first() =~= polls.drop_first() + more);
        law_polls_in_a_row(next, polls.drop_first(), more);
        if !finished(session, polls) {
            assert(run(session, polls + more) =~= run(session, polls) + run(
                left_by(session, polls),
                more,
            ));
        }
    }
}

/// An event whose data is neither the end signal nor an error nor a chunk
/// is passed over.
pub proof fn law_unreadable_data_is_passed_over(
    session: SessionView,
    data: Seq<char>,
    error: Option<ChatApiErrorView>,
    rest: Seq<SsePollView>,
)
    requires
        !is_token(data, "[DONE]"@),
        chat_error(error) is None,
    ensures
        run(session, seq![SsePollView::Event { data, error, chunk: None }] + rest) == run(
            session,
            rest,
        ),
{
    let polls = seq![SsePollView::Event { data, error, chunk: None }] + rest;
    assert(polls.drop_first() =~= rest);
    assert(run(session, polls) =~= run(session, rest));
}

/// A turn that completes hands out, as the text of its message, exactly the
/// text that it streamed.
pub proof fn law_the_message_is_the_streamed_text(polls: Seq<SsePollView>)
    requires
        ends_completed(run(SessionView::start(), polls)),
    ensures
        ({
            let events = events_in(run(SessionView::start(), polls));
            gather(events, |e: ResponseEventView| message_text(e)) == gather(
                events,
                |e: ResponseEventView| text_delta(e),
            )
        }),
{
    let deltas = |e: ResponseEventView| text_delta(e);
    let items = |e: ResponseEventView| message_text(e);
    let start = SessionView::start();
    let taken = taken_by(start, polls);
    lemma_run(start, polls);
    lemma_run_shape(start, polls);
    lemma_first_converter_is_new(start, polls);
    let converter = first_converter(start, polls)->0;
    let (after, events) = after_taken(converter, taken);
    lemma_taken_text(converter, taken);
    lemma_choice_text(
        after_taken(converter, taken.drop_last()).0,
        taken.last().0,
        taken.last().1,
    );
    lemma_gather_add(created_by(start), events, deltas);
    lemma_gather_add(created_by(start), events, items);
    lemma_gather_none(created_by(start), deltas);
    lemma_gather_none(created_by(start), items);
    assert(after.accumulated_text =~= Seq::empty());
    assert(Seq::empty() + gather(events, deltas) =~= gather(events, deltas));
    assert(Seq::empty() + gather(events, items) =~= gather(events, items));
    assert(gather(events, items) + Seq::empty() =~= gather(events, items));
}

/// A turn that ends where the model stopped or asked for tool calls hands out
/// exactly the reasoning that it streamed; and so does any turn that hands
/// reasoning out.
pub proof fn law_the_reasoning_is_what_was_streamed(polls: Seq<SsePollView>)
    ensures
        ({
            let sends = run(SessionView::start(), polls);
            let events = events_in(sends);
            let handed_out = gather(events, |e: ResponseEventView| reasoning_text(e));
            let streamed = gather(events, |e: ResponseEventView| reasoning_delta(e));
            &&& handed_out.len() > 0 ==> handed_out == streamed
            &&& asks_for_calls(sends) ==> handed_out == streamed
            &&& ends_completed(sends) && hands_out_reasoning(
                taken_by(SessionView::start(), polls).last().0,
            ) ==> handed_out == streamed
        }),
{
    let deltas = |e: ResponseEventView| reasoning_delta(e);
    let items = |e: ResponseEventView| reasoning_text(e);
    let start = SessionView::start();
    let sends = run(start, polls);
    let taken = taken_by(start, polls);
    lemma_run(start, polls);
    lemma_run_shape(start, polls);
    lemma_first_converter_is_new(start, polls);
    lemma_calls_are_asked_for(polls);
    if let Some(converter) = first_converter(start, polls) {
        let (after, events) = after_taken(converter, taken);
        lemma_taken_reasoning(converter, taken);
        lemma_gather_add(created_by(start), events, deltas);
        lemma_gather_add(created_by(start), events, items);
        lemma_gather_none(created_by(start), deltas);
        lemma_gather_none(created_by(start), items);
        assert(Seq::empty() + gather(events, deltas) =~= gather(events, deltas));
        assert(Seq::empty() + gather(events, items) =~= gather(events, items));
        if taken.len() > 0 && hands_out_reasoning(taken.last().0) {
            lemma_choice_reasoning(
                after_taken(converter, taken.drop_last()).0,
                taken.last().0,
                taken.last().1,
            );
            assert(after.accumulated_reasoning =~= Seq::empty());
            assert(gather(events, items) + Seq::empty() =~= gather(events, items));
        } else {
            assert forall|i: int| 0 <= i < taken.len() implies !hands_out_reasoning(
                (#[trigger] taken[i]).0,
            ) by {
                if i < taken.len() - 1 {
                    assert(!completes(taken[i].0));
                }
            }
            lemma_taken_without_reasoning(converter, taken);
        }
    } else {
        assert(gather(events_in(sends), items) =~= Seq::empty());
        assert(gather(events_in(sends), deltas) =~= Seq::empty());
    }
}

/// The report of completion bears the identifier that the first chunk gave,
/// the token count of the chunk that ended the turn, and whether the turn
/// is over.
pub proof fn law_completion_names_the_response(polls: Seq<SsePollView>)
    requires
        ends_completed(run(SessionView::start(), polls)),
    ensures
        ({
            let sends = run(SessionView::start(), polls);
            let (choice, usage) = taken_by(SessionView::start(), polls).last();
            &&& first_chunk(polls) is Some
            &&& sends.last() == SendView::Ok(
                ResponseEventView::Completed {
                    response_id: match first_chunk(polls)->0.id {
                        Some(id) => id,
                        None => "chat_resp"@,
                    },
                    token_usage: optional_usage_of(usage),
                    end_turn: Some(choice.finish_reason != Some("tool_calls"@)),
                },
            )
        }),
{
    lemma_calls_are_asked_for(polls);
    lemma_first_converter_is_new(SessionView::start(), polls);
}

/// Items are handed out only in a turn that completes: a turn that fails has
/// handed out none.
pub proof fn law_items_come_with_completion(polls: Seq<SsePollView>, i: int)
    requires
        0 <= i < run(SessionView::start(), polls).len(),
        run(SessionView::start(), polls)[i] matches Ok(event) && event is OutputItemDone,
    ensures
        ends_completed(run(SessionView::start(), polls)),
{
    let start = SessionView::start();
    let sends = run(start, polls);
    let events = events_in(sends);
    let taken = taken_by(start, polls);
    lemma_run(start, polls);
    lemma_run_shape(start, polls);
    assert forall|k: int| 0 <= k < sends.len() - 1 implies (#[trigger] sends[k]) is Ok by {
        assert(!is_terminal(sends[k]));
    }
    lemma_events_in_place(sends);
    assert(i == sends.len() - 1 ==> sends[i] == sends.last());
    assert(as_sends(events).len() == events.len());
    if sends.last() is Err {
        assert(sends.drop_last()[i] == sends[i]);
    }
    assert(sends[i] == as_sends(events)[i]);
    assert(sends[i] == SendView::Ok(events[i]));
    if let Some(converter) = first_converter(start, polls) {
        if !ends_completed(sends) {
            assert forall|k: int| 0 <= k < taken.len() implies !completes(
                (#[trigger] taken[k]).0,
            ) by {
                assert(k == taken.len() - 1 ==> taken[k] == taken.last());
            }
            lemma_taken_events(converter, taken);
            assert(events[i] == after_taken(converter, taken).1[i - 1]);
        }
    }
}

/// A turn that asks for tool calls hands out exactly the calls that the
/// pieces make up, in the order of their indices; any other turn hands out
/// none.
pub proof fn law_the_calls_are_what_the_pieces_make(polls: Seq<SsePollView>)
    ensures
        ({
            let sends = run(SessionView::start(), polls);
            let pieces = gather(
                taken_by(SessionView::start(), polls),
                |taken: Taken| deltas_in(taken),
            );
            gather(events_in(sends), |e: ResponseEventView| call_item(e)) == if asks_for_calls(
                sends,
            ) {
                merged_calls(Seq::empty(), pieces)
            } else {
                Seq::<ToolCallView>::empty()
            }
        }),
{
    let part = |e: ResponseEventView| call_item(e);
    let start = SessionView::start();
    let sends = run(start, polls);
    let taken = taken_by(start, polls);
    lemma_run(start, polls);
    lemma_run_shape(start, polls);
    lemma_first_converter_is_new(start, polls);
    lemma_calls_are_asked_for(polls);
    assert forall|i: int| 0 <= i < taken.len() - 1 implies (#[trigger] taken[i]).0.finish_reason
        != Some("tool_calls"@) by {
        assert(!completes(taken[i].0));
    }
    if let Some(converter) = first_converter(start, polls) {
        let events = after_taken(converter, taken).1;
        lemma_taken_calls(converter, taken);
        lemma_gather_add(created_by(start), events, part);
        lemma_gather_none(created_by(start), part);
        assert(Seq::empty() + gather(events, part) =~= gather(events, part));
    } else {
        assert(gather(events_in(sends), part) =~= Seq::empty());
    }
}

/// The session that polls leave knows the error that was reported last.
proof fn lemma_left_by(session: SessionView, polls: Seq<SsePollView>)
    requires
        !finished(session, polls),
    ensures
        left_by(session, polls).response_error == last_error(polls, session.response_error),
    decreases polls.len(),
{
    if polls.len() > 0 {
        let next = session.after_poll(polls.first()).0;
        let rest = polls.drop_first();
        lemma_poll(session, polls.first());
        lemma_left_by(next, rest);
        lemma_last_error_from_the_front(polls, session.response_error);
        assert(next.response_error == if error_in(polls.first()) is Some {
            error_in(polls.first())
        } else {
            session.response_error
        });
    }
}

proof fn lemma_last_error_from_the_front(polls: Seq<SsePollView>, earlier: Option<ApiErrorView>)
    requires
        polls.len() > 0,
    ensures
        last_error(polls, earlier) == last_error(
            polls.drop_first(),
            if error_in(polls.first()) is Some {
                error_in(polls.first())
            } else {
                earlier
            },
        ),
    decreases polls.len(),
{
    let rest = polls.drop_first();
    if polls.len() == 1 {
        assert(polls.drop_last() =~= Seq::empty());
        assert(polls.last() == polls.first());
    } else {
        let shorter = polls.drop_last();
        assert(rest.last() == polls.last());
        assert(rest.drop_last() =~= shorter.drop_first());
        assert(shorter.first() == polls.first());
        lemma_last_error_from_the_front(shorter, earlier);
    }
}

/// One more poll, where the session has not stopped.
proof fn lemma_one_more_poll(session: SessionView, polls: Seq<SsePollView>, poll: SsePollView)
    requires
        !finished(session, polls),
    ensures
        run(session, polls.push(poll)) == run(session, polls) + left_by(session, polls).after_poll(
            poll,
        ).1.sends,
{
    let left = left_by(session, polls);
    assert(polls.push(poll) =~= polls + seq![poll]);
    let next = left.after_poll(poll).0;
    assert(seq![poll].drop_first() =~= Seq::empty());
    assert(run(next, Seq::empty()) =~= Seq::empty());
    law_polls_in_a_row(session, polls, seq![poll]);
    assert(run(left, seq![poll]) =~= left.after_poll(poll).1.sends);
}

/// Where the stream closes before the turn is complete, the error that was
/// reported last is sent on, and where none was, that the stream closed.
pub proof fn law_the_last_error_is_reported(polls: Seq<SsePollView>)
    requires
        !finished(SessionView::start(), polls),
    ensures
        run(SessionView::start(), polls.push(SsePollView::Closed)) == run(
            SessionView::start(),
            polls,
        ).push(
            match last_error(polls, None) {
                Some(error) => SendView::Err(error),
                None => stream_failure("stream closed before completion"@),
            },
        ),
{
    let start = SessionView::start();
    lemma_left_by(start, polls);
    lemma_one_more_poll(start, polls, SsePollView::Closed);
    assert(run(start, polls.push(SsePollView::Closed)) =~= run(start, polls).push(
        match last_error(polls, None) {
            Some(error) => SendView::Err(error),
            None => stream_failure("stream closed before completion"@),
        },
    ));
}

/// Where the end signal comes before the turn is complete, that is an error,
/// whether or not a chunk came, and whatever errors were reported before.
pub proof fn law_an_early_end_signal_is_an_error(
    polls: Seq<SsePollView>,
    data: Seq<char>,
    error: Option<ChatApiErrorView>,
    chunk: Option<ChatStreamChunkView>,
)
    requires
        !finished(SessionView::start(), polls),
        is_token(data, "[DONE]"@),
    ensures
        run(SessionView::start(), polls.push(SsePollView::Event { data, error, chunk })) == run(
            SessionView::start(),
            polls,
        ).push(stream_failure("stream ended without completion"@)),
{
    let start = SessionView::start();
    let poll = SsePollView::Event { data, error, chunk };
    lemma_one_more_poll(start, polls, poll);
    assert(run(start, polls.push(poll)) =~= run(start, polls).push(
        stream_failure("stream ended without completion"@),
    ));
}

/// Where the stream fails or falls silent before the turn is complete, that
/// is sent on, whatever errors were reported before.
pub proof fn law_a_broken_stream_is_reported(polls: Seq<SsePollView>, message: Seq<char>)
    requires
        !finished(SessionView::start(), polls),
    ensures
        run(SessionView::start(), polls.push(SsePollView::Failed(message))) == run(
            SessionView::start(),
            polls,
        ).push(stream_failure(message)),
        run(SessionView::start(), polls.push(SsePollView::TimedOut)) == run(
            SessionView::start(),
            polls,
        ).push(stream_failure("idle timeout waiting for SSE"@)),
{
    let start = SessionView::start();
    lemma_one_more_poll(start, polls, SsePollView::Failed(message));
    lemma_one_more_poll(start, polls, SsePollView::TimedOut);
    assert(run(start, polls.push(SsePollView::Failed(message))) =~= run(start, polls).push(
        stream_failure(message),
    ));
    assert(run(start, polls.push(SsePollView::TimedOut)) =~= run(start, polls).push(
        stream_failure("idle timeout waiting for SSE"@),
    ));
}

} // verus!
