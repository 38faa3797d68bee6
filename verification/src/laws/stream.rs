//! What the converter keeps of a streamed reply.
use crate::chunk::{ChatChoiceView, ChatDeltaToolCallView, ChatStreamChunkView, ChatUsage};
use crate::convert::texts_of;
use crate::converter::{call_done, is_known_reason, item_id, ConverterView, ToolCallView};
use crate::laws::gather::{
    gather, lemma_gather_add, lemma_gather_none, lemma_gather_one, lemma_gather_push,
};
use crate::protocol::{ContentItemView, MessagePhase, ResponseEventView, ResponseItemView};
use crate::text::{concat, decimal_text, lemma_decimal_injective};
use vstd::prelude::*;

verus! {

/// The text that an event streams.
pub open spec fn text_delta(event: ResponseEventView) -> Seq<char> {
    match event {
        ResponseEventView::OutputTextDelta(text) => text,
        _ => Seq::empty(),
    }
}

/// The reasoning that an event streams.
pub open spec fn reasoning_delta(event: ResponseEventView) -> Seq<char> {
    match event {
        ResponseEventView::ReasoningSummaryDelta { delta, .. } => delta,
        _ => Seq::empty(),
    }
}

/// The text of the message that an event hands out.
pub open spec fn message_text(event: ResponseEventView) -> Seq<char> {
    match event {
        ResponseEventView::OutputItemDone(ResponseItemView::Message { content, .. }) => concat(
            texts_of(content),
        ),
        _ => Seq::empty(),
    }
}

/// The reasoning that an event hands out.
pub open spec fn reasoning_text(event: ResponseEventView) -> Seq<char> {
    match event {
        ResponseEventView::OutputItemDone(
            ResponseItemView::Reasoning { encrypted_content: Some(text), .. },
        ) => text,
        _ => Seq::empty(),
    }
}

/// Whether a choice ends the turn.
pub open spec fn completes(choice: ChatChoiceView) -> bool {
    match choice.finish_reason {
        Some(reason) => is_known_reason(reason),
        None => false,
    }
}

/// Whether a choice hands the reasoning out.
pub open spec fn hands_out_reasoning(choice: ChatChoiceView) -> bool {
    ||| choice.finish_reason == Some("stop"@)
    ||| choice.finish_reason == Some("tool_calls"@)
}

/// Tool calls change the list of calls alone, and each is reported once.
pub proof fn lemma_calls_frame(state: ConverterView, deltas: Seq<ChatDeltaToolCallView>)
    ensures
        ({
            let (after, events) = state.after_calls(deltas);
            &&& after == (ConverterView {
                tool_call_accum: after.tool_call_accum,
                tool_calls_started: after.tool_calls_started,
                ..state
            })
            &&& events.len() == deltas.len()
            &&& forall|i: int|
                0 <= i < events.len() ==> #[trigger] events[i] is ToolCallInputDelta
        }),
    decreases deltas.len(),
{
    if deltas.len() > 0 {
        lemma_calls_frame(state, deltas.drop_last());
    }
}

/// A message that is handed out holds its text.
proof fn lemma_message_text(state: ConverterView, phase: MessagePhase)
    ensures
        message_text(state.flush_text(phase).1[0]) == state.accumulated_text,
{
    let content = seq![ContentItemView::OutputText { text: state.accumulated_text }];
    assert(content.drop_last() =~= Seq::empty());
    assert(texts_of(content.drop_last()) =~= Seq::empty());
    assert(texts_of(content) =~= seq![state.accumulated_text]);
    assert(texts_of(content).drop_last() =~= Seq::empty());
    assert(concat(texts_of(content).drop_last()) =~= Seq::empty());
    assert(concat(texts_of(content)) =~= state.accumulated_text);
}

/// What the four kinds of events in a choice amount to.
pub proof fn lemma_choice_parts<A>(
    state: ConverterView,
    choice: ChatChoiceView,
    usage: Option<ChatUsage>,
    part: spec_fn(ResponseEventView) -> Seq<A>,
)
    ensures
        ({
            let (reasoned, reasoning) = state.after_reasoning(choice.delta.reasoning());
            let (called, calls) = reasoned.after_calls(choice.delta.calls());
            let (spoken, text) = called.after_text(choice.delta.text());
            let (finished, end) = spoken.after_finish(choice.finish_reason, usage);
            gather(state.after_choice(choice, usage).1, part) == gather(reasoning, part) + gather(
                calls,
                part,
            ) + gather(text, part) + gather(end, part)
        }),
{
    let (reasoned, reasoning) = state.after_reasoning(choice.delta.reasoning());
    let (called, calls) = reasoned.after_calls(choice.delta.calls());
    let (spoken, text) = called.after_text(choice.delta.text());
    let (finished, end) = spoken.after_finish(choice.finish_reason, usage);
    lemma_gather_add(reasoning, calls, part);
    lemma_gather_add(reasoning + calls, text, part);
    lemma_gather_add(reasoning + calls + text, end, part);
}

/// The end of a choice hands out the text that was kept and streams none.
proof fn lemma_finish_text(
    state: ConverterView,
    reason: Option<Seq<char>>,
    usage: Option<ChatUsage>,
)
    ensures
        ({
            let (after, events) = state.after_finish(reason, usage);
            let ends = reason == Some("stop"@) || reason == Some("tool_calls"@) || reason == Some(
                "length"@,
            );
            &&& gather(events, |e: ResponseEventView| text_delta(e)) == Seq::<char>::empty()
            &&& gather(events, |e: ResponseEventView| message_text(e)) == if ends {
                state.accumulated_text
            } else {
                Seq::<char>::empty()
            }
            &&& after.accumulated_text == if ends {
                Seq::<char>::empty()
            } else {
                state.accumulated_text
            }
        }),
{
    let part = |e: ResponseEventView| message_text(e);
    let (after, events) = state.after_finish(reason, usage);
    lemma_gather_none(events, |e: ResponseEventView| text_delta(e));
    let (reasoned, reasoning) = state.flush_reasoning();
    lemma_gather_none(reasoning, part);
    lemma_message_text(reasoned, MessagePhase::FinalAnswer);
    lemma_message_text(reasoned, MessagePhase::Commentary);
    lemma_message_text(state, MessagePhase::FinalAnswer);
    if reason == Some("stop"@) {
        let message = events.subrange(reasoning.len() as int, events.len() - 1);
        assert(events =~= (reasoning + message).push(events.last()));
        lemma_gather_push(reasoning + message, events.last(), part);
        lemma_gather_add(reasoning, message, part);
        if message.len() == 1 {
            lemma_gather_one(message[0], part);
            assert(message =~= seq![message[0]]);
        } else {
            assert(state.accumulated_text =~= Seq::empty());
        }
        assert(gather(events, part) =~= state.accumulated_text);
    } else if reason == Some("tool_calls"@) {
        let calls = state.tool_call_accum.map_values(|call: ToolCallView| call_done(call));
        let message = events.subrange(reasoning.len() as int, events.len() - 1 - calls.len());
        lemma_gather_none(calls, part);
        assert(events =~= (reasoning + message + calls).push(events.last()));
        lemma_gather_push(reasoning + message + calls, events.last(), part);
        lemma_gather_add(reasoning + message, calls, part);
        lemma_gather_add(reasoning, message, part);
        if message.len() == 1 {
            lemma_gather_one(message[0], part);
            assert(message =~= seq![message[0]]);
        } else {
            assert(state.accumulated_text =~= Seq::empty());
        }
        assert(gather(events, part) =~= state.accumulated_text);
    } else if reason == Some("length"@) {
        let message = events.drop_last();
        assert(events =~= message.push(events.last()));
        lemma_gather_push(message, events.last(), part);
        if message.len() == 1 {
            lemma_gather_one(message[0], part);
            assert(message =~= seq![message[0]]);
        } else {
            assert(state.accumulated_text =~= Seq::empty());
        }
        assert(gather(events, part) =~= state.accumulated_text);
    }
}

/// Of one choice: the text that it streams is the text that it adds, and
/// what was kept and what it adds is what it hands out and what stays kept.
pub proof fn lemma_choice_text(
    state: ConverterView,
    choice: ChatChoiceView,
    usage: Option<ChatUsage>,
)
    ensures
        ({
            let (after, events) = state.after_choice(choice, usage);
            let streamed = gather(events, |e: ResponseEventView| text_delta(e));
            let handed_out = gather(events, |e: ResponseEventView| message_text(e));
            &&& streamed == choice.delta.text()
            &&& state.accumulated_text + streamed == handed_out + after.accumulated_text
            &&& completes(choice) ==> after.accumulated_text.len() == 0
            &&& !completes(choice) ==> handed_out.len() == 0
        }),
{
    let deltas = |e: ResponseEventView| text_delta(e);
    let messages = |e: ResponseEventView| message_text(e);
    let (reasoned, reasoning) = state.after_reasoning(choice.delta.reasoning());
    let (called, calls) = reasoned.after_calls(choice.delta.calls());
    let (spoken, text) = called.after_text(choice.delta.text());
    let (finished, end) = spoken.after_finish(choice.finish_reason, usage);
    lemma_calls_frame(reasoned, choice.delta.calls());
    lemma_choice_parts(state, choice, usage, deltas);
    lemma_choice_parts(state, choice, usage, messages);
    lemma_gather_none(reasoning, deltas);
    lemma_gather_none(reasoning, messages);
    lemma_gather_none(calls, deltas);
    lemma_gather_none(calls, messages);
    lemma_gather_none(text, messages);
    if text.len() > 0 {
        lemma_gather_one(ResponseEventView::OutputTextDelta(choice.delta.text()), deltas);
    } else {
        assert(choice.delta.text() =~= Seq::empty());
    }
    assert(gather(text, deltas) == choice.delta.text());
    lemma_finish_text(spoken, choice.finish_reason, usage);
    let events = state.after_choice(choice, usage).1;
    assert(gather(events, deltas) =~= choice.delta.text());
    assert(gather(events, messages) =~= gather(end, messages));
    assert(spoken.accumulated_text =~= state.accumulated_text + choice.delta.text());
    assert(state.accumulated_text + choice.delta.text() =~= gather(end, messages)
        + finished.accumulated_text);
}

/// The end of a choice hands out the reasoning that was kept, or keeps it,
/// and streams none.
#[verifier::rlimit(60)]
proof fn lemma_finish_reasoning(
    state: ConverterView,
    reason: Option<Seq<char>>,
    usage: Option<ChatUsage>,
)
    ensures
        ({
            let (after, events) = state.after_finish(reason, usage);
            let ends = reason == Some("stop"@) || reason == Some("tool_calls"@);
            &&& gather(events, |e: ResponseEventView| reasoning_delta(e)) == Seq::<char>::empty()
            &&& gather(events, |e: ResponseEventView| reasoning_text(e)) == if ends {
                state.accumulated_reasoning
            } else {
                Seq::<char>::empty()
            }
            &&& after.accumulated_reasoning == if ends {
                Seq::<char>::empty()
            } else {
                state.accumulated_reasoning
            }
            &&& state.reasoning_summary == state.accumulated_reasoning ==> after.reasoning_summary
                == after.accumulated_reasoning
        }),
{
    let part = |e: ResponseEventView| reasoning_text(e);
    let (after, events) = state.after_finish(reason, usage);
    lemma_gather_none(events, |e: ResponseEventView| reasoning_delta(e));
    lemma_reasons_differ();
    let (reasoned, reasoning) = state.flush_reasoning();
    if reason == Some("stop"@) || reason == Some("tool_calls"@) {
        let rest = events.skip(reasoning.len() as int);
        assert(events =~= reasoning + rest);
        lemma_gather_add(reasoning, rest, part);
        lemma_gather_none(rest, part);
        if reasoning.len() == 1 {
            lemma_gather_one(reasoning[0], part);
            assert(reasoning =~= seq![reasoning[0]]);
        } else {
            assert(state.accumulated_reasoning =~= Seq::empty());
        }
        assert(gather(events, part) =~= state.accumulated_reasoning);
        assert(after.accumulated_reasoning =~= Seq::empty());
    } else {
        lemma_gather_none(events, part);
    }
}

pub proof fn lemma_reasons_differ()
    ensures
        "stop"@ != "length"@,
        "stop"@ != "tool_calls"@,
        "tool_calls"@ != "length"@,
{
    reveal_strlit("stop");
    reveal_strlit("length");
    reveal_strlit("tool_calls");
    assert("stop"@.len() != "length"@.len());
    assert("stop"@.len() != "tool_calls"@.len());
    assert("tool_calls"@.len() != "length"@.len());
}

/// Of one choice: the reasoning that it streams is the reasoning that it
/// adds, and what was kept and what it adds is what it hands out and what
/// stays kept.
pub proof fn lemma_choice_reasoning(
    state: ConverterView,
    choice: ChatChoiceView,
    usage: Option<ChatUsage>,
)
    ensures
        ({
            let (after, events) = state.after_choice(choice, usage);
            let streamed = gather(events, |e: ResponseEventView| reasoning_delta(e));
            let handed_out = gather(events, |e: ResponseEventView| reasoning_text(e));
            &&& streamed == choice.delta.reasoning()
            &&& state.accumulated_reasoning + streamed == handed_out + after.accumulated_reasoning
            &&& hands_out_reasoning(choice) ==> after.accumulated_reasoning.len() == 0
            &&& !hands_out_reasoning(choice) ==> handed_out.len() == 0
            &&& state.reasoning_summary == state.accumulated_reasoning ==> after.reasoning_summary
                == after.accumulated_reasoning
        }),
{
    let deltas = |e: ResponseEventView| reasoning_delta(e);
    let items = |e: ResponseEventView| reasoning_text(e);
    let (reasoned, reasoning) = state.after_reasoning(choice.delta.reasoning());
    let (called, calls) = reasoned.after_calls(choice.delta.calls());
    let (spoken, text) = called.after_text(choice.delta.text());
    let (finished, end) = spoken.after_finish(choice.finish_reason, usage);
    lemma_calls_frame(reasoned, choice.delta.calls());
    lemma_choice_parts(state, choice, usage, deltas);
    lemma_choice_parts(state, choice, usage, items);
    lemma_gather_none(reasoning, items);
    lemma_gather_none(calls, deltas);
    lemma_gather_none(calls, items);
    lemma_gather_none(text, deltas);
    lemma_gather_none(text, items);
    if reasoning.len() > 0 {
        lemma_gather_one(reasoning[0], deltas);
        assert(reasoning =~= seq![reasoning[0]]);
    } else {
        assert(choice.delta.reasoning() =~= Seq::empty());
    }
    assert(gather(reasoning, deltas) == choice.delta.reasoning());
    lemma_finish_reasoning(spoken, choice.finish_reason, usage);
    let events = state.after_choice(choice, usage).1;
    assert(gather(events, deltas) =~= choice.delta.reasoning());
    assert(gather(events, items) =~= gather(end, items));
    assert(spoken.accumulated_reasoning =~= state.accumulated_reasoning
        + choice.delta.reasoning());
    assert(state.accumulated_reasoning + choice.delta.reasoning() =~= gather(end, items)
        + finished.accumulated_reasoning);
}

/// A choice together with the token count of its chunk.
pub type Taken = (ChatChoiceView, Option<ChatUsage>);

/// The choices of a chunk, each with the token count of the chunk.
pub open spec fn taken_of(chunk: ChatStreamChunkView) -> Seq<Taken> {
    chunk.choices.map_values(|choice: ChatChoiceView| (choice, chunk.usage))
}

/// Choices, one after the other, of whatever chunks.
pub open spec fn after_taken(state: ConverterView, taken: Seq<Taken>) -> (
    ConverterView,
    Seq<ResponseEventView>,
)
    decreases taken.len(),
{
    if taken.len() == 0 {
        (state, Seq::empty())
    } else {
        let (before, events) = after_taken(state, taken.drop_last());
        let (after, last) = before.after_choice(taken.last().0, taken.last().1);
        (after, events + last)
    }
}

/// Chunks, one after the other.
pub open spec fn after_chunks(state: ConverterView, chunks: Seq<ChatStreamChunkView>) -> (
    ConverterView,
    Seq<ResponseEventView>,
)
    decreases chunks.len(),
{
    if chunks.len() == 0 {
        (state, Seq::empty())
    } else {
        let (before, events) = after_chunks(state, chunks.drop_last());
        let (after, last) = before.after_chunk(chunks.last());
        (after, events + last)
    }
}

/// To take in choices and then others is to take in both in a row.
pub proof fn lemma_taken_in_a_row(state: ConverterView, left: Seq<Taken>, right: Seq<Taken>)
    ensures
        after_taken(state, left + right).0 == after_taken(after_taken(state, left).0, right).0,
        after_taken(state, left + right).1 == after_taken(state, left).1 + after_taken(
            after_taken(state, left).0,
            right,
        ).1,
    decreases right.len(),
{
    if right.len() == 0 {
        assert(left + right =~= left);
        assert(after_taken(state, left).1 + Seq::empty() =~= after_taken(state, left).1);
    } else {
        assert((left + right).drop_last() =~= left + right.drop_last());
        lemma_taken_in_a_row(state, left, right.drop_last());
        assert(after_taken(state, left + right).1 =~= after_taken(state, left).1 + after_taken(
            after_taken(state, left).0,
            right,
        ).1);
    }
}

/// A chunk is its choices.
pub proof fn lemma_chunk_is_its_choices(
    state: ConverterView,
    choices: Seq<ChatChoiceView>,
    usage: Option<ChatUsage>,
)
    ensures
        state.after_choices(choices, usage) == after_taken(
            state,
            choices.map_values(|choice: ChatChoiceView| (choice, usage)),
        ),
    decreases choices.len(),
{
    let taken = choices.map_values(|choice: ChatChoiceView| (choice, usage));
    if choices.len() > 0 {
        lemma_chunk_is_its_choices(state, choices.drop_last(), usage);
        assert(taken.drop_last() =~= choices.drop_last().map_values(
            |choice: ChatChoiceView| (choice, usage),
        ));
    }
}

/// Chunks are their choices.
pub proof fn lemma_chunks_are_their_choices(
    state: ConverterView,
    chunks: Seq<ChatStreamChunkView>,
)
    ensures
        after_chunks(state, chunks) == after_taken(
            state,
            gather(chunks, |c: ChatStreamChunkView| taken_of(c)),
        ),
    decreases chunks.len(),
{
    let part = |c: ChatStreamChunkView| taken_of(c);
    if chunks.len() > 0 {
        let chunk = chunks.last();
        lemma_chunks_are_their_choices(state, chunks.drop_last());
        lemma_chunk_is_its_choices(
            after_chunks(state, chunks.drop_last()).0,
            chunk.choices,
            chunk.usage,
        );
        lemma_taken_in_a_row(state, gather(chunks.drop_last(), part), taken_of(chunk));
    }
}

/// What is kept over two steps, each of which keeps it.
proof fn lemma_kept_in_a_row<A>(
    first: Seq<A>,
    more: Seq<A>,
    out: Seq<A>,
    second: Seq<A>,
    further: Seq<A>,
    rest: Seq<A>,
    third: Seq<A>,
)
    requires
        first + more == out + second,
        second + further == rest + third,
    ensures
        first + (more + further) == (out + rest) + third,
{
    assert(first + (more + further) =~= (first + more) + further);
    assert((out + second) + further =~= out + (second + further));
    assert(out + (rest + third) =~= (out + rest) + third);
}

/// Of choices in a row: what was kept of the text and what they stream is
/// what they hand out and what stays kept.
pub proof fn lemma_taken_text(state: ConverterView, taken: Seq<Taken>)
    ensures
        ({
            let (after, events) = after_taken(state, taken);
            let streamed = gather(events, |e: ResponseEventView| text_delta(e));
            let handed_out = gather(events, |e: ResponseEventView| message_text(e));
            state.accumulated_text + streamed == handed_out + after.accumulated_text
        }),
    decreases taken.len(),
{
    let deltas = |e: ResponseEventView| text_delta(e);
    let items = |e: ResponseEventView| message_text(e);
    if taken.len() == 0 {
        assert(state.accumulated_text + gather(Seq::empty(), deltas) =~= gather(
            Seq::empty(),
            items,
        ) + state.accumulated_text);
    } else {
        let (before, events) = after_taken(state, taken.drop_last());
        let (after, last) = before.after_choice(taken.last().0, taken.last().1);
        lemma_taken_text(state, taken.drop_last());
        lemma_choice_text(before, taken.last().0, taken.last().1);
        lemma_gather_add(events, last, deltas);
        lemma_gather_add(events, last, items);
        lemma_kept_in_a_row(
            state.accumulated_text,
            gather(events, deltas),
            gather(events, items),
            before.accumulated_text,
            gather(last, deltas),
            gather(last, items),
            after.accumulated_text,
        );
    }
}

/// Of choices in a row: what was kept of the reasoning and what they stream
/// is what they hand out and what stays kept.
pub proof fn lemma_taken_reasoning(state: ConverterView, taken: Seq<Taken>)
    ensures
        ({
            let (after, events) = after_taken(state, taken);
            let streamed = gather(events, |e: ResponseEventView| reasoning_delta(e));
            let handed_out = gather(events, |e: ResponseEventView| reasoning_text(e));
            &&& state.accumulated_reasoning + streamed == handed_out + after.accumulated_reasoning
            &&& state.reasoning_summary == state.accumulated_reasoning ==> after.reasoning_summary
                == after.accumulated_reasoning
        }),
    decreases taken.len(),
{
    let deltas = |e: ResponseEventView| reasoning_delta(e);
    let items = |e: ResponseEventView| reasoning_text(e);
    if taken.len() == 0 {
        assert(state.accumulated_reasoning + gather(Seq::empty(), deltas) =~= gather(
            Seq::empty(),
            items,
        ) + state.accumulated_reasoning);
    } else {
        let (before, events) = after_taken(state, taken.drop_last());
        let (after, last) = before.after_choice(taken.last().0, taken.last().1);
        lemma_taken_reasoning(state, taken.drop_last());
        lemma_choice_reasoning(before, taken.last().0, taken.last().1);
        lemma_gather_add(events, last, deltas);
        lemma_gather_add(events, last, items);
        lemma_kept_in_a_row(
            state.accumulated_reasoning,
            gather(events, deltas),
            gather(events, items),
            before.accumulated_reasoning,
            gather(last, deltas),
            gather(last, items),
            after.accumulated_reasoning,
        );
    }
}

/// Whatever chunks come: the text that was kept and the text that is
/// streamed is, without loss, repetition or reordering, the text of the
/// messages that are handed out and the text that stays kept.
pub proof fn law_text_is_conserved(state: ConverterView, chunks: Seq<ChatStreamChunkView>)
    ensures
        ({
            let (after, events) = after_chunks(state, chunks);
            let streamed = gather(events, |e: ResponseEventView| text_delta(e));
            let handed_out = gather(events, |e: ResponseEventView| message_text(e));
            state.accumulated_text + streamed == handed_out + after.accumulated_text
        }),
{
    lemma_chunks_are_their_choices(state, chunks);
    lemma_taken_text(state, gather(chunks, |c: ChatStreamChunkView| taken_of(c)));
}

/// Whatever chunks come: the reasoning that was kept and the reasoning that
/// is streamed is, without loss, repetition or reordering, the reasoning
/// that is handed out and the reasoning that stays kept; and the summary
/// follows it.
pub proof fn law_reasoning_is_conserved(state: ConverterView, chunks: Seq<ChatStreamChunkView>)
    ensures
        ({
            let (after, events) = after_chunks(state, chunks);
            let streamed = gather(events, |e: ResponseEventView| reasoning_delta(e));
            let handed_out = gather(events, |e: ResponseEventView| reasoning_text(e));
            &&& state.accumulated_reasoning + streamed == handed_out + after.accumulated_reasoning
            &&& state.reasoning_summary == state.accumulated_reasoning ==> after.reasoning_summary
                == after.accumulated_reasoning
        }),
{
    lemma_chunks_are_their_choices(state, chunks);
    lemma_taken_reasoning(state, gather(chunks, |c: ChatStreamChunkView| taken_of(c)));
}

/// The identifier of the numbered item that an event hands out: messages
/// and reasoning are numbered, tool calls bear names of their own.
pub open spec fn numbered_id(event: ResponseEventView) -> Seq<Seq<char>> {
    match event {
        ResponseEventView::OutputItemDone(ResponseItemView::Message { id: Some(id), .. }) => seq![
            id,
        ],
        ResponseEventView::OutputItemDone(ResponseItemView::Reasoning { id: Some(id), .. }) => seq![
            id,
        ],
        _ => Seq::empty(),
    }
}

/// The identifiers of the items behind the first `from`, up to the `to`th.
pub open spec fn ids_between(from: nat, to: nat) -> Seq<Seq<char>> {
    Seq::new((to - from) as nat, |i: int| item_id((from + 1 + i) as nat))
}

proof fn lemma_finish_ids(
    state: ConverterView,
    reason: Option<Seq<char>>,
    usage: Option<ChatUsage>,
)
    ensures
        ({
            let (after, events) = state.after_finish(reason, usage);
            &&& state.item_id_counter <= after.item_id_counter
            &&& gather(events, |e: ResponseEventView| numbered_id(e)) == ids_between(
                state.item_id_counter,
                after.item_id_counter,
            )
        }),
{
    let part = |e: ResponseEventView| numbered_id(e);
    let (after, events) = state.after_finish(reason, usage);
    let wanted = ids_between(state.item_id_counter, after.item_id_counter);
    let (reasoned, reasoning) = state.flush_reasoning();
    if reasoning.len() == 1 {
        lemma_gather_one(reasoning[0], part);
        assert(reasoning =~= seq![reasoning[0]]);
    }
    if reason == Some("stop"@) || reason == Some("tool_calls"@) {
        let calls = if reason == Some("stop"@) {
            Seq::empty()
        } else {
            state.tool_call_accum.map_values(|call: ToolCallView| call_done(call))
        };
        let message = events.subrange(reasoning.len() as int, events.len() - 1 - calls.len());
        assert(events =~= (reasoning + message + calls).push(events.last()));
        lemma_gather_push(reasoning + message + calls, events.last(), part);
        lemma_gather_add(reasoning + message, calls, part);
        lemma_gather_add(reasoning, message, part);
        lemma_gather_none(calls, part);
        if message.len() == 1 {
            lemma_gather_one(message[0], part);
            assert(message =~= seq![message[0]]);
        }
        assert(gather(events, part) =~= wanted);
    } else if reason == Some("length"@) {
        let message = events.drop_last();
        assert(events =~= message.push(events.last()));
        lemma_gather_push(message, events.last(), part);
        if message.len() == 1 {
            lemma_gather_one(message[0], part);
            assert(message =~= seq![message[0]]);
        }
        assert(gather(events, part) =~= wanted);
    } else {
        assert(gather(events, part) =~= wanted);
    }
}

proof fn lemma_taken_ids(state: ConverterView, taken: Seq<Taken>)
    ensures
        ({
            let (after, events) = after_taken(state, taken);
            &&& state.item_id_counter <= after.item_id_counter
            &&& gather(events, |e: ResponseEventView| numbered_id(e)) == ids_between(
                state.item_id_counter,
                after.item_id_counter,
            )
        }),
    decreases taken.len(),
{
    let part = |e: ResponseEventView| numbered_id(e);
    let (after, events) = after_taken(state, taken);
    if taken.len() == 0 {
        assert(gather(events, part) =~= ids_between(state.item_id_counter, state.item_id_counter));
    } else {
        let (before, earlier) = after_taken(state, taken.drop_last());
        let (choice, usage) = taken.last();
        let last = before.after_choice(choice, usage).1;
        lemma_taken_ids(state, taken.drop_last());
        let (reasoned, reasoning) = before.after_reasoning(choice.delta.reasoning());
        let (called, calls) = reasoned.after_calls(choice.delta.calls());
        let (spoken, text) = called.after_text(choice.delta.text());
        lemma_calls_frame(reasoned, choice.delta.calls());
        lemma_choice_parts(before, choice, usage, part);
        lemma_gather_none(reasoning, part);
        lemma_gather_none(calls, part);
        lemma_gather_none(text, part);
        lemma_finish_ids(spoken, choice.finish_reason, usage);
        lemma_gather_add(earlier, last, part);
        assert(gather(events, part) =~= ids_between(state.item_id_counter, after.item_id_counter));
    }
}

/// Whatever chunks come: the messages and the reasoning that are handed out
/// are numbered in the order in which they are handed out, without a gap.
pub proof fn law_items_are_numbered_in_order(
    state: ConverterView,
    chunks: Seq<ChatStreamChunkView>,
)
    ensures
        ({
            let (after, events) = after_chunks(state, chunks);
            &&& state.item_id_counter <= after.item_id_counter
            &&& gather(events, |e: ResponseEventView| numbered_id(e)) == ids_between(
                state.item_id_counter,
                after.item_id_counter,
            )
        }),
{
    lemma_chunks_are_their_choices(state, chunks);
    lemma_taken_ids(state, gather(chunks, |c: ChatStreamChunkView| taken_of(c)));
}

/// No two items of a turn have the same identifier.
pub proof fn law_item_ids_differ(a: nat, b: nat)
    requires
        a != b,
    ensures
        item_id(a) != item_id(b),
{
    let (left, right) = (item_id(a), item_id(b));
    if left == right {
        let prefix = "msg_"@.len() as int;
        assert(left.skip(prefix) =~= decimal_text(a));
        assert(right.skip(prefix) =~= decimal_text(b));
        lemma_decimal_injective(a, b);
    }
}

/// The end of a choice reports completion exactly where it ends the turn,
/// once and last.
pub proof fn lemma_finish_completion(
    state: ConverterView,
    reason: Option<Seq<char>>,
    usage: Option<ChatUsage>,
)
    ensures
        ({
            let (after, events) = state.after_finish(reason, usage);
            let ends = reason == Some("stop"@) || reason == Some("tool_calls"@) || reason == Some(
                "length"@,
            );
            &&& ends <==> events.len() > 0
            &&& ends ==> events.last() == state.completed(usage, reason != Some("tool_calls"@))
            &&& forall|i: int|
                0 <= i < events.len() - 1 ==> (#[trigger] events[i]) is OutputItemDone
            &&& after.response_id == state.response_id
            &&& after.model == state.model
        }),
{
    lemma_reasons_differ();
}

/// Of one choice: it reports completion exactly where it ends the turn, once
/// and as its last event, under the identifier of the response; the turn
/// goes on exactly where tool calls were asked for. Items are handed out
/// only with that report. The names of the response do not change, and
/// nothing is reported as created.
pub proof fn law_completion_ends_a_choice(
    state: ConverterView,
    choice: ChatChoiceView,
    usage: Option<ChatUsage>,
)
    ensures
        ({
            let (after, events) = state.after_choice(choice, usage);
            &&& completes(choice) ==> events.len() > 0 && events.last() == state.completed(
                usage,
                choice.finish_reason != Some("tool_calls"@),
            )
            &&& forall|i: int|
                0 <= i < events.len() && (#[trigger] events[i]) is Completed ==> completes(choice)
                    && i == events.len() - 1
            &&& forall|i: int|
                0 <= i < events.len() && (#[trigger] events[i]) is OutputItemDone ==> completes(
                    choice,
                )
            &&& forall|i: int| 0 <= i < events.len() ==> !((#[trigger] events[i]) is Created)
            &&& after.response_id == state.response_id
            &&& after.model == state.model
        }),
{
    let (reasoned, reasoning) = state.after_reasoning(choice.delta.reasoning());
    let (called, calls) = reasoned.after_calls(choice.delta.calls());
    let (spoken, text) = called.after_text(choice.delta.text());
    let (finished, end) = spoken.after_finish(choice.finish_reason, usage);
    let events = state.after_choice(choice, usage).1;
    lemma_calls_frame(reasoned, choice.delta.calls());
    lemma_finish_completion(spoken, choice.finish_reason, usage);
    let earlier = reasoning + calls + text;
    assert(events == earlier + end);
    assert forall|i: int| 0 <= i < earlier.len() implies !((#[trigger] events[i]) is Completed)
        && !(events[i] is OutputItemDone) && !(events[i] is Created) by {
        assert(events[i] == earlier[i]);
        if i < reasoning.len() {
            assert(earlier[i] == reasoning[i]);
        } else if i < reasoning.len() + calls.len() {
            assert(earlier[i] == calls[i - reasoning.len()]);
        } else {
            assert(earlier[i] == text[i - reasoning.len() - calls.len()]);
        }
    }
    assert forall|i: int| earlier.len() <= i < events.len() implies (#[trigger] events[i])
        == end[i - earlier.len()] by {}
}

/// The place of an item in the order in which a turn hands items out:
/// reasoning, then the message, then the calls.
pub open spec fn place_in_turn(event: ResponseEventView) -> int {
    match event {
        ResponseEventView::OutputItemDone(ResponseItemView::Reasoning { .. }) => 0,
        ResponseEventView::OutputItemDone(ResponseItemView::Message { .. }) => 1,
        _ => 2,
    }
}

/// Within a choice, the reasoning is handed out before the message, and the
/// message before the tool calls.
pub proof fn law_items_come_in_order(
    state: ConverterView,
    choice: ChatChoiceView,
    usage: Option<ChatUsage>,
    i: int,
    j: int,
)
    requires
        0 <= i < j < state.after_choice(choice, usage).1.len(),
        state.after_choice(choice, usage).1[i] is OutputItemDone,
        state.after_choice(choice, usage).1[j] is OutputItemDone,
    ensures
        place_in_turn(state.after_choice(choice, usage).1[i]) <= place_in_turn(
            state.after_choice(choice, usage).1[j],
        ),
{
    let (reasoned, reasoning) = state.after_reasoning(choice.delta.reasoning());
    let (called, calls) = reasoned.after_calls(choice.delta.calls());
    let (spoken, text) = called.after_text(choice.delta.text());
    let (finished, end) = spoken.after_finish(choice.finish_reason, usage);
    lemma_calls_frame(reasoned, choice.delta.calls());
    let earlier = reasoning + calls + text;
    let events = state.after_choice(choice, usage).1;
    assert(events =~= earlier + end);
    assert(forall|k: int|
        0 <= k < earlier.len() ==> !((#[trigger] earlier[k]) is OutputItemDone));
    lemma_finish_order(spoken, choice.finish_reason, usage, i - earlier.len(), j - earlier.len());
}

proof fn lemma_finish_order(
    state: ConverterView,
    reason: Option<Seq<char>>,
    usage: Option<ChatUsage>,
    i: int,
    j: int,
)
    requires
        0 <= i < j < state.after_finish(reason, usage).1.len(),
    ensures
        place_in_turn(state.after_finish(reason, usage).1[i]) <= place_in_turn(
            state.after_finish(reason, usage).1[j],
        ),
{
    let events = state.after_finish(reason, usage).1;
    let (reasoned, reasoning) = state.flush_reasoning();
    lemma_reasons_differ();
    if reason == Some("tool_calls"@) {
        let message = reasoned.flush_some_text(MessagePhase::Commentary).1;
        let calls = state.tool_call_accum.map_values(|call: ToolCallView| call_done(call));
        assert(events =~= (reasoning + message + calls).push(events.last()));
    }
}

/// Every piece of a tool call is reported, in order, with its fragment of
/// the arguments.
pub proof fn law_every_piece_of_a_call_is_reported(
    state: ConverterView,
    deltas: Seq<ChatDeltaToolCallView>,
)
    ensures
        ({
            let events = state.after_calls(deltas).1;
            &&& events.len() == deltas.len()
            &&& forall|i: int|
                0 <= i < deltas.len() ==> (#[trigger] events[i] matches
                    ResponseEventView::ToolCallInputDelta { item_id, call_id, delta } && delta
                    == deltas[i].fragment() && call_id == Some(item_id))
        }),
    decreases deltas.len(),
{
    if deltas.len() > 0 {
        law_every_piece_of_a_call_is_reported(state, deltas.drop_last());
    }
}

/// Where the model stopped, nothing of its text or reasoning stays behind;
/// where it asked for tool calls, no call does either.
pub proof fn law_nothing_stays_behind(
    state: ConverterView,
    choice: ChatChoiceView,
    usage: Option<ChatUsage>,
)
    ensures
        hands_out_reasoning(choice) ==> {
            let after = state.after_choice(choice, usage).0;
            &&& after.accumulated_text.len() == 0
            &&& after.accumulated_reasoning.len() == 0
            &&& !after.content_started
        },
        choice.finish_reason == Some("tool_calls"@) ==> {
            let after = state.after_choice(choice, usage).0;
            after.tool_call_accum.len() == 0 && !after.tool_calls_started
        },
{
    lemma_choice_text(state, choice, usage);
    lemma_choice_reasoning(state, choice, usage);
    lemma_reasons_differ();
}

} // verus!
