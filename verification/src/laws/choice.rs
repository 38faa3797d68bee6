//! What one choice does, in terms of its fields: what it streams, what it
//! hands out, what it leaves behind, and in which order.
use crate::chunk::{ChatChoiceView, ChatDeltaToolCallView, ChatUsage};
use crate::converter::{call_done, ConverterView, ToolCallView};
use crate::laws::calls::{
    call_at, last_id, law_a_call_is_its_fields, lemma_calls_are_merged, lemma_choice_calls,
    merged_calls,
};
use crate::laws::fields::{arguments_in, ends_turn, or_empty, pieces_in};
use crate::laws::gather::{
    gather, lemma_gather_add, lemma_gather_none, lemma_gather_one, lemma_gather_push,
};
use crate::laws::replay::item_in;
use crate::laws::stream::{
    lemma_calls_frame, lemma_choice_parts, lemma_finish_completion, lemma_reasons_differ,
};
use crate::protocol::{
    ContentItemView, MessagePhase, ResponseEventView, ResponseItemView, TokenUsage,
};
use crate::text::decimal_text;
use vstd::prelude::*;

verus! {

/// The piece of text that an event streams.
pub open spec fn word(event: ResponseEventView) -> Seq<Seq<char>> {
    match event {
        ResponseEventView::OutputTextDelta(text) => seq![text],
        _ => Seq::empty(),
    }
}

/// The piece of reasoning that an event streams, and its place in the
/// summary.
pub open spec fn thought(event: ResponseEventView) -> Seq<(Seq<char>, i64)> {
    match event {
        ResponseEventView::ReasoningSummaryDelta { delta, summary_index } => seq![
            (delta, summary_index),
        ],
        _ => Seq::empty(),
    }
}

/// The report of a tool-call piece.
pub struct PieceReport {
    pub item_id: Seq<char>,
    pub call_id: Option<Seq<char>>,
    pub delta: Seq<char>,
}

/// The tool-call piece that an event reports.
pub open spec fn piece_report(event: ResponseEventView) -> Seq<PieceReport> {
    match event {
        ResponseEventView::ToolCallInputDelta { item_id, call_id, delta } => seq![
            PieceReport { item_id, call_id, delta },
        ],
        _ => Seq::empty(),
    }
}

/// An event that reports completion.
pub open spec fn completion(event: ResponseEventView) -> Seq<ResponseEventView> {
    match event {
        ResponseEventView::Completed { .. } => seq![event],
        _ => Seq::empty(),
    }
}

/// The piece of text in a choice that is streamed.
pub open spec fn word_in(choice: ChatChoiceView) -> Seq<Seq<char>> {
    match choice.delta.content {
        Some(text) => if text.len() > 0 {
            seq![text]
        } else {
            Seq::empty()
        },
        None => Seq::empty(),
    }
}

/// The piece of reasoning in a choice that is streamed.
pub open spec fn thought_in(choice: ChatChoiceView) -> Seq<(Seq<char>, i64)> {
    match choice.delta.reasoning_content {
        Some(text) => if text.len() > 0 {
            seq![(text, 0i64)]
        } else {
            Seq::empty()
        },
        None => Seq::empty(),
    }
}

/// Where an event stands among those of a choice.
pub open spec fn rank(event: ResponseEventView) -> int {
    match event {
        ResponseEventView::ReasoningSummaryDelta { .. } => 1,
        ResponseEventView::ToolCallInputDelta { .. } => 2,
        ResponseEventView::OutputTextDelta(_) => 3,
        ResponseEventView::OutputItemDone(ResponseItemView::Reasoning { .. }) => 4,
        ResponseEventView::OutputItemDone(ResponseItemView::Message { .. }) => 5,
        ResponseEventView::OutputItemDone(ResponseItemView::FunctionCall { .. }) => 6,
        ResponseEventView::Completed { .. } => 7,
        _ => 0,
    }
}

/// The token counts that a report of completion bears.
pub open spec fn counts_tokens(usage: Option<ChatUsage>, counted: Option<TokenUsage>) -> bool {
    match usage {
        Some(usage) => {
            &&& counted is Some
            &&& counted->0.input_tokens == usage.prompt_tokens
            &&& counted->0.output_tokens == usage.completion_tokens
            &&& counted->0.total_tokens == usage.total_tokens
            &&& counted->0.cached_input_tokens == 0
            &&& counted->0.reasoning_output_tokens == 0
        },
        None => counted is None,
    }
}

/// Of one choice, a part of the events that only its text, its reasoning, its
/// tool-call pieces or its end has.
proof fn lemma_kinds(state: ConverterView, choice: ChatChoiceView, usage: Option<ChatUsage>)
    ensures
        ({
            let (reasoned, thoughts) = state.after_reasoning(choice.delta.reasoning());
            let (called, pieces) = reasoned.after_calls(choice.delta.calls());
            let (spoken, words) = called.after_text(choice.delta.text());
            let (finished, end) = spoken.after_finish(choice.finish_reason, usage);
            &&& forall|i: int|
                0 <= i < thoughts.len() ==> (#[trigger] thoughts[i]) is ReasoningSummaryDelta
            &&& forall|i: int|
                0 <= i < pieces.len() ==> (#[trigger] pieces[i]) is ToolCallInputDelta
            &&& forall|i: int| 0 <= i < words.len() ==> (#[trigger] words[i]) is OutputTextDelta
            &&& forall|i: int|
                0 <= i < end.len() ==> (#[trigger] end[i]) is OutputItemDone
                    || end[i] is Completed
        }),
{
    let (reasoned, thoughts) = state.after_reasoning(choice.delta.reasoning());
    let (called, pieces) = reasoned.after_calls(choice.delta.calls());
    let (spoken, words) = called.after_text(choice.delta.text());
    let (finished, end) = spoken.after_finish(choice.finish_reason, usage);
    lemma_calls_frame(reasoned, choice.delta.calls());
    lemma_finish_completion(spoken, choice.finish_reason, usage);
    assert forall|i: int| 0 <= i < end.len() implies (#[trigger] end[i]) is OutputItemDone
        || end[i] is Completed by {
        assert(i == end.len() - 1 ==> end[i] == end.last());
    }
}

/// A choice streams its text and its reasoning as they are, each in one
/// piece, and nothing where they are absent or empty.
pub proof fn law_a_choice_streams_what_it_says(
    state: ConverterView,
    choice: ChatChoiceView,
    usage: Option<ChatUsage>,
)
    ensures
        gather(state.after_choice(choice, usage).1, |e: ResponseEventView| word(e)) == word_in(
            choice,
        ),
        gather(state.after_choice(choice, usage).1, |e: ResponseEventView| thought(e))
            == thought_in(choice),
{
    let said = |e: ResponseEventView| word(e);
    let meant = |e: ResponseEventView| thought(e);
    let (reasoned, thoughts) = state.after_reasoning(choice.delta.reasoning());
    let (called, pieces) = reasoned.after_calls(choice.delta.calls());
    let (spoken, words) = called.after_text(choice.delta.text());
    let (finished, end) = spoken.after_finish(choice.finish_reason, usage);
    let events = state.after_choice(choice, usage).1;
    lemma_kinds(state, choice, usage);
    lemma_choice_parts(state, choice, usage, said);
    lemma_choice_parts(state, choice, usage, meant);
    lemma_gather_none(thoughts, said);
    lemma_gather_none(pieces, said);
    lemma_gather_none(end, said);
    lemma_gather_none(pieces, meant);
    lemma_gather_none(words, meant);
    lemma_gather_none(end, meant);
    if words.len() > 0 {
        lemma_gather_one(words[0], said);
        assert(words =~= seq![words[0]]);
    }
    if thoughts.len() > 0 {
        lemma_gather_one(thoughts[0], meant);
        assert(thoughts =~= seq![thoughts[0]]);
    }
    assert(gather(events, said) =~= word_in(choice));
    assert(gather(events, meant) =~= thought_in(choice));
}

/// A choice reports its tool-call pieces one by one, in order: each with its
/// fragment of the arguments, and under the identifier that was last given to
/// its call.
pub proof fn law_a_choice_reports_its_pieces(
    state: ConverterView,
    choice: ChatChoiceView,
    usage: Option<ChatUsage>,
)
    ensures
        ({
            let pieces = pieces_in(choice);
            let reports = gather(
                state.after_choice(choice, usage).1,
                |e: ResponseEventView| piece_report(e),
            );
            &&& reports.len() == pieces.len()
            &&& forall|k: int|
                0 <= k < pieces.len() ==> {
                    let index = pieces[k].index as int;
                    &&& (#[trigger] reports[k]).delta == arguments_in(pieces[k])
                    &&& reports[k].call_id == Some(reports[k].item_id)
                    &&& reports[k].item_id == last_id(
                        pieces.take(k + 1),
                        index,
                        call_at(state.tool_call_accum, index).id,
                    )
                }
        }),
{
    let part = |e: ResponseEventView| piece_report(e);
    let (reasoned, thoughts) = state.after_reasoning(choice.delta.reasoning());
    let (called, events) = reasoned.after_calls(choice.delta.calls());
    let (spoken, words) = called.after_text(choice.delta.text());
    let (finished, end) = spoken.after_finish(choice.finish_reason, usage);
    lemma_kinds(state, choice, usage);
    lemma_choice_parts(state, choice, usage, part);
    lemma_gather_none(thoughts, part);
    lemma_gather_none(words, part);
    lemma_gather_none(end, part);
    assert(choice.delta.calls() =~= pieces_in(choice));
    lemma_pieces_reported(reasoned, pieces_in(choice));
    assert(gather(state.after_choice(choice, usage).1, part) =~= gather(events, part));
}

proof fn lemma_pieces_reported(
    state: ConverterView,
    pieces: Seq<ChatDeltaToolCallView>,
)
    ensures
        ({
            let reports = gather(
                state.after_calls(pieces).1,
                |e: ResponseEventView| piece_report(e),
            );
            &&& reports.len() == pieces.len()
            &&& forall|k: int|
                0 <= k < pieces.len() ==> {
                    let index = pieces[k].index as int;
                    &&& (#[trigger] reports[k]).delta == arguments_in(pieces[k])
                    &&& reports[k].call_id == Some(reports[k].item_id)
                    &&& reports[k].item_id == last_id(
                        pieces.take(k + 1),
                        index,
                        call_at(state.tool_call_accum, index).id,
                    )
                }
        }),
    decreases pieces.len(),
{
    let part = |e: ResponseEventView| piece_report(e);
    let reports = gather(state.after_calls(pieces).1, part);
    if pieces.len() > 0 {
        let shorter = pieces.drop_last();
        let piece = pieces.last();
        let index = piece.index as int;
        let (before, earlier) = state.after_calls(shorter);
        let (after, last) = before.after_call(piece);
        lemma_pieces_reported(state, shorter);
        lemma_gather_add(earlier, last, part);
        lemma_gather_one(last[0], part);
        assert(last =~= seq![last[0]]);
        let told = gather(earlier, part);
        assert(reports =~= told.push(part(last[0])[0]));
        lemma_calls_are_merged(state, shorter);
        law_a_call_is_its_fields(state.tool_call_accum, shorter, index);
        assert forall|k: int| 0 <= k < pieces.len() implies {
            let index = pieces[k].index as int;
            &&& (#[trigger] reports[k]).delta == arguments_in(pieces[k])
            &&& reports[k].call_id == Some(reports[k].item_id)
            &&& reports[k].item_id == last_id(
                pieces.take(k + 1),
                index,
                call_at(state.tool_call_accum, index).id,
            )
        } by {
            if k < shorter.len() {
                assert(reports[k] == told[k]);
                assert(pieces[k] == shorter[k]);
                assert(pieces.take(k + 1) =~= shorter.take(k + 1));
            } else {
                assert(pieces.take(k + 1) =~= pieces);
                assert(reports[k] == part(last[0])[0]);
            }
        }
    }
}

/// A choice that ends the turn reports completion once, with the identifier
/// of the response, the token counts that came with it, and whether the turn
/// is over; any other choice reports none.
pub proof fn law_a_choice_completes_by_its_reason(
    state: ConverterView,
    choice: ChatChoiceView,
    usage: Option<ChatUsage>,
)
    ensures
        ({
            let reports = gather(
                state.after_choice(choice, usage).1,
                |e: ResponseEventView| completion(e),
            );
            if ends_turn(choice) {
                &&& reports.len() == 1
                &&& reports[0] matches ResponseEventView::Completed {
                    response_id,
                    token_usage,
                    end_turn,
                }
                &&& response_id == state.response_id
                &&& counts_tokens(usage, token_usage)
                &&& end_turn == Some(choice.finish_reason != Some("tool_calls"@))
            } else {
                reports.len() == 0
            }
        }),
{
    let part = |e: ResponseEventView| completion(e);
    let (reasoned, thoughts) = state.after_reasoning(choice.delta.reasoning());
    let (called, pieces) = reasoned.after_calls(choice.delta.calls());
    let (spoken, words) = called.after_text(choice.delta.text());
    let (finished, end) = spoken.after_finish(choice.finish_reason, usage);
    let events = state.after_choice(choice, usage).1;
    lemma_kinds(state, choice, usage);
    lemma_choice_parts(state, choice, usage, part);
    lemma_gather_none(thoughts, part);
    lemma_gather_none(pieces, part);
    lemma_gather_none(words, part);
    lemma_calls_frame(reasoned, choice.delta.calls());
    lemma_finish_completion(spoken, choice.finish_reason, usage);
    lemma_reasons_differ();
    if end.len() > 0 {
        let items = end.drop_last();
        assert forall|i: int| 0 <= i < items.len() implies part(#[trigger] items[i]).len()
            == 0 by {
            assert(items[i] == end[i]);
        }
        lemma_gather_none(items, part);
        assert(end =~= items.push(end.last()));
        lemma_gather_push(items, end.last(), part);
        assert(gather(events, part) =~= seq![end.last()]);
    } else {
        assert(gather(events, part) =~= Seq::empty());
    }
}

/// The items of a choice that ends the turn: the reasoning, then the text as
/// a message, then the tool calls, each made of all that was kept and what
/// the choice adds. Where the reply was cut off, only the text is handed out.
/// A choice that does not end the turn hands out nothing.
pub proof fn law_a_choice_hands_out_what_was_kept(
    state: ConverterView,
    choice: ChatChoiceView,
    usage: Option<ChatUsage>,
)
    ensures
        ({
            let reason = choice.finish_reason;
            let text = state.accumulated_text + or_empty(choice.delta.content);
            let reasoning = state.accumulated_reasoning + or_empty(choice.delta.reasoning_content);
            let calls = merged_calls(state.tool_call_accum, pieces_in(choice));
            let number = state.item_id_counter;
            let thinks = (reason == Some("stop"@) || reason == Some("tool_calls"@))
                && reasoning.len() > 0;
            let speaks = if reason == Some("stop"@) {
                text.len() > 0 || state.content_started
            } else {
                (reason == Some("tool_calls"@) || reason == Some("length"@)) && text.len() > 0
            };
            let thoughts: Seq<ResponseItemView> = if thinks {
                seq![
                    ResponseItemView::Reasoning {
                        id: Some("msg_"@ + decimal_text(number + 1)),
                        summary: Seq::empty(),
                        content: None,
                        encrypted_content: Some(reasoning),
                        internal_chat_message_metadata_passthrough: None,
                    },
                ]
            } else {
                Seq::empty()
            };
            let words: Seq<ResponseItemView> = if speaks {
                seq![
                    ResponseItemView::Message {
                        id: Some("msg_"@ + decimal_text((number + thoughts.len() + 1) as nat)),
                        role: "assistant"@,
                        content: seq![ContentItemView::OutputText { text }],
                        phase: Some(
                            if reason == Some("tool_calls"@) {
                                MessagePhase::Commentary
                            } else {
                                MessagePhase::FinalAnswer
                            },
                        ),
                        internal_chat_message_metadata_passthrough: None,
                    },
                ]
            } else {
                Seq::empty()
            };
            let made: Seq<ResponseItemView> = if reason == Some("tool_calls"@) {
                Seq::new(
                    calls.len(),
                    |i: int|
                        ResponseItemView::FunctionCall {
                            id: Some(calls[i].id),
                            name: calls[i].name,
                            namespace: None,
                            arguments: calls[i].arguments,
                            call_id: calls[i].id,
                            internal_chat_message_metadata_passthrough: None,
                        },
                )
            } else {
                Seq::empty()
            };
            gather(state.after_choice(choice, usage).1, |e: ResponseEventView| item_in(e))
                == thoughts + words + made
        }),
{
    let part = |e: ResponseEventView| item_in(e);
    let (reasoned, thoughts) = state.after_reasoning(choice.delta.reasoning());
    let (called, pieces) = reasoned.after_calls(choice.delta.calls());
    let (spoken, words) = called.after_text(choice.delta.text());
    let (finished, end) = spoken.after_finish(choice.finish_reason, usage);
    let events = state.after_choice(choice, usage).1;
    lemma_kinds(state, choice, usage);
    lemma_choice_parts(state, choice, usage, part);
    lemma_gather_none(thoughts, part);
    lemma_gather_none(pieces, part);
    lemma_gather_none(words, part);
    lemma_calls_frame(reasoned, choice.delta.calls());
    lemma_calls_are_merged(reasoned, choice.delta.calls());
    assert(choice.delta.calls() =~= pieces_in(choice));
    assert(spoken.accumulated_text =~= state.accumulated_text + or_empty(choice.delta.content));
    assert(spoken.accumulated_reasoning =~= state.accumulated_reasoning + or_empty(
        choice.delta.reasoning_content,
    ));
    lemma_items_at_the_end(spoken, choice.finish_reason, usage);
    assert(gather(events, part) =~= gather(end, part));
}

/// The items that the end of a choice hands out.
proof fn lemma_items_at_the_end(
    state: ConverterView,
    reason: Option<Seq<char>>,
    usage: Option<ChatUsage>,
)
    ensures
        ({
            let items = gather(
                state.after_finish(reason, usage).1,
                |e: ResponseEventView| item_in(e),
            );
            let number = state.item_id_counter;
            let thinks = (reason == Some("stop"@) || reason == Some("tool_calls"@))
                && state.accumulated_reasoning.len() > 0;
            let speaks = if reason == Some("stop"@) {
                state.accumulated_text.len() > 0 || state.content_started
            } else {
                (reason == Some("tool_calls"@) || reason == Some("length"@))
                    && state.accumulated_text.len() > 0
            };
            let thoughts: Seq<ResponseItemView> = if thinks {
                seq![
                    ResponseItemView::Reasoning {
                        id: Some("msg_"@ + decimal_text(number + 1)),
                        summary: Seq::empty(),
                        content: None,
                        encrypted_content: Some(state.accumulated_reasoning),
                        internal_chat_message_metadata_passthrough: None,
                    },
                ]
            } else {
                Seq::empty()
            };
            let words: Seq<ResponseItemView> = if speaks {
                seq![
                    ResponseItemView::Message {
                        id: Some("msg_"@ + decimal_text((number + thoughts.len() + 1) as nat)),
                        role: "assistant"@,
                        content: seq![ContentItemView::OutputText { text: state.accumulated_text }],
                        phase: Some(
                            if reason == Some("tool_calls"@) {
                                MessagePhase::Commentary
                            } else {
                                MessagePhase::FinalAnswer
                            },
                        ),
                        internal_chat_message_metadata_passthrough: None,
                    },
                ]
            } else {
                Seq::empty()
            };
            let calls = state.tool_call_accum;
            let made: Seq<ResponseItemView> = if reason == Some("tool_calls"@) {
                Seq::new(
                    calls.len(),
                    |i: int|
                        ResponseItemView::FunctionCall {
                            id: Some(calls[i].id),
                            name: calls[i].name,
                            namespace: None,
                            arguments: calls[i].arguments,
                            call_id: calls[i].id,
                            internal_chat_message_metadata_passthrough: None,
                        },
                )
            } else {
                Seq::empty()
            };
            items == thoughts + words + made
        }),
{
    let part = |e: ResponseEventView| item_in(e);
    let end = state.after_finish(reason, usage).1;
    let (reasoned, thoughts) = state.flush_reasoning();
    lemma_reasons_differ();
    if thoughts.len() > 0 {
        lemma_gather_one(thoughts[0], part);
        assert(thoughts =~= seq![thoughts[0]]);
    }
    if reason == Some("stop"@) {
        let message = end.subrange(thoughts.len() as int, end.len() - 1);
        let last = seq![end.last()];
        assert(end =~= thoughts + message + last);
        lemma_gather_add(thoughts + message, last, part);
        lemma_gather_add(thoughts, message, part);
        lemma_gather_none(last, part);
        if message.len() > 0 {
            lemma_gather_one(message[0], part);
            assert(message =~= seq![message[0]]);
        }
        assert(gather(end, part) =~= gather(thoughts, part) + gather(message, part));
    } else if reason == Some("tool_calls"@) {
        let message = reasoned.flush_some_text(MessagePhase::Commentary).1;
        let done = state.tool_call_accum.map_values(|call: ToolCallView| call_done(call));
        let last = seq![end.last()];
        assert(end =~= thoughts + message + done + last);
        lemma_gather_add(thoughts + message + done, last, part);
        lemma_gather_add(thoughts + message, done, part);
        lemma_gather_add(thoughts, message, part);
        lemma_gather_none(last, part);
        lemma_items_of_calls(state.tool_call_accum);
        if message.len() > 0 {
            lemma_gather_one(message[0], part);
            assert(message =~= seq![message[0]]);
        }
        assert(gather(end, part) =~= gather(thoughts, part) + gather(message, part) + gather(
            done,
            part,
        ));
    } else if reason == Some("length"@) {
        let message = end.drop_last();
        let last = seq![end.last()];
        assert(end =~= message + last);
        lemma_gather_add(message, last, part);
        lemma_gather_none(last, part);
        if message.len() > 0 {
            lemma_gather_one(message[0], part);
            assert(message =~= seq![message[0]]);
        }
        assert(gather(end, part) =~= gather(message, part));
    } else {
        assert(gather(end, part) =~= Seq::empty());
    }
}

proof fn lemma_items_of_calls(calls: Seq<ToolCallView>)
    ensures
        gather(
            calls.map_values(|call: ToolCallView| call_done(call)),
            |e: ResponseEventView| item_in(e),
        ) == Seq::new(
            calls.len(),
            |i: int|
                ResponseItemView::FunctionCall {
                    id: Some(calls[i].id),
                    name: calls[i].name,
                    namespace: None,
                    arguments: calls[i].arguments,
                    call_id: calls[i].id,
                    internal_chat_message_metadata_passthrough: None,
                },
        ),
    decreases calls.len(),
{
    let part = |e: ResponseEventView| item_in(e);
    let done = calls.map_values(|call: ToolCallView| call_done(call));
    let wanted = Seq::new(
        calls.len(),
        |i: int|
            ResponseItemView::FunctionCall {
                id: Some(calls[i].id),
                name: calls[i].name,
                namespace: None,
                arguments: calls[i].arguments,
                call_id: calls[i].id,
                internal_chat_message_metadata_passthrough: None,
            },
    );
    if calls.len() > 0 {
        let shorter = calls.drop_last();
        lemma_items_of_calls(shorter);
        assert(done.drop_last() =~= shorter.map_values(|call: ToolCallView| call_done(call)));
        assert(gather(done, part) =~= wanted);
    } else {
        assert(gather(done, part) =~= wanted);
    }
}

/// The events of a choice come in this order: its reasoning, its tool-call
/// pieces, its text, then what it hands out (reasoning, message, calls), then
/// the report of completion. There are no others.
pub proof fn law_a_choice_reports_in_order(
    state: ConverterView,
    choice: ChatChoiceView,
    usage: Option<ChatUsage>,
    i: int,
    j: int,
)
    requires
        0 <= i <= j < state.after_choice(choice, usage).1.len(),
    ensures
        0 < rank(state.after_choice(choice, usage).1[i]) <= rank(
            state.after_choice(choice, usage).1[j],
        ),
{
    let (reasoned, thoughts) = state.after_reasoning(choice.delta.reasoning());
    let (called, pieces) = reasoned.after_calls(choice.delta.calls());
    let (spoken, words) = called.after_text(choice.delta.text());
    let (finished, end) = spoken.after_finish(choice.finish_reason, usage);
    let events = state.after_choice(choice, usage).1;
    lemma_kinds(state, choice, usage);
    let first = thoughts.len() as int;
    let second = first + pieces.len();
    let third = second + words.len();
    assert(events =~= thoughts + pieces + words + end);
    assert forall|k: int| 0 <= k < events.len() implies (#[trigger] events[k]) == if k < first {
        thoughts[k]
    } else if k < second {
        pieces[k - first]
    } else if k < third {
        words[k - second]
    } else {
        end[k - third]
    } by {}
    if i >= third {
        lemma_end_in_order(spoken, choice.finish_reason, usage, i - third, j - third);
    } else if j >= third {
        lemma_end_in_order(spoken, choice.finish_reason, usage, j - third, j - third);
    }
}

proof fn lemma_end_in_order(
    state: ConverterView,
    reason: Option<Seq<char>>,
    usage: Option<ChatUsage>,
    i: int,
    j: int,
)
    requires
        0 <= i <= j < state.after_finish(reason, usage).1.len(),
    ensures
        4 <= rank(state.after_finish(reason, usage).1[i]) <= rank(
            state.after_finish(reason, usage).1[j],
        ),
{
    let end = state.after_finish(reason, usage).1;
    let (reasoned, thoughts) = state.flush_reasoning();
    lemma_reasons_differ();
    if reason == Some("tool_calls"@) {
        let message = reasoned.flush_some_text(MessagePhase::Commentary).1;
        let calls = state.tool_call_accum.map_values(|call: ToolCallView| call_done(call));
        assert(end =~= (thoughts + message + calls).push(end.last()));
    }
}

/// What a choice leaves behind for the next: the text, the reasoning and the
/// calls that were not handed out, and the number of the last item.
pub proof fn law_a_choice_keeps_the_rest(
    state: ConverterView,
    choice: ChatChoiceView,
    usage: Option<ChatUsage>,
)
    ensures
        ({
            let (after, events) = state.after_choice(choice, usage);
            let reason = choice.finish_reason;
            let text = state.accumulated_text + or_empty(choice.delta.content);
            let reasoning = state.accumulated_reasoning + or_empty(choice.delta.reasoning_content);
            let calls = merged_calls(state.tool_call_accum, pieces_in(choice));
            let stopped = reason == Some("stop"@) || reason == Some("tool_calls"@);
            let items = gather(events, |e: ResponseEventView| item_in(e));
            let made: nat = if reason == Some("tool_calls"@) {
                calls.len()
            } else {
                0
            };
            &&& after.accumulated_text == if ends_turn(choice) {
                Seq::<char>::empty()
            } else {
                text
            }
            &&& after.accumulated_reasoning == if stopped {
                Seq::<char>::empty()
            } else {
                reasoning
            }
            &&& after.tool_call_accum == if reason == Some("tool_calls"@) {
                Seq::<ToolCallView>::empty()
            } else {
                calls
            }
            &&& after.content_started == (!stopped && (state.content_started || or_empty(
                choice.delta.content,
            ).len() > 0))
            &&& after.item_id_counter == state.item_id_counter + items.len() - made
            &&& after.response_id == state.response_id
        }),
{
    let (reasoned, thoughts) = state.after_reasoning(choice.delta.reasoning());
    let (called, pieces) = reasoned.after_calls(choice.delta.calls());
    let (spoken, words) = called.after_text(choice.delta.text());
    let after = state.after_choice(choice, usage).0;
    lemma_reasons_differ();
    lemma_calls_frame(reasoned, choice.delta.calls());
    lemma_choice_calls(state, choice, usage);
    assert(choice.delta.calls() =~= pieces_in(choice));
    law_a_choice_hands_out_what_was_kept(state, choice, usage);
    assert(spoken.accumulated_text =~= state.accumulated_text + or_empty(choice.delta.content));
    assert(spoken.accumulated_reasoning =~= state.accumulated_reasoning + or_empty(
        choice.delta.reasoning_content,
    ));
    assert(after.accumulated_text =~= if ends_turn(choice) {
        Seq::<char>::empty()
    } else {
        spoken.accumulated_text
    });
    assert(after.accumulated_reasoning =~= if (choice.finish_reason == Some("stop"@)
        || choice.finish_reason == Some("tool_calls"@)) {
        Seq::<char>::empty()
    } else {
        spoken.accumulated_reasoning
    });
}

/// A new converter bears the names it was given, has kept nothing, and has
/// numbered no item.
pub proof fn law_a_new_converter_is_empty(response_id: Seq<char>, model: Seq<char>)
    ensures
        ({
            let state = ConverterView::fresh(response_id, model);
            &&& state.response_id == response_id
            &&& state.model == model
            &&& state.item_id_counter == 0
            &&& state.accumulated_text.len() == 0
            &&& state.accumulated_reasoning.len() == 0
            &&& state.tool_call_accum.len() == 0
            &&& !state.content_started
        }),
{
}

} // verus!
