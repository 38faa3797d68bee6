//! A whole streamed turn, in terms of what the polls brought.
use crate::chunk::{ChatChoiceView, ChatDeltaToolCallView, ChatStreamChunkView};
use crate::converter::{is_known_reason, ConverterView, ToolCallView};
use crate::error::ApiErrorView;
use crate::laws::calls::{
    call_at, call_item, deltas_in, last_id, law_a_call_is_its_fields,
    law_a_name_stays_until_another_comes, lemma_merged_in_a_row, merged_calls,
};
use crate::laws::choice::{
    completion, counts_tokens, law_a_choice_completes_by_its_reason,
    law_a_choice_hands_out_what_was_kept, law_a_choice_keeps_the_rest,
    law_a_choice_reports_its_pieces, law_a_choice_streams_what_it_says,
    law_a_new_converter_is_empty, piece_report, thought, thought_in, word, word_in, PieceReport,
};
use crate::laws::fields::{arguments_in, ends_turn, or_empty, pieces_in, reports_error};
use crate::laws::gather::{gather, lemma_gather_add, lemma_gather_none};
use crate::laws::replay::item_in;
use crate::laws::session::{
    any_completes, asks_for_calls, events_in, finished, first_converter,
    law_the_calls_are_what_the_pieces_make, lemma_poll, lemma_run, lemma_run_shape, run, taken_at,
    taken_by, up_to_completion,
};
use crate::laws::stream::{after_taken, completes, lemma_reasons_differ, Taken};
use crate::protocol::{
    ContentItemView, MessagePhase, ResponseEventView, ResponseItemView,
};
use crate::session::{
    lemma_open_until_done, stops, stream_failure, SendView, SessionView, SsePollView,
};
use crate::text::{decimal_text, is_token};
use vstd::prelude::*;

verus! {

/// The chunk that a poll brings: its data is not the end signal and reports
/// no error.
pub open spec fn chunk_read(poll: SsePollView) -> Option<ChatStreamChunkView> {
    match poll {
        SsePollView::Event { data, error, chunk } => if is_token(data, "[DONE]"@) || reports_error(
            error,
        ) {
            None
        } else {
            chunk
        },
        _ => None,
    }
}

/// Whether one of the choices ends the turn.
pub open spec fn any_ends(choices: Seq<ChatChoiceView>) -> bool {
    exists|i: int| 0 <= i < choices.len() && ends_turn(#[trigger] choices[i])
}

/// Whether a turn is over with this poll: the stream has failed, has fallen
/// silent or is closed, the end signal has come, or a choice ends the turn.
pub open spec fn is_over_with(poll: SsePollView) -> bool {
    match poll {
        SsePollView::Event { data, .. } => is_token(data, "[DONE]"@) || (chunk_read(poll) is Some
            && any_ends(chunk_read(poll)->0.choices)),
        _ => true,
    }
}

/// The choices up to the first that ends the turn, which is among them.
pub open spec fn read_of(choices: Seq<ChatChoiceView>) -> Seq<ChatChoiceView>
    decreases choices.len(),
{
    if choices.len() == 0 {
        Seq::empty()
    } else if ends_turn(choices.first()) {
        seq![choices.first()]
    } else {
        seq![choices.first()] + read_of(choices.drop_first())
    }
}

/// The choices that a turn reads, each with the token count of its chunk:
/// those of the chunks that the polls bring, until the turn is over.
pub open spec fn choices_read(polls: Seq<SsePollView>) -> Seq<Taken>
    decreases polls.len(),
{
    if polls.len() == 0 {
        Seq::empty()
    } else {
        let here: Seq<Taken> = match chunk_read(polls.first()) {
            Some(chunk) => read_of(chunk.choices).map_values(
                |choice: ChatChoiceView| (choice, chunk.usage),
            ),
            None => Seq::empty(),
        };
        if is_over_with(polls.first()) {
            here
        } else {
            here + choices_read(polls.drop_first())
        }
    }
}

/// The first chunk that a turn reads.
pub open spec fn first_read(polls: Seq<SsePollView>) -> Option<ChatStreamChunkView>
    decreases polls.len(),
{
    if polls.len() == 0 {
        None
    } else if chunk_read(polls.first()) is Some || is_over_with(polls.first()) {
        chunk_read(polls.first())
    } else {
        first_read(polls.drop_first())
    }
}

/// All the text that choices hold.
pub open spec fn text_of(taken: Seq<Taken>) -> Seq<char> {
    gather(taken, |t: Taken| or_empty(t.0.delta.content))
}

/// All the reasoning that choices hold.
pub open spec fn reasoning_of(taken: Seq<Taken>) -> Seq<char> {
    gather(taken, |t: Taken| or_empty(t.0.delta.reasoning_content))
}

/// All the tool-call pieces that choices list.
pub open spec fn pieces_of(taken: Seq<Taken>) -> Seq<ChatDeltaToolCallView> {
    gather(taken, |t: Taken| pieces_in(t.0))
}

proof fn lemma_read_of(choices: Seq<ChatChoiceView>)
    ensures
        read_of(choices) == up_to_completion(choices),
    decreases choices.len(),
{
    if choices.len() > 0 {
        assert(ends_turn(choices.first()) == completes(choices.first()));
        lemma_read_of(choices.drop_first());
    }
}

proof fn lemma_any_ends(choices: Seq<ChatChoiceView>)
    ensures
        any_ends(choices) == any_completes(choices),
{
    if any_ends(choices) {
        let i = choose|i: int| 0 <= i < choices.len() && ends_turn(#[trigger] choices[i]);
        assert(completes(choices[i]));
    }
    if any_completes(choices) {
        let i = choose|i: int| 0 <= i < choices.len() && completes(#[trigger] choices[i]);
        assert(ends_turn(choices[i]));
    }
}

/// One poll: which chunk it brings, and whether the turn is over with it.
proof fn lemma_poll_read(session: SessionView, poll: SsePollView)
    ensures
        poll.chunk_in() == chunk_read(poll),
        session.after_poll(poll).1.done == is_over_with(poll),
{
    assert(poll.chunk_in() == chunk_read(poll));
    lemma_poll(session, poll);
    if let Some(chunk) = chunk_read(poll) {
        lemma_any_ends(chunk.choices);
    }
}

/// What a turn reads does not depend on what came before: the choices of the
/// chunks that its polls bring, until it is over. It stops exactly with the
/// first poll that ends it.
pub proof fn law_a_turn_reads_until_it_is_over(session: SessionView, polls: Seq<SsePollView>)
    ensures
        taken_by(session, polls) == choices_read(polls),
        finished(session, polls) <==> exists|i: int|
            0 <= i < polls.len() && is_over_with(#[trigger] polls[i]),
    decreases polls.len(),
{
    if polls.len() > 0 {
        let poll = polls.first();
        let rest = polls.drop_first();
        let (next, step) = session.after_poll(poll);
        lemma_poll_read(session, poll);
        if let Some(chunk) = chunk_read(poll) {
            lemma_read_of(chunk.choices);
            assert(taken_at(poll) =~= read_of(chunk.choices).map_values(
                |choice: ChatChoiceView| (choice, chunk.usage),
            ));
        }
        if !step.done {
            law_a_turn_reads_until_it_is_over(next, rest);
            if finished(next, rest) {
                let i = choose|i: int| 0 <= i < rest.len() && is_over_with(#[trigger] rest[i]);
                assert(is_over_with(polls[i + 1]));
            }
            if exists|i: int| 0 <= i < polls.len() && is_over_with(#[trigger] polls[i]) {
                let i = choose|i: int| 0 <= i < polls.len() && is_over_with(#[trigger] polls[i]);
                assert(i > 0);
                assert(is_over_with(rest[i - 1]));
            }
        } else {
            assert(is_over_with(polls[0]));
        }
    }
}

proof fn lemma_first_read(session: SessionView, polls: Seq<SsePollView>)
    requires
        session.converter is None,
    ensures
        first_converter(session, polls) == match first_read(polls) {
            Some(chunk) => Some(SessionView::start().converter_for(chunk)),
            None => None,
        },
    decreases polls.len(),
{
    if polls.len() > 0 {
        let poll = polls.first();
        let (next, step) = session.after_poll(poll);
        lemma_poll_read(session, poll);
        lemma_poll(session, poll);
        if chunk_read(poll) is None && !step.done {
            lemma_first_read(next, polls.drop_first());
        }
    }
}

/// A turn reports that it was created once a chunk was read, and then what a
/// new converter, under the names that this first chunk gives, reports of the
/// choices that are read. Before any chunk it reports no event.
pub proof fn law_a_turn_is_its_choices(polls: Seq<SsePollView>)
    ensures
        ({
            let events = events_in(run(SessionView::start(), polls));
            match first_read(polls) {
                Some(chunk) => {
                    let response_id = if chunk.id is Some {
                        chunk.id->0
                    } else {
                        "chat_resp"@
                    };
                    let state = ConverterView::fresh(response_id, or_empty(chunk.model));
                    events == seq![ResponseEventView::Created] + after_taken(
                        state,
                        choices_read(polls),
                    ).1
                },
                None => events.len() == 0 && choices_read(polls).len() == 0,
            }
        }),
{
    let start = SessionView::start();
    lemma_run(start, polls);
    lemma_first_read(start, polls);
    law_a_turn_reads_until_it_is_over(start, polls);
}

proof fn lemma_taken_words(state: ConverterView, taken: Seq<Taken>)
    ensures
        gather(after_taken(state, taken).1, |e: ResponseEventView| word(e)) == gather(
            taken,
            |t: Taken| word_in(t.0),
        ),
        gather(after_taken(state, taken).1, |e: ResponseEventView| thought(e)) == gather(
            taken,
            |t: Taken| thought_in(t.0),
        ),
    decreases taken.len(),
{
    if taken.len() > 0 {
        let (before, earlier) = after_taken(state, taken.drop_last());
        let last = before.after_choice(taken.last().0, taken.last().1).1;
        lemma_taken_words(state, taken.drop_last());
        law_a_choice_streams_what_it_says(before, taken.last().0, taken.last().1);
        lemma_gather_add(earlier, last, |e: ResponseEventView| word(e));
        lemma_gather_add(earlier, last, |e: ResponseEventView| thought(e));
    } else {
        assert(gather(after_taken(state, taken).1, |e: ResponseEventView| word(e)) =~= gather(
            taken,
            |t: Taken| word_in(t.0),
        ));
        assert(gather(after_taken(state, taken).1, |e: ResponseEventView| thought(e)) =~= gather(
            taken,
            |t: Taken| thought_in(t.0),
        ));
    }
}

/// A turn streams the text and the reasoning of the choices that it reads,
/// piece by piece, each as it is and in order; only pieces that are absent or
/// empty are left out.
pub proof fn law_a_turn_streams_what_its_choices_say(polls: Seq<SsePollView>)
    ensures
        gather(
            events_in(run(SessionView::start(), polls)),
            |e: ResponseEventView| word(e),
        ) == gather(choices_read(polls), |t: Taken| word_in(t.0)),
        gather(
            events_in(run(SessionView::start(), polls)),
            |e: ResponseEventView| thought(e),
        ) == gather(choices_read(polls), |t: Taken| thought_in(t.0)),
{
    let said = |e: ResponseEventView| word(e);
    let meant = |e: ResponseEventView| thought(e);
    let taken = choices_read(polls);
    let all = events_in(run(SessionView::start(), polls));
    law_a_turn_is_its_choices(polls);
    if let Some(chunk) = first_read(polls) {
        let state = SessionView::start().converter_for(chunk);
        let events = after_taken(state, taken).1;
        let created = seq![ResponseEventView::Created];
        lemma_taken_words(state, taken);
        lemma_gather_add(created, events, said);
        lemma_gather_add(created, events, meant);
        lemma_gather_none(created, said);
        lemma_gather_none(created, meant);
        assert(all == created + events);
        assert(gather(all, said) =~= gather(events, said));
        assert(gather(all, meant) =~= gather(events, meant));
    } else {
        assert(gather(all, said) =~= gather(taken, |t: Taken| word_in(t.0)));
        assert(gather(all, meant) =~= gather(taken, |t: Taken| thought_in(t.0)));
    }
}

/// What choices that do not end the turn leave behind in a new converter: all
/// of their text, reasoning and calls, and no item.
proof fn lemma_kept(response_id: Seq<char>, model: Seq<char>, taken: Seq<Taken>)
    requires
        forall|i: int| 0 <= i < taken.len() ==> !ends_turn((#[trigger] taken[i]).0),
    ensures
        ({
            let (after, events) = after_taken(ConverterView::fresh(response_id, model), taken);
            &&& after.response_id == response_id
            &&& after.item_id_counter == 0
            &&& after.accumulated_text == text_of(taken)
            &&& after.accumulated_reasoning == reasoning_of(taken)
            &&& after.tool_call_accum == merged_calls(Seq::empty(), pieces_of(taken))
            &&& after.content_started == (text_of(taken).len() > 0)
            &&& gather(events, |e: ResponseEventView| item_in(e)).len() == 0
        }),
    decreases taken.len(),
{
    let part = |e: ResponseEventView| item_in(e);
    let fresh = ConverterView::fresh(response_id, model);
    let (after, events) = after_taken(fresh, taken);
    if taken.len() == 0 {
        law_a_new_converter_is_empty(response_id, model);
        assert(after.accumulated_text =~= text_of(taken));
        assert(after.accumulated_reasoning =~= reasoning_of(taken));
        assert(pieces_of(taken) =~= Seq::empty());
        assert(after.tool_call_accum =~= merged_calls(Seq::empty(), pieces_of(taken)));
    } else {
        let shorter = taken.drop_last();
        let (choice, usage) = taken.last();
        assert forall|i: int| 0 <= i < shorter.len() implies !ends_turn(
            (#[trigger] shorter[i]).0,
        ) by {
            assert(shorter[i] == taken[i]);
        }
        assert(!ends_turn(taken[taken.len() - 1].0));
        lemma_kept(response_id, model, shorter);
        let (before, earlier) = after_taken(fresh, shorter);
        let last = before.after_choice(choice, usage).1;
        law_a_choice_keeps_the_rest(before, choice, usage);
        law_a_choice_hands_out_what_was_kept(before, choice, usage);
        lemma_gather_add(earlier, last, part);
        lemma_merged_in_a_row(Seq::empty(), pieces_of(shorter), pieces_in(choice));
        assert(gather(last, part).len() == 0);
        assert(after.accumulated_text =~= text_of(taken));
        assert(after.accumulated_reasoning =~= reasoning_of(taken));
    }
}

/// Only the last of the choices that a turn reads may end it.
proof fn lemma_only_the_last_ends(polls: Seq<SsePollView>)
    ensures
        forall|i: int|
            0 <= i < choices_read(polls).len() - 1 ==> !ends_turn(
                (#[trigger] choices_read(polls)[i]).0,
            ),
{
    let start = SessionView::start();
    let taken = choices_read(polls);
    law_a_turn_reads_until_it_is_over(start, polls);
    lemma_run_shape(start, polls);
    assert forall|i: int| 0 <= i < taken.len() - 1 implies !ends_turn((#[trigger] taken[i]).0) by {
        assert(!completes(taken[i].0));
    }
}

/// What a turn hands out, all in all. Where the model stopped: its reasoning,
/// and its text as the final answer. Where it asked for tool calls: its
/// reasoning, its text as a commentary, and every call. Where it was cut off:
/// its text. What is empty is left out, and the reasoning and the message are
/// numbered from one. Each holds all that the choices of the turn hold of it.
pub proof fn law_a_turn_hands_out_all_it_said(polls: Seq<SsePollView>)
    requires
        choices_read(polls).len() > 0,
        ends_turn(choices_read(polls).last().0),
    ensures
        ({
            let taken = choices_read(polls);
            let reason = taken.last().0.finish_reason;
            let text = text_of(taken);
            let reasoning = reasoning_of(taken);
            let calls = merged_calls(Seq::empty(), pieces_of(taken));
            let thoughts: Seq<ResponseItemView> = if reasoning.len() > 0 && reason != Some(
                "length"@,
            ) {
                seq![
                    ResponseItemView::Reasoning {
                        id: Some("msg_"@ + decimal_text(1)),
                        summary: Seq::empty(),
                        content: None,
                        encrypted_content: Some(reasoning),
                        internal_chat_message_metadata_passthrough: None,
                    },
                ]
            } else {
                Seq::empty()
            };
            let words: Seq<ResponseItemView> = if text.len() > 0 {
                seq![
                    ResponseItemView::Message {
                        id: Some("msg_"@ + decimal_text((thoughts.len() + 1) as nat)),
                        role: "assistant"@,
                        content: seq![ContentItemView::OutputText { text }],
                        phase: Some(
                            if reason == Some("tool_calls"@) {
                                MessagePhase::Commentary
                            } else {
                                MessagePhase::FinalAnswer
                            },
                        ),
                        internal_chat_message_metadata_passthrough: None,
                    },
                ]
            } else {
                Seq::empty()
            };
            let made: Seq<ResponseItemView> = if reason == Some("tool_calls"@) {
                Seq::new(
                    calls.len(),
                    |i: int|
                        ResponseItemView::FunctionCall {
                            id: Some(calls[i].id),
                            name: calls[i].name,
                            namespace: None,
                            arguments: calls[i].arguments,
                            call_id: calls[i].id,
                            internal_chat_message_metadata_passthrough: None,
                        },
                )
            } else {
                Seq::empty()
            };
            gather(
                events_in(run(SessionView::start(), polls)),
                |e: ResponseEventView| item_in(e),
            ) == thoughts + words + made
        }),
{
    let part = |e: ResponseEventView| item_in(e);
    let taken = choices_read(polls);
    let shorter = taken.drop_last();
    let (choice, usage) = taken.last();
    let all = events_in(run(SessionView::start(), polls));
    law_a_turn_is_its_choices(polls);
    lemma_only_the_last_ends(polls);
    lemma_reasons_differ();
    let chunk = first_read(polls)->0;
    let fresh = SessionView::start().converter_for(chunk);
    assert(fresh == ConverterView::fresh(fresh.response_id, fresh.model)) by {
        law_a_new_converter_is_empty(
            if chunk.id is Some {
                chunk.id->0
            } else {
                "chat_resp"@
            },
            or_empty(chunk.model),
        );
    }
    assert forall|i: int| 0 <= i < shorter.len() implies !ends_turn((#[trigger] shorter[i]).0) by {
        assert(shorter[i] == taken[i]);
    }
    lemma_kept(fresh.response_id, fresh.model, shorter);
    let (before, earlier) = after_taken(fresh, shorter);
    let last = before.after_choice(choice, usage).1;
    law_a_choice_hands_out_what_was_kept(before, choice, usage);
    lemma_merged_in_a_row(Seq::empty(), pieces_of(shorter), pieces_in(choice));
    let created = seq![ResponseEventView::Created];
    let events = after_taken(fresh, taken).1;
    assert(all == created + events);
    lemma_gather_add(created, events, part);
    lemma_gather_none(created, part);
    lemma_gather_add(earlier, last, part);
    assert(gather(earlier, part) =~= Seq::empty());
    assert(gather(all, part) =~= gather(last, part));
    assert(text_of(taken) =~= before.accumulated_text + or_empty(choice.delta.content));
    assert(reasoning_of(taken) =~= before.accumulated_reasoning + or_empty(
        choice.delta.reasoning_content,
    ));
}

/// A turn that is not ended by a choice hands out nothing.
pub proof fn law_an_unfinished_turn_hands_out_nothing(polls: Seq<SsePollView>)
    requires
        choices_read(polls).len() == 0 || !ends_turn(choices_read(polls).last().0),
    ensures
        gather(
            events_in(run(SessionView::start(), polls)),
            |e: ResponseEventView| item_in(e),
        ).len() == 0,
{
    let part = |e: ResponseEventView| item_in(e);
    let taken = choices_read(polls);
    law_a_turn_is_its_choices(polls);
    lemma_only_the_last_ends(polls);
    if let Some(chunk) = first_read(polls) {
        let fresh = SessionView::start().converter_for(chunk);
        assert forall|i: int| 0 <= i < taken.len() implies !ends_turn((#[trigger] taken[i]).0) by {
            assert(i == taken.len() - 1 ==> taken[i] == taken.last());
        }
        lemma_kept(fresh.response_id, fresh.model, taken);
        let created = seq![ResponseEventView::Created];
        lemma_gather_add(created, after_taken(fresh, taken).1, part);
        lemma_gather_none(created, part);
    }
}

/// In a turn that asks for tool calls, a name that a piece gives, whatever
/// else the piece carries, is the name under which its call is handed out,
/// unless a later piece for the same call gives another.
pub proof fn law_a_call_is_handed_out_under_its_name(
    polls: Seq<SsePollView>,
    i: int,
    name: Seq<char>,
)
    requires
        asks_for_calls(run(SessionView::start(), polls)),
        0 <= i < pieces_of(choices_read(polls)).len(),
        pieces_of(choices_read(polls))[i].function is Some,
        pieces_of(choices_read(polls))[i].function->0.name == Some(name),
        forall|j: int|
            i < j < pieces_of(choices_read(polls)).len() && (#[trigger] pieces_of(
                choices_read(polls),
            )[j]).index == pieces_of(choices_read(polls))[i].index && pieces_of(
                choices_read(polls),
            )[j].function is Some ==> pieces_of(choices_read(polls))[j].function->0.name is None,
    ensures
        ({
            let calls = gather(
                events_in(run(SessionView::start(), polls)),
                |e: ResponseEventView| call_item(e),
            );
            let index = pieces_of(choices_read(polls))[i].index as int;
            index < calls.len() && calls[index].name == name
        }),
{
    let pieces = pieces_of(choices_read(polls));
    law_a_turn_reads_until_it_is_over(SessionView::start(), polls);
    law_the_calls_are_what_the_pieces_make(polls);
    lemma_pieces(choices_read(polls));
    law_a_name_stays_until_another_comes(Seq::empty(), pieces, i, name);
}

proof fn lemma_pieces(taken: Seq<Taken>)
    ensures
        gather(taken, |t: Taken| deltas_in(t)) == pieces_of(taken),
    decreases taken.len(),
{
    if taken.len() > 0 {
        lemma_pieces(taken.drop_last());
        assert(deltas_in(taken.last()) =~= pieces_in(taken.last().0));
    }
}

/// The identifier that pieces in a row last gave is that of the later ones,
/// where they gave one.
proof fn lemma_last_id_in_a_row(
    left: Seq<ChatDeltaToolCallView>,
    right: Seq<ChatDeltaToolCallView>,
    index: int,
    earlier: Seq<char>,
)
    ensures
        last_id(left + right, index, earlier) == last_id(
            right,
            index,
            last_id(left, index, earlier),
        ),
    decreases right.len(),
{
    if right.len() == 0 {
        assert(left + right =~= left);
    } else {
        assert((left + right).drop_last() =~= left + right.drop_last());
        lemma_last_id_in_a_row(left, right.drop_last(), index, earlier);
    }
}

/// Whether reports tell of these pieces, one by one: each with its fragment
/// of the arguments, under the identifier that was last given to its call.
pub open spec fn tell_of(
    reports: Seq<PieceReport>,
    pieces: Seq<ChatDeltaToolCallView>,
) -> bool {
    &&& reports.len() == pieces.len()
    &&& forall|k: int|
        0 <= k < pieces.len() ==> {
            &&& (#[trigger] reports[k]).delta == arguments_in(pieces[k])
            &&& reports[k].call_id == Some(reports[k].item_id)
            &&& reports[k].item_id == last_id(
                pieces.take(k + 1),
                pieces[k].index as int,
                Seq::empty(),
            )
        }
}

proof fn lemma_taken_reports(response_id: Seq<char>, model: Seq<char>, taken: Seq<Taken>)
    requires
        forall|i: int| 0 <= i < taken.len() - 1 ==> !ends_turn((#[trigger] taken[i]).0),
    ensures
        tell_of(
            gather(
                after_taken(ConverterView::fresh(response_id, model), taken).1,
                |e: ResponseEventView| piece_report(e),
            ),
            pieces_of(taken),
        ),
    decreases taken.len(),
{
    let part = |e: ResponseEventView| piece_report(e);
    let fresh = ConverterView::fresh(response_id, model);
    let reports = gather(after_taken(fresh, taken).1, part);
    if taken.len() > 0 {
        let shorter = taken.drop_last();
        let (choice, usage) = taken.last();
        assert forall|i: int| 0 <= i < shorter.len() implies !ends_turn(
            (#[trigger] shorter[i]).0,
        ) by {
            assert(shorter[i] == taken[i]);
        }
        lemma_taken_reports(response_id, model, shorter);
        lemma_kept(response_id, model, shorter);
        let (before, earlier) = after_taken(fresh, shorter);
        let last = before.after_choice(choice, usage).1;
        law_a_choice_reports_its_pieces(before, choice, usage);
        lemma_gather_add(earlier, last, part);
        let old = gather(earlier, part);
        let new = gather(last, part);
        let first = pieces_of(shorter);
        let second = pieces_in(choice);
        let pieces = pieces_of(taken);
        assert(reports == old + new);
        assert(pieces == first + second);
        assert forall|k: int| 0 <= k < pieces.len() implies {
            &&& (#[trigger] reports[k]).delta == arguments_in(pieces[k])
            &&& reports[k].call_id == Some(reports[k].item_id)
            &&& reports[k].item_id == last_id(
                pieces.take(k + 1),
                pieces[k].index as int,
                Seq::empty(),
            )
        } by {
            if k < first.len() {
                assert(reports[k] == old[k]);
                assert(pieces[k] == first[k]);
                assert(pieces.take(k + 1) =~= first.take(k + 1));
            } else {
                let m = k - first.len();
                let index = pieces[k].index as int;
                assert(reports[k] == new[m]);
                assert(pieces[k] == second[m]);
                assert(pieces.take(k + 1) =~= first + second.take(m + 1));
                lemma_last_id_in_a_row(first, second.take(m + 1), index, Seq::empty());
                law_a_call_is_its_fields(Seq::empty(), first, index);
                assert(call_at(Seq::<ToolCallView>::empty(), index).id =~= Seq::<char>::empty());
            }
        }
    }
}

/// A turn reports every tool-call piece of the choices that it reads, in
/// order, with its fragment of the arguments, and under the identifier that
/// was last given to its call.
pub proof fn law_a_turn_reports_every_piece(polls: Seq<SsePollView>)
    ensures
        tell_of(
            gather(
                events_in(run(SessionView::start(), polls)),
                |e: ResponseEventView| piece_report(e),
            ),
            pieces_of(choices_read(polls)),
        ),
{
    let part = |e: ResponseEventView| piece_report(e);
    let taken = choices_read(polls);
    law_a_turn_is_its_choices(polls);
    lemma_only_the_last_ends(polls);
    if let Some(chunk) = first_read(polls) {
        let fresh = SessionView::start().converter_for(chunk);
        let events = after_taken(fresh, taken).1;
        let created = seq![ResponseEventView::Created];
        lemma_taken_reports(fresh.response_id, fresh.model, taken);
        lemma_gather_add(created, events, part);
        lemma_gather_none(created, part);
        assert(events_in(run(SessionView::start(), polls)) == created + events);
        assert(Seq::empty() + gather(events, part) =~= gather(events, part));
    }
}

proof fn lemma_taken_completions(response_id: Seq<char>, model: Seq<char>, taken: Seq<Taken>)
    requires
        forall|i: int| 0 <= i < taken.len() ==> !ends_turn((#[trigger] taken[i]).0),
    ensures
        gather(
            after_taken(ConverterView::fresh(response_id, model), taken).1,
            |e: ResponseEventView| completion(e),
        ).len() == 0,
    decreases taken.len(),
{
    let part = |e: ResponseEventView| completion(e);
    let fresh = ConverterView::fresh(response_id, model);
    if taken.len() > 0 {
        let shorter = taken.drop_last();
        assert forall|i: int| 0 <= i < shorter.len() implies !ends_turn(
            (#[trigger] shorter[i]).0,
        ) by {
            assert(shorter[i] == taken[i]);
        }
        assert(!ends_turn(taken[taken.len() - 1].0));
        lemma_taken_completions(response_id, model, shorter);
        let (before, earlier) = after_taken(fresh, shorter);
        law_a_choice_completes_by_its_reason(before, taken.last().0, taken.last().1);
        lemma_gather_add(
            earlier,
            before.after_choice(taken.last().0, taken.last().1).1,
            part,
        );
    }
}

/// A turn reports completion exactly where a choice ends it, and once: under
/// the identifier that the first chunk gave, or a stand-in where it gave none,
/// with the token counts that came with that choice, and as over unless tool
/// calls were asked for.
pub proof fn law_a_turn_completes_by_its_last_choice(polls: Seq<SsePollView>)
    ensures
        ({
            let taken = choices_read(polls);
            let reports = gather(
                events_in(run(SessionView::start(), polls)),
                |e: ResponseEventView| completion(e),
            );
            if taken.len() > 0 && ends_turn(taken.last().0) {
                &&& first_read(polls) is Some
                &&& reports.len() == 1
                &&& reports[0] matches ResponseEventView::Completed {
                    response_id,
                    token_usage,
                    end_turn,
                }
                &&& response_id == if first_read(polls)->0.id is Some {
                    first_read(polls)->0.id->0
                } else {
                    "chat_resp"@
                }
                &&& counts_tokens(taken.last().1, token_usage)
                &&& end_turn == Some(taken.last().0.finish_reason != Some("tool_calls"@))
            } else {
                reports.len() == 0
            }
        }),
{
    let part = |e: ResponseEventView| completion(e);
    let taken = choices_read(polls);
    let all = events_in(run(SessionView::start(), polls));
    law_a_turn_is_its_choices(polls);
    lemma_only_the_last_ends(polls);
    if let Some(chunk) = first_read(polls) {
        let fresh = SessionView::start().converter_for(chunk);
        let events = after_taken(fresh, taken).1;
        let created = seq![ResponseEventView::Created];
        lemma_gather_add(created, events, part);
        lemma_gather_none(created, part);
        assert(all == created + events);
        if taken.len() > 0 && ends_turn(taken.last().0) {
            let shorter = taken.drop_last();
            assert forall|i: int| 0 <= i < shorter.len() implies !ends_turn(
                (#[trigger] shorter[i]).0,
            ) by {
                assert(shorter[i] == taken[i]);
            }
            lemma_taken_completions(fresh.response_id, fresh.model, shorter);
            lemma_kept(fresh.response_id, fresh.model, shorter);
            let (before, earlier) = after_taken(fresh, shorter);
            let last = before.after_choice(taken.last().0, taken.last().1).1;
            law_a_choice_completes_by_its_reason(before, taken.last().0, taken.last().1);
            lemma_gather_add(earlier, last, part);
            assert(gather(all, part) =~= gather(last, part));
        } else {
            assert forall|i: int| 0 <= i < taken.len() implies !ends_turn(
                (#[trigger] taken[i]).0,
            ) by {
                assert(i == taken.len() - 1 ==> taken[i] == taken.last());
            }
            lemma_taken_completions(fresh.response_id, fresh.model, taken);
        }
    }
}

/// What the stream fails with is sent on word for word.
pub proof fn law_a_failure_is_sent_on_word_for_word(message: Seq<char>)
    ensures
        stream_failure(message) == SendView::Err(ApiErrorView::Stream(message)),
{
}

/// An error and the report of completion end a turn, whether or not anybody
/// receives them. The report of creation never does. Anything else ends it
/// exactly where it is lost.
pub proof fn law_a_lost_event_ends_a_turn(send: SendView, delivered: bool)
    ensures
        send is Err ==> stops(send, delivered),
        send matches Ok(event) && event is Completed ==> stops(send, delivered),
        send matches Ok(event) && event is Created ==> !stops(send, delivered),
        send matches Ok(event) && !(event is Completed) && !(event is Created) ==> stops(
            send,
            delivered,
        ) == !delivered,
{
}

/// The reasons that end a turn, and no others, are known.
pub proof fn law_three_reasons_are_known(reason: Seq<char>)
    ensures
        is_known_reason(reason) <==> reason == "stop"@ || reason == "tool_calls"@ || reason
            == "length"@,
{
}

/// Any poll can be taken in but one that brings a chunk with more choices
/// than items can be numbered, or with a piece at an index that no list can
/// reach.
pub proof fn law_ordinary_polls_can_be_taken_in(poll: SsePollView)
    requires
        chunk_read(poll) matches Some(chunk) ==> {
            &&& 2 * chunk.choices.len() <= u64::MAX
            &&& forall|i: int, k: int|
                0 <= i < chunk.choices.len() && 0 <= k < pieces_in(chunk.choices[i]).len()
                    ==> (#[trigger] pieces_in(chunk.choices[i])[k]).index < usize::MAX
        },
    ensures
        poll.countable(),
{
    assert(poll.chunk_in() == chunk_read(poll));
    if let Some(chunk) = chunk_read(poll) {
        assert forall|i: int, k: int|
            #![trigger chunk.choices[i].delta.calls()[k]]
            0 <= i < chunk.choices.len() && 0 <= k < chunk.choices[i].delta.calls().len() implies (
        chunk.choices[i].delta.calls()[k]).index < usize::MAX by {
            assert(chunk.choices[i].delta.calls() =~= pieces_in(chunk.choices[i]));
            assert(pieces_in(chunk.choices[i])[k].index < usize::MAX);
        }
    }
}

/// A session can take in a poll from the start, and as long as no step has
/// said to stop.
pub proof fn law_a_session_goes_on_until_it_stops(session: SessionView, poll: SsePollView)
    ensures
        SessionView::start().is_open(),
        session.is_open() && !is_over_with(poll) ==> session.after_poll(poll).0.is_open(),
{
    lemma_poll_read(session, poll);
    if session.is_open() {
        lemma_open_until_done(session, poll);
    }
}

} // verus!
