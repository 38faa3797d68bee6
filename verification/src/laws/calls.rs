//! What the converter keeps of the tool calls in a streamed reply.
use crate::chunk::{ChatChoiceView, ChatDeltaToolCallView, ChatUsage};
use crate::converter::{call_done, padded, ConverterView, ToolCallView};
use crate::laws::gather::{gather, lemma_gather_add, lemma_gather_none};
use crate::laws::stream::{
    after_taken, lemma_calls_frame, lemma_choice_parts, lemma_reasons_differ, Taken,
};
use crate::laws::fields::{arguments_in, gives_name};
use crate::protocol::{ResponseEventView, ResponseItemView};
use vstd::prelude::*;

verus! {

/// The tool call that an event hands out.
pub open spec fn call_item(event: ResponseEventView) -> Seq<ToolCallView> {
    match event {
        ResponseEventView::OutputItemDone(
            ResponseItemView::FunctionCall { name, arguments, call_id, .. },
        ) => seq![ToolCallView { id: call_id, name, arguments }],
        _ => Seq::empty(),
    }
}

/// A list of calls into which pieces were merged, one after the other.
pub open spec fn merged_calls(
    calls: Seq<ToolCallView>,
    deltas: Seq<ChatDeltaToolCallView>,
) -> Seq<ToolCallView>
    decreases deltas.len(),
{
    if deltas.len() == 0 {
        calls
    } else {
        let before = merged_calls(calls, deltas.drop_last());
        let delta = deltas.last();
        let longer = padded(before, delta.index as nat);
        longer.update(delta.index as int, longer[delta.index as int].merged(delta))
    }
}

/// The pieces of tool calls in a choice.
pub open spec fn deltas_in(taken: Taken) -> Seq<ChatDeltaToolCallView> {
    taken.0.delta.calls()
}

/// The fragment that a piece adds to the arguments of the call at `index`.
pub open spec fn fragment_at(delta: ChatDeltaToolCallView, index: int) -> Seq<char> {
    if delta.index == index {
        delta.fragment()
    } else {
        Seq::empty()
    }
}

/// The identifier that the pieces last gave the call at `index`, or
/// `earlier` where they gave none.
pub open spec fn last_id(
    deltas: Seq<ChatDeltaToolCallView>,
    index: int,
    earlier: Seq<char>,
) -> Seq<char>
    decreases deltas.len(),
{
    if deltas.len() == 0 {
        earlier
    } else {
        match deltas.last().id {
            Some(id) => if deltas.last().index == index {
                id
            } else {
                last_id(deltas.drop_last(), index, earlier)
            },
            None => last_id(deltas.drop_last(), index, earlier),
        }
    }
}

/// The name that the pieces last gave the function of the call at `index`,
/// or `earlier` where they gave none.
pub open spec fn last_name(
    deltas: Seq<ChatDeltaToolCallView>,
    index: int,
    earlier: Seq<char>,
) -> Seq<char>
    decreases deltas.len(),
{
    if deltas.len() == 0 {
        earlier
    } else {
        match deltas.last().name() {
            Some(name) => if deltas.last().index == index {
                name
            } else {
                last_name(deltas.drop_last(), index, earlier)
            },
            None => last_name(deltas.drop_last(), index, earlier),
        }
    }
}

/// The call at `index`, and an empty one where the list does not reach it.
pub open spec fn call_at(calls: Seq<ToolCallView>, index: int) -> ToolCallView {
    if 0 <= index < calls.len() {
        calls[index]
    } else {
        ToolCallView::empty()
    }
}

/// The call at each index is made of the pieces for that index alone: its
/// arguments are their fragments in the order in which they came, its
/// identifier and its name are those that came last.
pub proof fn law_a_call_is_its_pieces(
    calls: Seq<ToolCallView>,
    deltas: Seq<ChatDeltaToolCallView>,
    index: int,
)
    requires
        0 <= index,
    ensures
        call_at(merged_calls(calls, deltas), index) == (ToolCallView {
            id: last_id(deltas, index, call_at(calls, index).id),
            name: last_name(deltas, index, call_at(calls, index).name),
            arguments: call_at(calls, index).arguments + gather(
                deltas,
                |d: ChatDeltaToolCallView| fragment_at(d, index),
            ),
        }),
    decreases deltas.len(),
{
    let part = |d: ChatDeltaToolCallView| fragment_at(d, index);
    if deltas.len() == 0 {
        assert(call_at(calls, index).arguments + gather(deltas, part) =~= call_at(
            calls,
            index,
        ).arguments);
    } else {
        law_a_call_is_its_pieces(calls, deltas.drop_last(), index);
        let before = merged_calls(calls, deltas.drop_last());
        let delta = deltas.last();
        let longer = padded(before, delta.index as nat);
        assert(call_at(longer, index) == call_at(before, index));
        assert(call_at(merged_calls(calls, deltas), index).arguments =~= call_at(
            calls,
            index,
        ).arguments + gather(deltas, part));
    }
}

/// The list of calls reaches just as far as the indices that the pieces
/// name.
pub proof fn law_the_list_reaches_every_index(
    calls: Seq<ToolCallView>,
    deltas: Seq<ChatDeltaToolCallView>,
)
    ensures
        calls.len() <= merged_calls(calls, deltas).len(),
        forall|i: int|
            0 <= i < deltas.len() ==> (#[trigger] deltas[i]).index < merged_calls(
                calls,
                deltas,
            ).len(),
        merged_calls(calls, deltas).len() > calls.len() ==> exists|i: int|
            0 <= i < deltas.len() && (#[trigger] deltas[i]).index + 1 == merged_calls(
                calls,
                deltas,
            ).len(),
    decreases deltas.len(),
{
    if deltas.len() > 0 {
        let shorter = deltas.drop_last();
        law_the_list_reaches_every_index(calls, shorter);
        let before = merged_calls(calls, shorter);
        let after = merged_calls(calls, deltas);
        assert forall|i: int| 0 <= i < deltas.len() implies (#[trigger] deltas[i]).index
            < after.len() by {
            if i < shorter.len() {
                assert(shorter[i] == deltas[i]);
            }
        }
        if after.len() > calls.len() {
            if after.len() > before.len() {
                assert(deltas[deltas.len() - 1].index + 1 == after.len());
            } else {
                let i = choose|i: int|
                    0 <= i < shorter.len() && (#[trigger] shorter[i]).index + 1 == before.len();
                assert(deltas[i].index + 1 == after.len());
            }
        }
    }
}

/// To merge pieces and then others is to merge both in a row.
pub proof fn lemma_merged_in_a_row(
    calls: Seq<ToolCallView>,
    left: Seq<ChatDeltaToolCallView>,
    right: Seq<ChatDeltaToolCallView>,
)
    ensures
        merged_calls(calls, left + right) == merged_calls(merged_calls(calls, left), right),
    decreases right.len(),
{
    if right.len() == 0 {
        assert(left + right =~= left);
    } else {
        assert((left + right).drop_last() =~= left + right.drop_last());
        lemma_merged_in_a_row(calls, left, right.drop_last());
    }
}

/// The converter merges the pieces into its list.
pub proof fn lemma_calls_are_merged(state: ConverterView, deltas: Seq<ChatDeltaToolCallView>)
    ensures
        state.after_calls(deltas).0.tool_call_accum == merged_calls(
            state.tool_call_accum,
            deltas,
        ),
    decreases deltas.len(),
{
    if deltas.len() > 0 {
        lemma_calls_are_merged(state, deltas.drop_last());
    }
}

/// Calls that are handed out, one by one, are the calls.
proof fn lemma_gather_done(calls: Seq<ToolCallView>)
    ensures
        gather(
            calls.map_values(|call: ToolCallView| call_done(call)),
            |e: ResponseEventView| call_item(e),
        ) == calls,
    decreases calls.len(),
{
    let part = |e: ResponseEventView| call_item(e);
    let done = calls.map_values(|call: ToolCallView| call_done(call));
    if calls.len() > 0 {
        lemma_gather_done(calls.drop_last());
        assert(done.drop_last() =~= calls.drop_last().map_values(
            |call: ToolCallView| call_done(call),
        ));
        assert(gather(done, part) =~= calls);
    } else {
        assert(gather(done, part) =~= calls);
    }
}

/// The end of a choice hands the list of calls out, whole and in order,
/// exactly where it asks for tool calls.
proof fn lemma_finish_calls(
    state: ConverterView,
    reason: Option<Seq<char>>,
    usage: Option<ChatUsage>,
)
    ensures
        ({
            let (after, events) = state.after_finish(reason, usage);
            let handed_out = gather(events, |e: ResponseEventView| call_item(e));
            if reason == Some("tool_calls"@) {
                handed_out == state.tool_call_accum && after.tool_call_accum == Seq::<
                    ToolCallView,
                >::empty()
            } else {
                handed_out == Seq::<ToolCallView>::empty() && after.tool_call_accum
                    == state.tool_call_accum
            }
        }),
{
    let part = |e: ResponseEventView| call_item(e);
    let (after, events) = state.after_finish(reason, usage);
    lemma_reasons_differ();
    if reason == Some("tool_calls"@) {
        let done = state.tool_call_accum.map_values(|call: ToolCallView| call_done(call));
        let first = events.take(events.len() - 1 - done.len());
        let rest = seq![events.last()];
        assert(events =~= first + done + rest);
        lemma_gather_add(first + done, rest, part);
        lemma_gather_add(first, done, part);
        lemma_gather_none(first, part);
        lemma_gather_none(rest, part);
        lemma_gather_done(state.tool_call_accum);
        assert(gather(events, part) =~= state.tool_call_accum);
    } else {
        lemma_gather_none(events, part);
    }
}

/// Of one choice: its pieces are merged into the list; the list is handed
/// out, whole and in order, exactly where the choice asks for tool calls.
pub proof fn lemma_choice_calls(
    state: ConverterView,
    choice: ChatChoiceView,
    usage: Option<ChatUsage>,
)
    ensures
        ({
            let (after, events) = state.after_choice(choice, usage);
            let handed_out = gather(events, |e: ResponseEventView| call_item(e));
            let calls = merged_calls(state.tool_call_accum, choice.delta.calls());
            if choice.finish_reason == Some("tool_calls"@) {
                handed_out == calls && after.tool_call_accum == Seq::<ToolCallView>::empty()
            } else {
                handed_out == Seq::<ToolCallView>::empty() && after.tool_call_accum == calls
            }
        }),
{
    let part = |e: ResponseEventView| call_item(e);
    let (reasoned, reasoning) = state.after_reasoning(choice.delta.reasoning());
    let (called, calls) = reasoned.after_calls(choice.delta.calls());
    let (spoken, text) = called.after_text(choice.delta.text());
    let (finished, end) = spoken.after_finish(choice.finish_reason, usage);
    lemma_calls_frame(reasoned, choice.delta.calls());
    lemma_calls_are_merged(reasoned, choice.delta.calls());
    lemma_choice_parts(state, choice, usage, part);
    lemma_gather_none(reasoning, part);
    lemma_gather_none(calls, part);
    lemma_gather_none(text, part);
    lemma_finish_calls(spoken, choice.finish_reason, usage);
    let events = state.after_choice(choice, usage).1;
    assert(gather(events, part) =~= gather(end, part));
}

/// Of choices in a row, none of which but the last asks for tool calls: the
/// pieces of all of them are merged; the list is handed out where the last
/// asks for tool calls.
pub proof fn lemma_taken_calls(state: ConverterView, taken: Seq<Taken>)
    requires
        forall|i: int|
            0 <= i < taken.len() - 1 ==> (#[trigger] taken[i]).0.finish_reason != Some(
                "tool_calls"@,
            ),
    ensures
        ({
            let (after, events) = after_taken(state, taken);
            let handed_out = gather(events, |e: ResponseEventView| call_item(e));
            let calls = merged_calls(
                state.tool_call_accum,
                gather(taken, |t: Taken| deltas_in(t)),
            );
            if taken.len() > 0 && taken.last().0.finish_reason == Some("tool_calls"@) {
                handed_out == calls && after.tool_call_accum == Seq::<ToolCallView>::empty()
            } else {
                handed_out == Seq::<ToolCallView>::empty() && after.tool_call_accum == calls
            }
        }),
    decreases taken.len(),
{
    let part = |e: ResponseEventView| call_item(e);
    let source = |t: Taken| deltas_in(t);
    if taken.len() > 0 {
        let shorter = taken.drop_last();
        let (before, events) = after_taken(state, shorter);
        let (after, last) = before.after_choice(taken.last().0, taken.last().1);
        assert forall|i: int| 0 <= i < shorter.len() implies (#[trigger] shorter[i]).0.finish_reason
            != Some("tool_calls"@) by {
            assert(shorter[i] == taken[i]);
        }
        lemma_taken_calls(state, shorter);
        lemma_choice_calls(before, taken.last().0, taken.last().1);
        lemma_gather_add(events, last, part);
        lemma_merged_in_a_row(
            state.tool_call_accum,
            gather(shorter, source),
            taken.last().0.delta.calls(),
        );
        assert(gather(events + last, part) =~= gather(last, part));
    }
}

/// The arguments that the pieces for `index` carry.
pub open spec fn arguments_at(piece: ChatDeltaToolCallView, index: int) -> Seq<char> {
    if piece.index == index {
        arguments_in(piece)
    } else {
        Seq::empty()
    }
}

/// The name that the pieces last gave the function of the call at `index`,
/// whatever else those pieces carry, or `earlier` where they gave none.
pub open spec fn name_given(
    pieces: Seq<ChatDeltaToolCallView>,
    index: int,
    earlier: Seq<char>,
) -> Seq<char>
    decreases pieces.len(),
{
    if pieces.len() == 0 {
        earlier
    } else if pieces.last().index == index && gives_name(pieces.last()) {
        pieces.last().function->0.name->0
    } else {
        name_given(pieces.drop_last(), index, earlier)
    }
}

/// The call at each index, field by field: its identifier and its name are
/// those that its pieces gave last, and its arguments are what its pieces
/// carry, in the order in which they came.
pub proof fn law_a_call_is_its_fields(
    calls: Seq<ToolCallView>,
    pieces: Seq<ChatDeltaToolCallView>,
    index: int,
)
    requires
        0 <= index,
    ensures
        ({
            let earlier = call_at(calls, index);
            let call = call_at(merged_calls(calls, pieces), index);
            &&& call.id == last_id(pieces, index, earlier.id)
            &&& call.name == name_given(pieces, index, earlier.name)
            &&& call.arguments == earlier.arguments + gather(
                pieces,
                |p: ChatDeltaToolCallView| arguments_at(p, index),
            )
        }),
    decreases pieces.len(),
{
    let part = |p: ChatDeltaToolCallView| arguments_at(p, index);
    let earlier = call_at(calls, index);
    if pieces.len() == 0 {
        assert(earlier.arguments + gather(pieces, part) =~= earlier.arguments);
    } else {
        let shorter = pieces.drop_last();
        let piece = pieces.last();
        law_a_call_is_its_fields(calls, shorter, index);
        let before = merged_calls(calls, shorter);
        let longer = padded(before, piece.index as nat);
        assert(call_at(longer, index) == call_at(before, index));
        assert(call_at(merged_calls(calls, pieces), index).arguments =~= earlier.arguments
            + gather(pieces, part));
    }
}

/// The name that a piece gives its call stays, whatever the piece carries
/// besides, until a later piece for the same call gives another.
pub proof fn law_a_name_stays_until_another_comes(
    calls: Seq<ToolCallView>,
    pieces: Seq<ChatDeltaToolCallView>,
    i: int,
    name: Seq<char>,
)
    requires
        0 <= i < pieces.len(),
        pieces[i].function is Some,
        pieces[i].function->0.name == Some(name),
        forall|j: int|
            i < j < pieces.len() && (#[trigger] pieces[j]).index == pieces[i].index
                && pieces[j].function is Some ==> pieces[j].function->0.name is None,
    ensures
        pieces[i].index < merged_calls(calls, pieces).len(),
        merged_calls(calls, pieces)[pieces[i].index as int].name == name,
    decreases pieces.len(),
{
    let index = pieces[i].index as int;
    law_the_list_reaches_every_index(calls, pieces);
    law_a_call_is_its_fields(calls, pieces, index);
    lemma_name_given(pieces, i, name, call_at(calls, index).name);
}

proof fn lemma_name_given(
    pieces: Seq<ChatDeltaToolCallView>,
    i: int,
    name: Seq<char>,
    earlier: Seq<char>,
)
    requires
        0 <= i < pieces.len(),
        pieces[i].function is Some,
        pieces[i].function->0.name == Some(name),
        forall|j: int|
            i < j < pieces.len() && (#[trigger] pieces[j]).index == pieces[i].index
                && pieces[j].function is Some ==> pieces[j].function->0.name is None,
    ensures
        name_given(pieces, pieces[i].index as int, earlier) == name,
    decreases pieces.len(),
{
    if i < pieces.len() - 1 {
        let shorter = pieces.drop_last();
        assert(!(pieces.last().index == pieces[i].index && gives_name(pieces.last()))) by {
            assert(pieces.last() == pieces[pieces.len() - 1]);
        }
        assert(shorter[i] == pieces[i]);
        assert forall|j: int|
            i < j < shorter.len() && (#[trigger] shorter[j]).index == shorter[i].index
                && shorter[j].function is Some implies shorter[j].function->0.name is None by {
            assert(shorter[j] == pieces[j]);
        }
        lemma_name_given(shorter, i, name, earlier);
    }
}

} // verus!
