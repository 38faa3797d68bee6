//! What the items of a streamed turn become when the conversation is sent
//! back with the next request.
use crate::chunk::ChatUsage;
use crate::convert::{
    flattened, function_call, images_of, plain_message, texts_of, ConversationView,
};
use crate::converter::{call_done, ConverterView, ToolCallView};
use crate::laws::conversation::{calls_in_message, lemma_items_in_a_row};
use crate::laws::gather::{
    gather, lemma_gather_add, lemma_gather_none, lemma_gather_one, lemma_gather_push,
};
use crate::protocol::{ContentItemView, MessagePhase, ResponseEventView, ResponseItemView};
use crate::request::{ChatContentView, ChatMessageView, ChatToolCallView};
use vstd::prelude::*;

verus! {

/// The item that an event hands out.
pub open spec fn item_in(event: ResponseEventView) -> Seq<ResponseItemView> {
    match event {
        ResponseEventView::OutputItemDone(item) => seq![item],
        _ => Seq::empty(),
    }
}

/// The items that events hand out.
pub open spec fn items_in(events: Seq<ResponseEventView>) -> Seq<ResponseItemView> {
    gather(events, |event: ResponseEventView| item_in(event))
}

/// The reasoning that goes with what a turn says: its own, where it has any,
/// and otherwise what was waiting.
pub open spec fn reasoning_with(state: ConverterView, conversation: ConversationView) -> Option<
    Seq<char>,
> {
    if state.accumulated_reasoning.len() > 0 {
        Some(state.accumulated_reasoning)
    } else {
        conversation.pending_reasoning
    }
}

/// A call that was streamed, as a chat makes it.
pub open spec fn replayed_call(call: ToolCallView) -> ChatToolCallView {
    function_call(call.id, call.name, call.arguments)
}

/// The message that a call joins: the last one where that is the
/// assistant's, and otherwise a new one that says nothing.
pub open spec fn last_words(conversation: ConversationView) -> ChatMessageView {
    if conversation.assistant_is_last() {
        conversation.messages.last()
    } else {
        plain_message("assistant"@, ChatContentView::Text(Seq::empty()), None)
    }
}

/// A conversation once calls were made: all of them in one message, in
/// order, with the reasoning that was waiting.
pub open spec fn calling(
    conversation: ConversationView,
    calls: Seq<ChatToolCallView>,
) -> ConversationView {
    let said = last_words(conversation);
    if calls.len() == 0 {
        conversation
    } else {
        ConversationView {
            messages: (if conversation.assistant_is_last() {
                conversation.messages.drop_last()
            } else {
                conversation.messages
            }).push(
                ChatMessageView {
                    tool_calls: Some(calls_in_message(said) + calls),
                    reasoning_content: if conversation.pending_reasoning is Some {
                        conversation.pending_reasoning
                    } else {
                        said.reasoning_content
                    },
                    ..said
                },
            ),
            pending_reasoning: None,
        }
    }
}

/// A single text is said as it is.
proof fn lemma_one_text(text: Seq<char>)
    ensures
        flattened(seq![ContentItemView::OutputText { text }]) == ChatContentView::Text(text),
{
    let content = seq![ContentItemView::OutputText { text }];
    assert(content.drop_last() =~= Seq::empty());
    assert(texts_of(content.drop_last()) =~= Seq::empty());
    assert(images_of(content.drop_last()) =~= Seq::empty());
    assert(texts_of(content) =~= seq![text]);
    assert(images_of(content) =~= Seq::empty());
}

/// One item more, behind others.
proof fn lemma_items_behind(
    conversation: ConversationView,
    items: Seq<ResponseItemView>,
    item: ResponseItemView,
)
    ensures
        conversation.after_items(items.push(item)) == conversation.after_items(items).after_item(
            item,
        ),
{
    assert(items.push(item).drop_last() =~= items);
}

/// The reasoning that is handed out waits for what the turn says.
proof fn lemma_reasoning_waits(state: ConverterView, conversation: ConversationView)
    ensures
        conversation.after_items(items_in(state.flush_reasoning().1)) == (ConversationView {
            pending_reasoning: reasoning_with(state, conversation),
            ..conversation
        }),
{
    let part = |event: ResponseEventView| item_in(event);
    let events = state.flush_reasoning().1;
    if events.len() > 0 {
        lemma_gather_one(events[0], part);
        assert(events =~= seq![events[0]]);
        let item = item_in(events[0])[0];
        assert(items_in(events) =~= Seq::empty().push(item));
        lemma_items_behind(conversation, Seq::empty(), item);
    }
}

/// The text that is handed out makes a message of the assistant.
proof fn lemma_text_is_said(
    state: ConverterView,
    phase: MessagePhase,
    conversation: ConversationView,
)
    ensures
        conversation.after_items(items_in(state.flush_text(phase).1)) == (ConversationView {
            messages: conversation.messages.push(
                plain_message(
                    "assistant"@,
                    ChatContentView::Text(state.accumulated_text),
                    conversation.pending_reasoning,
                ),
            ),
            pending_reasoning: None,
        }),
{
    let part = |event: ResponseEventView| item_in(event);
    let events = state.flush_text(phase).1;
    lemma_gather_one(events[0], part);
    assert(events =~= seq![events[0]]);
    let item = item_in(events[0])[0];
    assert(items_in(events) =~= Seq::empty().push(item));
    lemma_items_behind(conversation, Seq::empty(), item);
    lemma_one_text(state.accumulated_text);
}

/// Items of events in a row are taken in one after the other.
proof fn lemma_events_behind(
    conversation: ConversationView,
    left: Seq<ResponseEventView>,
    right: Seq<ResponseEventView>,
)
    ensures
        conversation.after_items(items_in(left + right)) == conversation.after_items(
            items_in(left),
        ).after_items(items_in(right)),
{
    let part = |event: ResponseEventView| item_in(event);
    lemma_gather_add(left, right, part);
    lemma_items_in_a_row(conversation, items_in(left), items_in(right));
}

/// Calls that are handed out are made in one message.
proof fn lemma_calls_are_made(calls: Seq<ToolCallView>, conversation: ConversationView)
    ensures
        conversation.after_items(
            items_in(calls.map_values(|call: ToolCallView| call_done(call))),
        ) == calling(
            conversation,
            calls.map_values(|call: ToolCallView| replayed_call(call)),
        ),
    decreases calls.len(),
{
    let part = |event: ResponseEventView| item_in(event);
    let done = calls.map_values(|call: ToolCallView| call_done(call));
    let replayed = calls.map_values(|call: ToolCallView| replayed_call(call));
    if calls.len() == 0 {
        assert(items_in(done) =~= Seq::empty());
    } else {
        let shorter = calls.drop_last();
        let earlier = shorter.map_values(|call: ToolCallView| call_done(call));
        let fewer = shorter.map_values(|call: ToolCallView| replayed_call(call));
        let item = item_in(done.last())[0];
        assert(done =~= earlier.push(done.last()));
        lemma_gather_push(earlier, done.last(), part);
        assert(items_in(done) =~= items_in(earlier).push(item));
        lemma_items_behind(conversation, items_in(earlier), item);
        lemma_calls_are_made(shorter, conversation);
        assert(replayed =~= fewer.push(replayed_call(calls.last())));
        lemma_one_call_more(conversation, fewer, replayed_call(calls.last()));
    }
}

/// One call more joins the message that makes the others.
proof fn lemma_one_call_more(
    conversation: ConversationView,
    calls: Seq<ChatToolCallView>,
    call: ChatToolCallView,
)
    ensures
        calling(conversation, calls.push(call)) == calling(conversation, calls).after_call(call),
{
    let before = calling(conversation, calls);
    let after = calling(conversation, calls.push(call));
    let said = last_words(conversation);
    assert(calls_in_message(said) + calls.push(call) =~= (calls_in_message(said) + calls).push(
        call,
    ));
    if calls.len() == 0 {
        assert(calls_in_message(said) + calls =~= calls_in_message(said));
        assert(Seq::empty().push(call) =~= seq![call]);
    } else {
        assert(before.assistant_is_last());
        assert(before.messages.drop_last() =~= after.messages.drop_last());
    }
    assert(after.messages =~= before.after_call(call).messages);
}

/// A turn that ended with an answer becomes, in the next request, one
/// message of the assistant, with the text that was streamed and the
/// reasoning that led to it. One that said nothing leaves its reasoning to
/// wait for what comes next.
pub proof fn law_an_answer_is_replayed(
    state: ConverterView,
    usage: Option<ChatUsage>,
    conversation: ConversationView,
)
    ensures
        ({
            let answer = plain_message(
                "assistant"@,
                ChatContentView::Text(state.accumulated_text),
                reasoning_with(state, conversation),
            );
            conversation.after_items(items_in(state.after_stop(usage).1)) == if (
            state.accumulated_text.len() > 0 || state.content_started) {
                ConversationView {
                    messages: conversation.messages.push(answer),
                    pending_reasoning: None,
                }
            } else {
                ConversationView {
                    pending_reasoning: reasoning_with(state, conversation),
                    ..conversation
                }
            }
        }),
{
    let part = |event: ResponseEventView| item_in(event);
    let (reasoned, reasoning) = state.flush_reasoning();
    let spoken = ConverterView { content_started: false, ..reasoned };
    let message = if state.accumulated_text.len() > 0 || state.content_started {
        spoken.flush_text(MessagePhase::FinalAnswer).1
    } else {
        Seq::empty()
    };
    let events = state.after_stop(usage).1;
    assert(events =~= reasoning + message + seq![events.last()]);
    lemma_gather_none(seq![events.last()], part);
    lemma_events_behind(conversation, reasoning + message, seq![events.last()]);
    lemma_events_behind(conversation, reasoning, message);
    lemma_reasoning_waits(state, conversation);
    if message.len() > 0 {
        lemma_text_is_said(
            spoken,
            MessagePhase::FinalAnswer,
            conversation.after_items(items_in(reasoning)),
        );
    } else {
        lemma_gather_none(message, part);
    }
}

/// A turn that asked for tool calls becomes, in the next request, one
/// message of the assistant that says what text came with them and makes all
/// of them in their order, with the reasoning that led to them. Without any
/// text, the calls join the assistant's last message where the conversation
/// ends with one.
pub proof fn law_calls_are_replayed(
    state: ConverterView,
    usage: Option<ChatUsage>,
    conversation: ConversationView,
)
    ensures
        ({
            let reasoning = reasoning_with(state, conversation);
            let text = ChatContentView::Text(state.accumulated_text);
            let spoken = if state.accumulated_text.len() > 0 {
                ConversationView {
                    messages: conversation.messages.push(
                        plain_message("assistant"@, text, reasoning),
                    ),
                    pending_reasoning: None,
                }
            } else {
                ConversationView { pending_reasoning: reasoning, ..conversation }
            };
            conversation.after_items(items_in(state.after_tool_calls(usage).1)) == calling(
                spoken,
                state.tool_call_accum.map_values(|call: ToolCallView| replayed_call(call)),
            )
        }),
{
    let part = |event: ResponseEventView| item_in(event);
    let (reasoned, reasoning) = state.flush_reasoning();
    let message = reasoned.flush_some_text(MessagePhase::Commentary).1;
    let calls = state.tool_call_accum.map_values(|call: ToolCallView| call_done(call));
    let events = state.after_tool_calls(usage).1;
    let last = seq![events.last()];
    assert(events =~= reasoning + message + calls + last);
    lemma_gather_none(last, part);
    lemma_events_behind(conversation, reasoning + message + calls, last);
    lemma_events_behind(conversation, reasoning + message, calls);
    lemma_events_behind(conversation, reasoning, message);
    lemma_reasoning_waits(state, conversation);
    let waiting = conversation.after_items(items_in(reasoning));
    if state.accumulated_text.len() > 0 {
        lemma_text_is_said(reasoned, MessagePhase::Commentary, waiting);
    } else {
        lemma_gather_none(message, part);
    }
    lemma_calls_are_made(state.tool_call_accum, waiting.after_items(items_in(message)));
}

} // verus!
