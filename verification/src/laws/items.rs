//! How a chat grows with the conversation, item by item.
use crate::convert::{chat_messages, flattened, ConversationView};
use crate::laws::fields::or_empty;
use crate::protocol::ResponseItemView;
use crate::request::{ChatContentView, ChatMessageView, ChatToolCallView};
use vstd::prelude::*;

verus! {

/// The reasoning that waits behind these items: the last that was given,
/// unless a message of the assistant or a call has taken it since.
pub open spec fn waiting(items: Seq<ResponseItemView>) -> Option<Seq<char>>
    decreases items.len(),
{
    if items.len() == 0 {
        None
    } else {
        match items.last() {
            ResponseItemView::Reasoning { encrypted_content, .. } => if encrypted_content is Some {
                encrypted_content
            } else {
                waiting(items.drop_last())
            },
            ResponseItemView::Message { role, .. } => if role == "assistant"@ {
                None
            } else {
                waiting(items.drop_last())
            },
            ResponseItemView::FunctionCall { .. } => None,
            ResponseItemView::CustomToolCall { .. } => None,
            _ => waiting(items.drop_last()),
        }
    }
}

/// The calls that a message makes.
pub open spec fn calls_of(message: ChatMessageView) -> Seq<ChatToolCallView> {
    match message.tool_calls {
        Some(calls) => calls,
        None => Seq::empty(),
    }
}

/// Whether a chat grew by this call and no more: the call joined the last
/// message, where that is the assistant's, and otherwise makes a message that
/// says nothing. The reasoning that waits goes with it.
pub open spec fn grew_by_call(
    before: Seq<ChatMessageView>,
    after: Seq<ChatMessageView>,
    id: Seq<char>,
    name: Seq<char>,
    arguments: Seq<char>,
    reasoning: Option<Seq<char>>,
) -> bool {
    let call = ChatToolCallView { id, kind: "function"@, name, arguments };
    if before.len() > 0 && before.last().role == "assistant"@ {
        &&& after.len() == before.len()
        &&& after.drop_last() == before.drop_last()
        &&& after.last().role == before.last().role
        &&& after.last().content == before.last().content
        &&& after.last().tool_call_id == before.last().tool_call_id
        &&& after.last().tool_calls == Some(calls_of(before.last()).push(call))
        &&& after.last().reasoning_content == if reasoning is Some {
            reasoning
        } else {
            before.last().reasoning_content
        }
    } else {
        after == before.push(
            ChatMessageView {
                role: "assistant"@,
                content: ChatContentView::Text(Seq::empty()),
                tool_calls: Some(seq![call]),
                tool_call_id: None,
                reasoning_content: reasoning,
            },
        )
    }
}

proof fn lemma_waiting(instructions: Seq<char>, items: Seq<ResponseItemView>)
    ensures
        ConversationView::start(instructions).after_items(items).pending_reasoning == waiting(
            items,
        ),
    decreases items.len(),
{
    if items.len() > 0 {
        lemma_waiting(instructions, items.drop_last());
    }
}

/// A chat begins with the instructions, under the role of the system, and
/// with nothing where there are none.
pub proof fn law_a_chat_begins_with_the_instructions(instructions: Seq<char>)
    ensures
        instructions.len() == 0 ==> chat_messages(instructions, Seq::empty()).len() == 0,
        instructions.len() > 0 ==> chat_messages(instructions, Seq::empty()) == seq![
            ChatMessageView {
                role: "system"@,
                content: ChatContentView::Text(instructions),
                tool_calls: None,
                tool_call_id: None,
                reasoning_content: None,
            },
        ],
{
}

/// What one item more makes of a chat. A message is said under its role, and
/// takes the reasoning that waits where it is the assistant's. A call of
/// either kind is made, and an answer of either kind is given under the
/// identifier of its call. Anything else changes nothing.
pub proof fn law_one_more_item(
    instructions: Seq<char>,
    past: Seq<ResponseItemView>,
    item: ResponseItemView,
)
    ensures
        ({
            let before = chat_messages(instructions, past);
            let after = chat_messages(instructions, past.push(item));
            match item {
                ResponseItemView::Message { role, content, .. } => after == before.push(
                    ChatMessageView {
                        role,
                        content: flattened(content),
                        tool_calls: None,
                        tool_call_id: None,
                        reasoning_content: if role == "assistant"@ {
                            waiting(past)
                        } else {
                            None
                        },
                    },
                ),
                ResponseItemView::FunctionCall { name, arguments, call_id, .. } => grew_by_call(
                    before,
                    after,
                    call_id,
                    name,
                    arguments,
                    waiting(past),
                ),
                ResponseItemView::CustomToolCall { name, input, call_id } => grew_by_call(
                    before,
                    after,
                    call_id,
                    name,
                    input,
                    waiting(past),
                ),
                ResponseItemView::FunctionCallOutput { call_id, output } => after == before.push(
                    ChatMessageView {
                        role: "tool"@,
                        content: ChatContentView::Text(or_empty(output)),
                        tool_calls: None,
                        tool_call_id: Some(call_id),
                        reasoning_content: None,
                    },
                ),
                ResponseItemView::CustomToolCallOutput { call_id, output } => after == before.push(
                    ChatMessageView {
                        role: "tool"@,
                        content: ChatContentView::Text(or_empty(output)),
                        tool_calls: None,
                        tool_call_id: Some(call_id),
                        reasoning_content: None,
                    },
                ),
                _ => after == before,
            }
        }),
{
    let start = ConversationView::start(instructions);
    assert(past.push(item).drop_last() =~= past);
    lemma_waiting(instructions, past);
    let before = start.after_items(past);
    let after = start.after_items(past.push(item));
    assert(after == before.after_item(item));
    if before.assistant_is_last() && (item is FunctionCall || item is CustomToolCall) {
        assert(after.messages.drop_last() =~= before.messages.drop_last());
        assert(after.messages.last().tool_calls->0 =~= calls_of(before.messages.last()).push(
            after.messages.last().tool_calls->0.last(),
        ));
    }
}

} // verus!
