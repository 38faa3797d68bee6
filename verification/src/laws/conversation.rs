//! What the conversion of a request keeps of the conversation.
use crate::convert::{
    answer_message, chat_messages, flattened, function_call, plain_message, ConversationView,
};
use crate::laws::gather::{gather, lemma_gather_one, lemma_gather_push};
use crate::protocol::ResponseItemView;
use crate::request::{ChatContentView, ChatMessageView, ChatToolCallView};
use vstd::prelude::*;

verus! {

/// The call that an item makes.
pub open spec fn call_in(item: ResponseItemView) -> Seq<ChatToolCallView> {
    match item {
        ResponseItemView::FunctionCall { name, arguments, call_id, .. } => seq![
            function_call(call_id, name, arguments),
        ],
        ResponseItemView::CustomToolCall { call_id, name, input } => seq![
            function_call(call_id, name, input),
        ],
        _ => Seq::empty(),
    }
}

/// The calls that a message makes.
pub open spec fn calls_in_message(message: ChatMessageView) -> Seq<ChatToolCallView> {
    match message.tool_calls {
        Some(calls) => calls,
        None => Seq::empty(),
    }
}

/// The answer to a call that an item gives: the call, and the text.
pub open spec fn answer_in(item: ResponseItemView) -> Seq<(Seq<char>, ChatContentView)> {
    match item {
        ResponseItemView::FunctionCallOutput { call_id, output } => seq![
            (call_id, answer_message(call_id, output).content),
        ],
        ResponseItemView::CustomToolCallOutput { call_id, output } => seq![
            (call_id, answer_message(call_id, output).content),
        ],
        _ => Seq::empty(),
    }
}

/// The answer to a call that a message gives.
pub open spec fn answer_in_message(message: ChatMessageView) -> Seq<(Seq<char>, ChatContentView)> {
    match message.tool_call_id {
        Some(id) => seq![(id, message.content)],
        None => Seq::empty(),
    }
}

/// A sequence that is not empty is all but its last element, and that.
proof fn lemma_last<T>(s: Seq<T>)
    requires
        s.len() > 0,
    ensures
        s == s.drop_last().push(s.last()),
{
    assert(s =~= s.drop_last().push(s.last()));
}

proof fn lemma_item_keeps_calls(state: ConversationView, item: ResponseItemView)
    ensures
        gather(state.after_item(item).messages, |m: ChatMessageView| calls_in_message(m))
            == gather(state.messages, |m: ChatMessageView| calls_in_message(m)) + call_in(item),
{
    let part = |m: ChatMessageView| calls_in_message(m);
    let after = state.after_item(item);
    let before = gather(state.messages, part);
    if call_in(item).len() > 0 {
        let call = call_in(item)[0];
        assert(after == state.after_call(call));
        assert(call_in(item) =~= seq![call]);
        if state.assistant_is_last() {
            lemma_last(state.messages);
            lemma_gather_push(state.messages.drop_last(), state.messages.last(), part);
            lemma_gather_push(state.messages.drop_last(), after.messages.last(), part);
            lemma_last(after.messages);
            assert(after.messages.drop_last() =~= state.messages.drop_last());
            assert(part(after.messages.last()) =~= part(state.messages.last()) + seq![call]);
            assert(gather(after.messages, part) =~= before + seq![call]);
        } else {
            lemma_gather_push(state.messages, after.messages.last(), part);
        }
    } else if after.messages.len() > state.messages.len() {
        lemma_gather_push(state.messages, after.messages.last(), part);
        assert(after.messages =~= state.messages.push(after.messages.last()));
        assert(before + Seq::empty() =~= before);
    } else {
        assert(before + Seq::empty() =~= before);
    }
}

proof fn lemma_items_keep_calls(state: ConversationView, items: Seq<ResponseItemView>)
    ensures
        gather(state.after_items(items).messages, |m: ChatMessageView| calls_in_message(m))
            == gather(state.messages, |m: ChatMessageView| calls_in_message(m)) + gather(
            items,
            |i: ResponseItemView| call_in(i),
        ),
    decreases items.len(),
{
    let part = |m: ChatMessageView| calls_in_message(m);
    let source = |i: ResponseItemView| call_in(i);
    if items.len() == 0 {
        assert(gather(state.messages, part) + gather(items, source) =~= gather(
            state.messages,
            part,
        ));
    } else {
        lemma_items_keep_calls(state, items.drop_last());
        lemma_item_keeps_calls(state.after_items(items.drop_last()), items.last());
        assert(gather(state.messages, part) + gather(items.drop_last(), source) + source(
            items.last(),
        ) =~= gather(state.messages, part) + gather(items, source));
    }
}

/// Every tool call of the conversation, of either kind, is made exactly once
/// in the chat, with its identifier, name and arguments, and in the same
/// order.
pub proof fn law_calls_are_kept(instructions: Seq<char>, input: Seq<ResponseItemView>)
    ensures
        gather(chat_messages(instructions, input), |m: ChatMessageView| calls_in_message(m))
            == gather(input, |i: ResponseItemView| call_in(i)),
{
    let part = |m: ChatMessageView| calls_in_message(m);
    let start = ConversationView::start(instructions);
    lemma_items_keep_calls(start, input);
    if instructions.len() > 0 {
        lemma_gather_one(start.messages[0], part);
        assert(start.messages =~= seq![start.messages[0]]);
    }
    assert(gather(start.messages, part) =~= Seq::empty());
    assert(Seq::empty() + gather(input, |i: ResponseItemView| call_in(i)) =~= gather(
        input,
        |i: ResponseItemView| call_in(i),
    ));
}

proof fn lemma_items_keep_answers(state: ConversationView, items: Seq<ResponseItemView>)
    ensures
        gather(state.after_items(items).messages, |m: ChatMessageView| answer_in_message(m))
            == gather(state.messages, |m: ChatMessageView| answer_in_message(m)) + gather(
            items,
            |i: ResponseItemView| answer_in(i),
        ),
    decreases items.len(),
{
    let part = |m: ChatMessageView| answer_in_message(m);
    let source = |i: ResponseItemView| answer_in(i);
    let earlier = gather(state.messages, part);
    if items.len() == 0 {
        assert(earlier + gather(items, source) =~= earlier);
    } else {
        let item = items.last();
        let before = state.after_items(items.drop_last());
        let after = before.after_item(item);
        lemma_items_keep_answers(state, items.drop_last());
        if after.messages.len() > before.messages.len() {
            assert(after.messages =~= before.messages.push(after.messages.last()));
            lemma_gather_push(before.messages, after.messages.last(), part);
            assert(part(after.messages.last()) =~= source(item));
        } else {
            assert(source(item) =~= Seq::empty());
            if call_in(item).len() > 0 {
                assert(before.assistant_is_last());
                lemma_last(before.messages);
                lemma_last(after.messages);
                assert(after.messages.drop_last() =~= before.messages.drop_last());
                lemma_gather_push(before.messages.drop_last(), before.messages.last(), part);
                lemma_gather_push(before.messages.drop_last(), after.messages.last(), part);
            }
            assert(gather(after.messages, part) =~= gather(before.messages, part) + source(item));
        }
        assert(earlier + gather(items.drop_last(), source) + source(item) =~= earlier + gather(
            items,
            source,
        ));
    }
}

/// Every answer to a tool call is given exactly once in the chat, under the
/// identifier of its call, and in the same order.
pub proof fn law_answers_are_kept(instructions: Seq<char>, input: Seq<ResponseItemView>)
    ensures
        gather(chat_messages(instructions, input), |m: ChatMessageView| answer_in_message(m))
            == gather(input, |i: ResponseItemView| answer_in(i)),
{
    let part = |m: ChatMessageView| answer_in_message(m);
    let start = ConversationView::start(instructions);
    lemma_items_keep_answers(start, input);
    if instructions.len() > 0 {
        lemma_gather_one(start.messages[0], part);
        assert(start.messages =~= seq![start.messages[0]]);
    }
    assert(gather(start.messages, part) =~= Seq::empty());
    assert(Seq::empty() + gather(input, |i: ResponseItemView| answer_in(i)) =~= gather(
        input,
        |i: ResponseItemView| answer_in(i),
    ));
}

/// To take in items and then others is to take in both in a row.
pub proof fn lemma_items_in_a_row(
    state: ConversationView,
    left: Seq<ResponseItemView>,
    right: Seq<ResponseItemView>,
)
    ensures
        state.after_items(left + right) == state.after_items(left).after_items(right),
    decreases right.len(),
{
    if right.len() == 0 {
        assert(left + right =~= left);
    } else {
        assert((left + right).drop_last() =~= left + right.drop_last());
        lemma_items_in_a_row(state, left, right.drop_last());
    }
}

/// Whether `message` says what `earlier` said, to the same end.
pub open spec fn says_the_same(earlier: ChatMessageView, message: ChatMessageView) -> bool {
    &&& message.role == earlier.role
    &&& message.content == earlier.content
    &&& message.tool_call_id == earlier.tool_call_id
}

proof fn lemma_item_keeps_messages(state: ConversationView, item: ResponseItemView)
    ensures
        state.messages.len() <= state.after_item(item).messages.len(),
        forall|i: int|
            0 <= i < state.messages.len() ==> #[trigger] says_the_same(
                state.messages[i],
                state.after_item(item).messages[i],
            ),
        forall|i: int|
            0 <= i < state.messages.len() - 1 ==> #[trigger] state.after_item(item).messages[i]
                == state.messages[i],
{
}

proof fn lemma_items_keep_messages(state: ConversationView, items: Seq<ResponseItemView>)
    ensures
        state.messages.len() <= state.after_items(items).messages.len(),
        forall|i: int|
            0 <= i < state.messages.len() ==> #[trigger] says_the_same(
                state.messages[i],
                state.after_items(items).messages[i],
            ),
        forall|i: int|
            0 <= i < state.messages.len() - 1 ==> #[trigger] state.after_items(items).messages[i]
                == state.messages[i],
    decreases items.len(),
{
    if items.len() > 0 {
        let before = state.after_items(items.drop_last());
        lemma_items_keep_messages(state, items.drop_last());
        lemma_item_keeps_messages(before, items.last());
        assert forall|i: int| 0 <= i < state.messages.len() implies #[trigger] says_the_same(
            state.messages[i],
            state.after_items(items).messages[i],
        ) by {
            assert(says_the_same(state.messages[i], before.messages[i]));
            assert(says_the_same(before.messages[i], before.after_item(items.last()).messages[i]));
        }
    }
}

/// As the conversation grows, the chat grows behind what it was: no message
/// is taken back or reworded, and all but the last, which may still gain
/// tool calls and reasoning, stay as they are.
pub proof fn law_the_past_is_kept(
    instructions: Seq<char>,
    past: Seq<ResponseItemView>,
    more: Seq<ResponseItemView>,
)
    ensures
        chat_messages(instructions, past).len() <= chat_messages(instructions, past + more).len(),
        forall|i: int|
            0 <= i < chat_messages(instructions, past).len() ==> #[trigger] says_the_same(
                chat_messages(instructions, past)[i],
                chat_messages(instructions, past + more)[i],
            ),
        forall|i: int|
            0 <= i < chat_messages(instructions, past).len() - 1 ==> #[trigger] chat_messages(
                instructions,
                past + more,
            )[i] == chat_messages(instructions, past)[i],
{
    let start = ConversationView::start(instructions);
    lemma_items_in_a_row(start, past, more);
    lemma_items_keep_messages(start.after_items(past), more);
}

/// Each message of the conversation makes a message of the chat, under the
/// same role, where the items before it left the chat.
pub proof fn law_messages_are_kept(
    instructions: Seq<char>,
    past: Seq<ResponseItemView>,
    message: ResponseItemView,
    more: Seq<ResponseItemView>,
)
    requires
        message is Message,
    ensures
        ({
            let place = chat_messages(instructions, past).len() as int;
            let chat = chat_messages(instructions, past.push(message) + more);
            &&& place < chat.len()
            &&& chat[place].role == message->Message_role
            &&& chat[place].content == flattened(message->Message_content)
            &&& chat[place].tool_call_id is None
        }),
{
    let start = ConversationView::start(instructions);
    let before = start.after_items(past);
    let place = before.messages.len() as int;
    assert(past.push(message).drop_last() =~= past);
    let after = start.after_items(past.push(message));
    assert(after == before.after_item(message));
    law_the_past_is_kept(instructions, past.push(message), more);
    assert(says_the_same(
        chat_messages(instructions, past.push(message))[place],
        chat_messages(instructions, past.push(message) + more)[place],
    ));
}

/// The system message.
pub open spec fn system_message(instructions: Seq<char>) -> ChatMessageView {
    plain_message("system"@, ChatContentView::Text(instructions), None)
}

proof fn lemma_system_is_no_assistant()
    ensures
        "system"@ != "assistant"@,
{
    reveal_strlit("system");
    reveal_strlit("assistant");
    assert("system"@.len() != "assistant"@.len());
}

proof fn lemma_behind_the_system_message(instructions: Seq<char>, items: Seq<ResponseItemView>)
    requires
        instructions.len() > 0,
    ensures
        ({
            let with = ConversationView::start(instructions).after_items(items);
            let without = ConversationView::start(Seq::empty()).after_items(items);
            &&& with.messages == seq![system_message(instructions)] + without.messages
            &&& with.pending_reasoning == without.pending_reasoning
        }),
    decreases items.len(),
{
    let system = seq![system_message(instructions)];
    if items.len() == 0 {
        assert(ConversationView::start(instructions).messages =~= system
            + ConversationView::start(Seq::empty()).messages);
    } else {
        lemma_behind_the_system_message(instructions, items.drop_last());
        lemma_system_is_no_assistant();
        let with = ConversationView::start(instructions).after_items(items.drop_last());
        let without = ConversationView::start(Seq::empty()).after_items(items.drop_last());
        assert(with.assistant_is_last() == without.assistant_is_last());
        let item = items.last();
        assert(with.after_item(item).messages =~= system + without.after_item(item).messages);
    }
}

/// Instructions make the first message of the chat, under the role of the
/// system, and change nothing else; empty ones make none.
pub proof fn law_instructions_lead(instructions: Seq<char>, input: Seq<ResponseItemView>)
    ensures
        chat_messages(instructions, input) == (if instructions.len() == 0 {
            Seq::empty()
        } else {
            seq![system_message(instructions)]
        }) + chat_messages(Seq::empty(), input),
{
    if instructions.len() == 0 {
        assert(instructions =~= Seq::empty());
        assert(Seq::empty() + chat_messages(Seq::empty(), input) =~= chat_messages(
            Seq::empty(),
            input,
        ));
    } else {
        lemma_behind_the_system_message(instructions, input);
    }
}

/// An item without a counterpart in a chat is passed over: the chat is what
/// it would be without it.
pub proof fn law_other_items_are_passed_over(
    instructions: Seq<char>,
    before: Seq<ResponseItemView>,
    after: Seq<ResponseItemView>,
)
    ensures
        chat_messages(instructions, before.push(ResponseItemView::Other) + after)
            == chat_messages(instructions, before + after),
{
    let start = ConversationView::start(instructions);
    assert(before.push(ResponseItemView::Other).drop_last() =~= before);
    lemma_items_in_a_row(start, before.push(ResponseItemView::Other), after);
    lemma_items_in_a_row(start, before, after);
}

/// Whether an item neither takes the reasoning that waits nor replaces it.
pub open spec fn leaves_reasoning(item: ResponseItemView) -> bool {
    match item {
        ResponseItemView::Message { role, .. } => role != "assistant"@,
        ResponseItemView::FunctionCallOutput { .. } => true,
        ResponseItemView::CustomToolCallOutput { .. } => true,
        ResponseItemView::Reasoning { encrypted_content, .. } => encrypted_content is None,
        ResponseItemView::Other => true,
        _ => false,
    }
}

proof fn lemma_reasoning_waits_on(state: ConversationView, items: Seq<ResponseItemView>)
    requires
        forall|i: int| 0 <= i < items.len() ==> leaves_reasoning(#[trigger] items[i]),
    ensures
        state.after_items(items).pending_reasoning == state.pending_reasoning,
    decreases items.len(),
{
    if items.len() > 0 {
        let shorter = items.drop_last();
        assert forall|i: int| 0 <= i < shorter.len() implies leaves_reasoning(
            #[trigger] shorter[i],
        ) by {
            assert(shorter[i] == items[i]);
        }
        lemma_reasoning_waits_on(state, shorter);
        assert(leaves_reasoning(items[items.len() - 1]));
    }
}

/// Whether an item is the assistant's: one of its messages, or a call.
pub open spec fn is_assistants(item: ResponseItemView) -> bool {
    match item {
        ResponseItemView::Message { role, .. } => role == "assistant"@,
        _ => call_in(item).len() > 0,
    }
}

/// Reasoning goes with the message of the assistant or the call that comes
/// next, whatever messages of others, answers and items without a
/// counterpart come between.
pub proof fn law_reasoning_goes_with_what_follows(
    instructions: Seq<char>,
    before: Seq<ResponseItemView>,
    reasoning: ResponseItemView,
    between: Seq<ResponseItemView>,
    next: ResponseItemView,
)
    requires
        reasoning is Reasoning,
        reasoning->encrypted_content is Some,
        forall|i: int| 0 <= i < between.len() ==> leaves_reasoning(#[trigger] between[i]),
        is_assistants(next),
    ensures
        ({
            let chat = chat_messages(instructions, (before.push(reasoning) + between).push(next));
            chat.len() > 0 && chat.last().reasoning_content == reasoning->encrypted_content
        }),
{
    let start = ConversationView::start(instructions);
    let past = before.push(reasoning) + between;
    assert(past.push(next).drop_last() =~= past);
    assert(before.push(reasoning).drop_last() =~= before);
    lemma_items_in_a_row(start, before.push(reasoning), between);
    lemma_reasoning_waits_on(start.after_items(before.push(reasoning)), between);
    assert(start.after_items(past.push(next)) == start.after_items(past).after_item(next));
}

/// A message of anyone but the assistant bears no reasoning.
pub proof fn law_others_bear_no_reasoning(
    instructions: Seq<char>,
    input: Seq<ResponseItemView>,
    i: int,
)
    requires
        0 <= i < chat_messages(instructions, input).len(),
        chat_messages(instructions, input)[i].role != "assistant"@,
    ensures
        chat_messages(instructions, input)[i].reasoning_content is None,
    decreases input.len(),
{
    if input.len() > 0 {
        let before = ConversationView::start(instructions).after_items(input.drop_last());
        let after = before.after_item(input.last());
        lemma_item_keeps_messages(before, input.last());
        if i < before.messages.len() {
            assert(says_the_same(before.messages[i], after.messages[i]));
            law_others_bear_no_reasoning(instructions, input.drop_last(), i);
        }
    }
}

/// Reasoning without content is passed over: the chat is what it would be
/// without it.
pub proof fn law_empty_reasoning_is_passed_over(
    instructions: Seq<char>,
    before: Seq<ResponseItemView>,
    reasoning: ResponseItemView,
    after: Seq<ResponseItemView>,
)
    requires
        reasoning is Reasoning,
        reasoning->encrypted_content is None,
    ensures
        chat_messages(instructions, before.push(reasoning) + after) == chat_messages(
            instructions,
            before + after,
        ),
{
    let start = ConversationView::start(instructions);
    assert(before.push(reasoning).drop_last() =~= before);
    lemma_items_in_a_row(start, before.push(reasoning), after);
    lemma_items_in_a_row(start, before, after);
}

/// A call of a custom tool is a call of a function with the input for its
/// arguments, whatever else the function call names.
pub proof fn law_custom_calls_are_function_calls(
    instructions: Seq<char>,
    before: Seq<ResponseItemView>,
    custom: ResponseItemView,
    function: ResponseItemView,
    after: Seq<ResponseItemView>,
)
    requires
        custom is CustomToolCall,
        function is FunctionCall,
        custom->CustomToolCall_call_id == function->FunctionCall_call_id,
        custom->CustomToolCall_name == function->FunctionCall_name,
        custom->input == function->arguments,
    ensures
        chat_messages(instructions, before.push(custom) + after) == chat_messages(
            instructions,
            before.push(function) + after,
        ),
{
    let start = ConversationView::start(instructions);
    assert(before.push(custom).drop_last() =~= before);
    assert(before.push(function).drop_last() =~= before);
    lemma_items_in_a_row(start, before.push(custom), after);
    lemma_items_in_a_row(start, before.push(function), after);
}

} // verus!
