//! Turns the chunks of a streamed chat reply into the events of a turn.
use crate::chunk::{
    ChatChoice, ChatChoiceView, ChatDeltaToolCall, ChatDeltaToolCallView, ChatStreamChunk,
    ChatStreamChunkView, ChatUsage,
};
use crate::protocol::{
    ContentItem, ContentItemView, MessagePhase, ResponseEvent, ResponseEventView, ResponseItem,
    ResponseItemView, TokenUsage,
};
use crate::text::{decimal, decimal_text, same_text};
use vstd::prelude::*;
use vstd::string::StringExecFns;

verus! {

/// A tool call, as far as it has arrived.
#[verifier::ext_equal]
pub struct ToolCallView {
    pub id: Seq<char>,
    pub name: Seq<char>,
    pub arguments: Seq<char>,
}

/// A [`ChatStreamConverter`] as a mathematical value.
#[verifier::ext_equal]
pub struct ConverterView {
    pub response_id: Seq<char>,
    pub item_id_counter: nat,
    pub model: Seq<char>,
    pub content_started: bool,
    pub tool_calls_started: bool,
    pub accumulated_text: Seq<char>,
    pub accumulated_reasoning: Seq<char>,
    pub reasoning_item_id: Option<Seq<char>>,
    pub reasoning_summary: Seq<char>,
    pub tool_call_accum: Seq<ToolCallView>,
}

/// The tokens of a reply, as the Responses API counts them.
pub open spec fn usage_of(usage: ChatUsage) -> TokenUsage {
    TokenUsage {
        input_tokens: usage.prompt_tokens,
        cached_input_tokens: 0,
        output_tokens: usage.completion_tokens,
        reasoning_output_tokens: 0,
        total_tokens: usage.total_tokens,
    }
}

/// The tokens of a reply that may not have counted them.
pub open spec fn optional_usage_of(usage: Option<ChatUsage>) -> Option<TokenUsage> {
    match usage {
        Some(usage) => Some(usage_of(usage)),
        None => None,
    }
}

/// The identifier of the `n`th item.
pub open spec fn item_id(n: nat) -> Seq<char> {
    "msg_"@ + decimal_text(n)
}

/// A finished piece of reasoning.
pub open spec fn reasoning_done(id: Seq<char>, reasoning: Seq<char>) -> ResponseEventView {
    ResponseEventView::OutputItemDone(
        ResponseItemView::Reasoning {
            id: Some(id),
            summary: Seq::empty(),
            content: None,
            encrypted_content: Some(reasoning),
            internal_chat_message_metadata_passthrough: None,
        },
    )
}

/// A finished message of the assistant.
pub open spec fn message_done(
    id: Seq<char>,
    text: Seq<char>,
    phase: MessagePhase,
) -> ResponseEventView {
    ResponseEventView::OutputItemDone(
        ResponseItemView::Message {
            id: Some(id),
            role: "assistant"@,
            content: seq![ContentItemView::OutputText { text }],
            phase: Some(phase),
            internal_chat_message_metadata_passthrough: None,
        },
    )
}

/// A finished tool call.
pub open spec fn call_done(call: ToolCallView) -> ResponseEventView {
    ResponseEventView::OutputItemDone(
        ResponseItemView::FunctionCall {
            id: Some(call.id),
            name: call.name,
            namespace: None,
            arguments: call.arguments,
            call_id: call.id,
            internal_chat_message_metadata_passthrough: None,
        },
    )
}

/// The list of calls, lengthened by empty ones as far as `index`.
pub open spec fn padded(calls: Seq<ToolCallView>, index: nat) -> Seq<ToolCallView> {
    if calls.len() <= index {
        calls + Seq::new((index + 1 - calls.len()) as nat, |i: int| ToolCallView::empty())
    } else {
        calls
    }
}

/// Whether a reason for the end of a choice is known: such a reason ends the
/// turn.
pub open spec fn is_known_reason(reason: Seq<char>) -> bool {
    reason == "stop"@ || reason == "tool_calls"@ || reason == "length"@
}

impl ToolCallView {
    /// A tool call of which nothing has arrived.
    pub open spec fn empty() -> ToolCallView {
        ToolCallView { id: Seq::empty(), name: Seq::empty(), arguments: Seq::empty() }
    }

    /// The call once `delta` has arrived: an identifier and a name replace
    /// the old ones, a fragment of the arguments is put behind the others.
    pub open spec fn merged(self, delta: ChatDeltaToolCallView) -> ToolCallView {
        ToolCallView {
            id: match delta.id {
                Some(id) => id,
                None => self.id,
            },
            name: match delta.name() {
                Some(name) => name,
                None => self.name,
            },
            arguments: self.arguments + delta.fragment(),
        }
    }
}

impl ConverterView {
    /// A converter that has seen nothing.
    pub open spec fn fresh(response_id: Seq<char>, model: Seq<char>) -> ConverterView {
        ConverterView {
            response_id,
            item_id_counter: 0,
            model,
            content_started: false,
            tool_calls_started: false,
            accumulated_text: Seq::empty(),
            accumulated_reasoning: Seq::empty(),
            reasoning_item_id: None,
            reasoning_summary: Seq::empty(),
            tool_call_accum: Seq::empty(),
        }
    }

    /// A piece of reasoning: kept, and reported unless it is empty.
    pub open spec fn after_reasoning(self, reasoning: Seq<char>) -> (
        ConverterView,
        Seq<ResponseEventView>,
    ) {
        if reasoning.len() == 0 {
            (self, Seq::empty())
        } else {
            (
                ConverterView {
                    accumulated_reasoning: self.accumulated_reasoning + reasoning,
                    reasoning_summary: self.reasoning_summary + reasoning,
                    ..self
                },
                seq![
                    ResponseEventView::ReasoningSummaryDelta { delta: reasoning, summary_index: 0 },
                ],
            )
        }
    }

    /// A piece of a tool call: merged into the call at its index, and
    /// reported under the identifier that the call then has.
    pub open spec fn after_call(self, delta: ChatDeltaToolCallView) -> (
        ConverterView,
        Seq<ResponseEventView>,
    ) {
        let calls = padded(self.tool_call_accum, delta.index as nat);
        let call = calls[delta.index as int].merged(delta);
        (
            ConverterView {
                tool_call_accum: calls.update(delta.index as int, call),
                tool_calls_started: true,
                ..self
            },
            seq![
                ResponseEventView::ToolCallInputDelta {
                    item_id: call.id,
                    call_id: Some(call.id),
                    delta: delta.fragment(),
                },
            ],
        )
    }

    /// Pieces of tool calls, one after the other.
    pub open spec fn after_calls(self, deltas: Seq<ChatDeltaToolCallView>) -> (
        ConverterView,
        Seq<ResponseEventView>,
    )
        decreases deltas.len(),
    {
        if deltas.len() == 0 {
            (self, Seq::empty())
        } else {
            let (before, events) = self.after_calls(deltas.drop_last());
            let (after, last) = before.after_call(deltas.last());
            (after, events + last)
        }
    }

    /// A piece of the text: kept, and reported unless it is empty.
    pub open spec fn after_text(self, text: Seq<char>) -> (ConverterView, Seq<ResponseEventView>) {
        if text.len() == 0 {
            (self, Seq::empty())
        } else {
            (
                ConverterView {
                    accumulated_text: self.accumulated_text + text,
                    content_started: true,
                    ..self
                },
                seq![ResponseEventView::OutputTextDelta(text)],
            )
        }
    }

    /// Hands out the reasoning that was kept, if any, as an item.
    pub open spec fn flush_reasoning(self) -> (ConverterView, Seq<ResponseEventView>) {
        if self.accumulated_reasoning.len() == 0 {
            (self, Seq::empty())
        } else {
            (
                ConverterView {
                    item_id_counter: self.item_id_counter + 1,
                    accumulated_reasoning: Seq::empty(),
                    reasoning_summary: Seq::empty(),
                    ..self
                },
                seq![
                    reasoning_done(item_id(self.item_id_counter + 1), self.accumulated_reasoning),
                ],
            )
        }
    }

    /// Hands out the text that was kept as an item.
    pub open spec fn flush_text(self, phase: MessagePhase) -> (
        ConverterView,
        Seq<ResponseEventView>,
    ) {
        (
            ConverterView {
                item_id_counter: self.item_id_counter + 1,
                accumulated_text: Seq::empty(),
                ..self
            },
            seq![message_done(item_id(self.item_id_counter + 1), self.accumulated_text, phase)],
        )
    }

    /// Hands out the text that was kept as an item, where there is any.
    pub open spec fn flush_some_text(self, phase: MessagePhase) -> (
        ConverterView,
        Seq<ResponseEventView>,
    ) {
        if self.accumulated_text.len() == 0 {
            (self, Seq::empty())
        } else {
            self.flush_text(phase)
        }
    }

    /// The report that the turn is complete.
    pub open spec fn completed(
        self,
        usage: Option<ChatUsage>,
        end_turn: bool,
    ) -> ResponseEventView {
        ResponseEventView::Completed {
            response_id: self.response_id,
            token_usage: optional_usage_of(usage),
            end_turn: Some(end_turn),
        }
    }

    /// The model stopped: its reasoning, then its message, are handed out.
    pub open spec fn after_stop(self, usage: Option<ChatUsage>) -> (
        ConverterView,
        Seq<ResponseEventView>,
    ) {
        let (reasoned, reasoning) = self.flush_reasoning();
        let (flushed, message) = if reasoned.accumulated_text.len() > 0
            || reasoned.content_started {
            ConverterView { content_started: false, ..reasoned }.flush_text(
                MessagePhase::FinalAnswer,
            )
        } else {
            (reasoned, Seq::empty())
        };
        (flushed, (reasoning + message).push(self.completed(usage, true)))
    }

    /// The model asks for tool calls: its reasoning, then any text, then the
    /// calls in the order of their indices are handed out; the turn goes on.
    pub open spec fn after_tool_calls(self, usage: Option<ChatUsage>) -> (
        ConverterView,
        Seq<ResponseEventView>,
    ) {
        let (reasoned, reasoning) = self.flush_reasoning();
        let (flushed, message) = reasoned.flush_some_text(MessagePhase::Commentary);
        let calls = self.tool_call_accum.map_values(|call: ToolCallView| call_done(call));
        (
            ConverterView {
                tool_call_accum: Seq::empty(),
                content_started: false,
                tool_calls_started: false,
                ..flushed
            },
            (reasoning + message + calls).push(self.completed(usage, false)),
        )
    }

    /// The reply was cut off: what text there is is handed out.
    pub open spec fn after_length(self, usage: Option<ChatUsage>) -> (
        ConverterView,
        Seq<ResponseEventView>,
    ) {
        let (flushed, message) = self.flush_some_text(MessagePhase::FinalAnswer);
        (flushed, message.push(self.completed(usage, true)))
    }

    /// The end of a choice, by its reason. No reason, and a reason that is
    /// not known, change nothing.
    pub open spec fn after_finish(
        self,
        reason: Option<Seq<char>>,
        usage: Option<ChatUsage>,
    ) -> (ConverterView, Seq<ResponseEventView>) {
        if reason == Some("stop"@) {
            self.after_stop(usage)
        } else if reason == Some("tool_calls"@) {
            self.after_tool_calls(usage)
        } else if reason == Some("length"@) {
            self.after_length(usage)
        } else {
            (self, Seq::empty())
        }
    }

    /// One choice of a chunk: its reasoning, its tool calls and its text,
    /// then its end.
    pub open spec fn after_choice(self, choice: ChatChoiceView, usage: Option<ChatUsage>) -> (
        ConverterView,
        Seq<ResponseEventView>,
    ) {
        let (reasoned, reasoning) = self.after_reasoning(choice.delta.reasoning());
        let (called, calls) = reasoned.after_calls(choice.delta.calls());
        let (spoken, text) = called.after_text(choice.delta.text());
        let (finished, end) = spoken.after_finish(choice.finish_reason, usage);
        (finished, reasoning + calls + text + end)
    }

    /// The choices of a chunk, one after the other.
    pub open spec fn after_choices(
        self,
        choices: Seq<ChatChoiceView>,
        usage: Option<ChatUsage>,
    ) -> (ConverterView, Seq<ResponseEventView>)
        decreases choices.len(),
    {
        if choices.len() == 0 {
            (self, Seq::empty())
        } else {
            let (before, events) = self.after_choices(choices.drop_last(), usage);
            let (after, last) = before.after_choice(choices.last(), usage);
            (after, events + last)
        }
    }

    /// A chunk: the converter that it leaves, and the events that it yields.
    pub open spec fn after_chunk(self, chunk: ChatStreamChunkView) -> (
        ConverterView,
        Seq<ResponseEventView>,
    ) {
        self.after_choices(chunk.choices, chunk.usage)
    }

    /// Whether the items of a chunk can still be numbered.
    pub open spec fn can_number(self, chunk: ChatStreamChunkView) -> bool {
        self.after_chunk(chunk).0.item_id_counter <= u64::MAX
    }
}

/// A tool call, as far as it has arrived.
#[derive(Debug)]
struct ToolCallAccum {
    id: String,
    name: String,
    arguments: String,
}

impl DeepView for ToolCallAccum {
    type V = ToolCallView;

    closed spec fn deep_view(&self) -> ToolCallView {
        ToolCallView { id: self.id@, name: self.name@, arguments: self.arguments@ }
    }
}

/// Follows one streamed reply: keeps what has arrived of the text, the
/// reasoning and the tool calls, and hands it out as items when the reply
/// ends.
#[derive(Debug)]
pub struct ChatStreamConverter {
    response_id: String,
    item_id_counter: u64,
    model: String,
    content_started: bool,
    tool_calls_started: bool,
    accumulated_text: String,
    accumulated_reasoning: String,
    reasoning_item_id: Option<String>,
    reasoning_summary: String,
    tool_call_accum: Vec<ToolCallAccum>,
}

impl DeepView for ChatStreamConverter {
    type V = ConverterView;

    closed spec fn deep_view(&self) -> ConverterView {
        ConverterView {
            response_id: self.response_id@,
            item_id_counter: self.item_id_counter as nat,
            model: self.model@,
            content_started: self.content_started,
            tool_calls_started: self.tool_calls_started,
            accumulated_text: self.accumulated_text@,
            accumulated_reasoning: self.accumulated_reasoning@,
            reasoning_item_id: self.reasoning_item_id.deep_view(),
            reasoning_summary: self.reasoning_summary@,
            tool_call_accum: self.tool_call_accum.deep_view(),
        }
    }
}

/// Puts `event` behind `events`.
fn emit(events: &mut Vec<ResponseEvent>, event: ResponseEvent)
    ensures
        final(events).deep_view() == old(events).deep_view().push(event.deep_view()),
{
    events.push(event);
    assert(events.deep_view() =~= old(events).deep_view().push(event.deep_view()));
}

/// Takes a string out of its place and leaves an empty one there.
fn take_text(place: &mut String) -> (text: String)
    ensures
        text@ == old(place)@,
        final(place)@ == Seq::<char>::empty(),
{
    let mut text = String::new();
    std::mem::swap(&mut text, place);
    text
}

/// The tokens of a reply, as the Responses API counts them.
pub fn map_usage(usage: &ChatUsage) -> (mapped: TokenUsage)
    ensures
        mapped == usage_of(*usage),
{
    TokenUsage {
        input_tokens: usage.prompt_tokens,
        output_tokens: usage.completion_tokens,
        total_tokens: usage.total_tokens,
        cached_input_tokens: 0,
        reasoning_output_tokens: 0,
    }
}

/// Whether a reason for the end of a choice is known.
pub fn known_reason(reason: &String) -> (known: bool)
    ensures
        known == is_known_reason(reason@),
{
    same_text(reason, "stop") || same_text(reason, "tool_calls") || same_text(reason, "length")
}

impl ChatStreamConverter {
    /// A converter that has seen nothing.
    pub fn new(response_id: String, model: String) -> (converter: ChatStreamConverter)
        ensures
            converter.deep_view() == ConverterView::fresh(response_id@, model@),
    {
        let converter = ChatStreamConverter {
            response_id,
            item_id_counter: 0,
            model,
            content_started: false,
            tool_calls_started: false,
            accumulated_text: String::new(),
            accumulated_reasoning: String::new(),
            reasoning_item_id: None,
            reasoning_summary: String::new(),
            tool_call_accum: Vec::new(),
        };
        assert(converter.tool_call_accum.deep_view() =~= Seq::empty());
        converter
    }

    /// The identifier of the next item.
    pub fn next_item_id(&mut self) -> (id: String)
        requires
            old(self).deep_view().item_id_counter < u64::MAX,
        ensures
            id@ == item_id(old(self).deep_view().item_id_counter + 1),
            final(self).deep_view() == (ConverterView {
                item_id_counter: old(self).deep_view().item_id_counter + 1,
                ..old(self).deep_view()
            }),
    {
        self.item_id_counter += 1;
        let mut id = "msg_".to_string();
        id.append(decimal(self.item_id_counter).as_str());
        id
    }

    /// Takes in a piece of reasoning.
    fn take_reasoning(&mut self, reasoning: &Option<String>, events: &mut Vec<ResponseEvent>)
        ensures
            ({
                let piece = match reasoning.deep_view() {
                    Some(piece) => piece,
                    None => Seq::empty(),
                };
                let (after, new) = old(self).deep_view().after_reasoning(piece);
                &&& final(self).deep_view() == after
                &&& final(events).deep_view() == old(events).deep_view() + new
            }),
    {
        if let Some(piece) = reasoning {
            if !piece.as_str().is_empty() {
                self.accumulated_reasoning.append(piece.as_str());
                self.reasoning_summary.append(piece.as_str());
                emit(
                    events,
                    ResponseEvent::ReasoningSummaryDelta { delta: piece.clone(), summary_index: 0 },
                );
            }
        }
    }

    /// Takes in a piece of a tool call.
    fn take_call(&mut self, delta: &ChatDeltaToolCall, events: &mut Vec<ResponseEvent>)
        requires
            delta.index < usize::MAX,
        ensures
            ({
                let (after, new) = old(self).deep_view().after_call(delta.deep_view());
                &&& final(self).deep_view() == after
                &&& final(events).deep_view() == old(events).deep_view() + new
            }),
    {
        let ghost before = self.deep_view();
        let ghost calls = self.tool_call_accum.deep_view();
        while self.tool_call_accum.len() <= delta.index
            invariant
                delta.index < usize::MAX,
                calls == before.tool_call_accum,
                calls.len() <= self.tool_call_accum.len(),
                calls.len() < self.tool_call_accum.len() ==> self.tool_call_accum.len()
                    <= delta.index + 1,
                self.deep_view() == (ConverterView {
                    tool_call_accum: calls + Seq::new(
                        (self.tool_call_accum.len() - calls.len()) as nat,
                        |i: int| ToolCallView::empty(),
                    ),
                    ..before
                }),
            decreases delta.index + 1 - self.tool_call_accum.len(),
        {
            let ghost shorter = self.tool_call_accum.deep_view();
            self.tool_call_accum.push(
                ToolCallAccum {
                    id: String::new(),
                    name: String::new(),
                    arguments: String::new(),
                },
            );
            assert(self.tool_call_accum.deep_view() =~= shorter.push(ToolCallView::empty()));
            assert(self.tool_call_accum.deep_view() =~= calls + Seq::new(
                (self.tool_call_accum.len() - calls.len()) as nat,
                |i: int| ToolCallView::empty(),
            ));
        }
        assert(self.tool_call_accum.deep_view() =~= padded(calls, delta.index as nat));
        let ghost longer = self.tool_call_accum.deep_view();
        let index: usize = delta.index;
        let mut call = ToolCallAccum {
            id: String::new(),
            name: String::new(),
            arguments: String::new(),
        };
        std::mem::swap(&mut call, &mut self.tool_call_accum[index]);
        if let Some(id) = &delta.id {
            call.id = id.clone();
        }
        let mut fragment = String::new();
        if let Some(function) = &delta.function {
            if let Some(name) = &function.name {
                call.name = name.clone();
            }
            if let Some(arguments) = &function.arguments {
                call.arguments.append(arguments.as_str());
                fragment = arguments.clone();
            }
        }
        assert(call.arguments@ =~= longer[index as int].arguments + delta.deep_view().fragment());
        assert(call.deep_view() == longer[index as int].merged(delta.deep_view()));
        emit(
            events,
            ResponseEvent::ToolCallInputDelta {
                item_id: call.id.clone(),
                call_id: Some(call.id.clone()),
                delta: fragment,
            },
        );
        self.tool_call_accum.set(index, call);
        self.tool_calls_started = true;
        assert(self.tool_call_accum.deep_view() =~= longer.update(
            index as int,
            longer[index as int].merged(delta.deep_view()),
        ));
    }

    /// Takes in a piece of the text.
    fn take_content(&mut self, content: &Option<String>, events: &mut Vec<ResponseEvent>)
        ensures
            ({
                let piece = match content.deep_view() {
                    Some(piece) => piece,
                    None => Seq::empty(),
                };
                let (after, new) = old(self).deep_view().after_text(piece);
                &&& final(self).deep_view() == after
                &&& final(events).deep_view() == old(events).deep_view() + new
            }),
    {
        if let Some(piece) = content {
            if !piece.as_str().is_empty() {
                self.accumulated_text.append(piece.as_str());
                emit(events, ResponseEvent::OutputTextDelta(piece.clone()));
                self.content_started = true;
            }
        }
    }

    /// Hands out the reasoning, where there is any.
    fn hand_out_reasoning(&mut self, events: &mut Vec<ResponseEvent>)
        requires
            old(self).deep_view().flush_reasoning().0.item_id_counter <= u64::MAX,
        ensures
            ({
                let (after, new) = old(self).deep_view().flush_reasoning();
                &&& final(self).deep_view() == after
                &&& final(events).deep_view() == old(events).deep_view() + new
            }),
    {
        if !self.accumulated_reasoning.as_str().is_empty() {
            let reasoning = take_text(&mut self.accumulated_reasoning);
            let _summary = take_text(&mut self.reasoning_summary);
            let id = self.next_item_id();
            let summary: Vec<String> = Vec::new();
            assert(summary.deep_view() =~= Seq::empty());
            emit(
                events,
                ResponseEvent::OutputItemDone(
                    ResponseItem::Reasoning {
                        id: Some(id),
                        summary,
                        content: None,
                        encrypted_content: Some(reasoning),
                        internal_chat_message_metadata_passthrough: None,
                    },
                ),
            );
        }
    }

    /// Hands out the text as a message.
    fn hand_out_text(&mut self, phase: MessagePhase, events: &mut Vec<ResponseEvent>)
        requires
            old(self).deep_view().item_id_counter < u64::MAX,
        ensures
            ({
                let (after, new) = old(self).deep_view().flush_text(phase);
                &&& final(self).deep_view() == after
                &&& final(events).deep_view() == old(events).deep_view() + new
            }),
    {
        let text = take_text(&mut self.accumulated_text);
        let id = self.next_item_id();
        let content = vec![ContentItem::OutputText { text }];
        assert(content.deep_view() =~= seq![
            ContentItemView::OutputText { text: old(self).deep_view().accumulated_text },
        ]);
        emit(
            events,
            ResponseEvent::OutputItemDone(
                ResponseItem::Message {
                    id: Some(id),
                    role: "assistant".to_string(),
                    content,
                    phase: Some(phase),
                    internal_chat_message_metadata_passthrough: None,
                },
            ),
        );
    }

    /// Hands out the tool calls, in the order of their indices.
    fn hand_out_calls(&mut self, events: &mut Vec<ResponseEvent>)
        ensures
            final(self).deep_view() == (ConverterView {
                tool_call_accum: Seq::empty(),
                ..old(self).deep_view()
            }),
            final(events).deep_view() == old(events).deep_view()
                + old(self).deep_view().tool_call_accum.map_values(
                |call: ToolCallView| call_done(call),
            ),
    {
        let ghost done = self.deep_view().tool_call_accum.map_values(
            |call: ToolCallView| call_done(call),
        );
        let ghost before = events.deep_view();
        let mut calls: Vec<ToolCallAccum> = Vec::new();
        assert(calls.deep_view() =~= Seq::empty());
        std::mem::swap(&mut calls, &mut self.tool_call_accum);
        let mut i: usize = 0;
        while i < calls.len()
            invariant
                i <= calls.len(),
                done == calls.deep_view().map_values(|call: ToolCallView| call_done(call)),
                events.deep_view() == before + done.take(i as int),
            decreases calls.len() - i,
        {
            let call = &calls[i];
            emit(
                events,
                ResponseEvent::OutputItemDone(
                    ResponseItem::FunctionCall {
                        id: Some(call.id.clone()),
                        name: call.name.clone(),
                        namespace: None,
                        arguments: call.arguments.clone(),
                        call_id: call.id.clone(),
                        internal_chat_message_metadata_passthrough: None,
                    },
                ),
            );
            assert(done.take(i + 1) =~= done.take(i as int).push(done[i as int]));
            i += 1;
        }
        assert(done.take(i as int) =~= done);
    }

    /// Reports that the turn is complete.
    fn complete(
        &self,
        usage: &Option<ChatUsage>,
        end_turn: bool,
        events: &mut Vec<ResponseEvent>,
    )
        ensures
            final(events).deep_view() == old(events).deep_view().push(
                self.deep_view().completed(*usage, end_turn),
            ),
    {
        let token_usage = match usage {
            Some(usage) => Some(map_usage(usage)),
            None => None,
        };
        emit(
            events,
            ResponseEvent::Completed {
                response_id: self.response_id.clone(),
                token_usage,
                end_turn: Some(end_turn),
            },
        );
    }

    /// Ends a choice, by its reason.
    fn finish(
        &mut self,
        reason: &Option<String>,
        usage: &Option<ChatUsage>,
        events: &mut Vec<ResponseEvent>,
    )
        requires
            old(self).deep_view().after_finish(reason.deep_view(), *usage).0.item_id_counter
                <= u64::MAX,
        ensures
            ({
                let (after, new) = old(self).deep_view().after_finish(reason.deep_view(), *usage);
                &&& final(self).deep_view() == after
                &&& final(events).deep_view() == old(events).deep_view() + new
            }),
    {
        let ghost before = self.deep_view();
        let ghost earlier = events.deep_view();
        if let Some(reason) = reason {
            if same_text(reason, "stop") {
                self.hand_out_reasoning(events);
                if !self.accumulated_text.as_str().is_empty() || self.content_started {
                    self.content_started = false;
                    self.hand_out_text(MessagePhase::FinalAnswer, events);
                }
                self.complete(usage, true, events);
                assert(events.deep_view() =~= earlier + before.after_stop(*usage).1);
            } else if same_text(reason, "tool_calls") {
                self.hand_out_reasoning(events);
                if !self.accumulated_text.as_str().is_empty() {
                    self.hand_out_text(MessagePhase::Commentary, events);
                }
                self.hand_out_calls(events);
                self.content_started = false;
                self.tool_calls_started = false;
                self.complete(usage, false, events);
                assert(events.deep_view() =~= earlier + before.after_tool_calls(*usage).1);
            } else if same_text(reason, "length") {
                if !self.accumulated_text.as_str().is_empty() {
                    self.hand_out_text(MessagePhase::FinalAnswer, events);
                }
                self.complete(usage, true, events);
                assert(events.deep_view() =~= earlier + before.after_length(*usage).1);
            }
        }
    }

    /// Takes in one choice of a chunk.
    fn take_choice(
        &mut self,
        choice: &ChatChoice,
        usage: &Option<ChatUsage>,
        events: &mut Vec<ResponseEvent>,
    )
        requires
            old(self).deep_view().after_choice(choice.deep_view(), *usage).0.item_id_counter
                <= u64::MAX,
            forall|j: int|
                0 <= j < choice.deep_view().delta.calls().len()
                    ==> (#[trigger] choice.deep_view().delta.calls()[j]).index < usize::MAX,
        ensures
            ({
                let (after, new) = old(self).deep_view().after_choice(choice.deep_view(), *usage);
                &&& final(self).deep_view() == after
                &&& final(events).deep_view() == old(events).deep_view() + new
            }),
    {
        let ghost earlier = events.deep_view();
        let ghost view = choice.deep_view();
        let ghost (thinking, thoughts) = self.deep_view().after_reasoning(view.delta.reasoning());
        let delta = &choice.delta;
        self.take_reasoning(&delta.reasoning_content, events);
        let ghost reasoned = self.deep_view();
        let ghost reported = events.deep_view();
        let ghost deltas = view.delta.calls();
        assert(reasoned == thinking && reported == earlier + thoughts);
        if let Some(calls) = &delta.tool_calls {
            let mut i: usize = 0;
            assert(deltas.take(0) =~= Seq::empty());
            while i < calls.len()
                invariant
                    i <= calls.len(),
                    deltas == calls.deep_view(),
                    forall|j: int|
                        0 <= j < deltas.len() ==> (#[trigger] deltas[j]).index < usize::MAX,
                    self.deep_view() == reasoned.after_calls(deltas.take(i as int)).0,
                    events.deep_view() == reported + reasoned.after_calls(deltas.take(i as int)).1,
                decreases calls.len() - i,
            {
                assert(deltas[i as int] == calls[i as int].deep_view());
                self.take_call(&calls[i], events);
                assert(deltas.take(i + 1).drop_last() =~= deltas.take(i as int));
                assert(deltas.take(i + 1).last() == deltas[i as int]);
                assert(events.deep_view() =~= reported + reasoned.after_calls(
                    deltas.take(i + 1),
                ).1);
                i += 1;
            }
            assert(deltas.take(i as int) =~= deltas);
        }
        let ghost (called, calls) = reasoned.after_calls(deltas);
        assert(self.deep_view() == called);
        assert(events.deep_view() =~= reported + calls);
        let ghost (spoken, words) = called.after_text(view.delta.text());
        self.take_content(&delta.content, events);
        assert(self.deep_view() == spoken);
        let ghost (finished, end) = spoken.after_finish(view.finish_reason, *usage);
        self.finish(&choice.finish_reason, usage, events);
        assert(events.deep_view() =~= earlier + (thoughts + calls + words + end));
    }

    /// Takes in a chunk, and yields the events that it brings about.
    pub fn process(&mut self, chunk: ChatStreamChunk) -> (events: Vec<ResponseEvent>)
        requires
            old(self).deep_view().can_number(chunk.deep_view()),
            chunk.deep_view().indexable(),
        ensures
            final(self).deep_view() == old(self).deep_view().after_chunk(chunk.deep_view()).0,
            events.deep_view() == old(self).deep_view().after_chunk(chunk.deep_view()).1,
    {
        let mut events: Vec<ResponseEvent> = Vec::new();
        let ghost before = self.deep_view();
        let ghost view = chunk.deep_view();
        let mut i: usize = 0;
        assert(view.choices.take(0) =~= Seq::empty());
        assert(events.deep_view() =~= Seq::empty());
        while i < chunk.choices.len()
            invariant
                i <= chunk.choices.len(),
                view == chunk.deep_view(),
                view.indexable(),
                before.can_number(view),
                self.deep_view() == before.after_choices(view.choices.take(i as int), view.usage).0,
                events.deep_view() == before.after_choices(
                    view.choices.take(i as int),
                    view.usage,
                ).1,
            decreases chunk.choices.len() - i,
        {
            proof {
                lemma_counter_never_falls(before, view.choices, view.usage, i + 1);
            }
            assert(view.choices[i as int] == chunk.choices[i as int].deep_view());
            assert(view.choices.take(i + 1).drop_last() =~= view.choices.take(i as int));
            assert(view.choices.take(i + 1).last() == view.choices[i as int]);
            self.take_choice(&chunk.choices[i], &chunk.usage, &mut events);
            i += 1;
        }
        assert(view.choices.take(i as int) =~= view.choices);
        events
    }
}

/// Tool calls take no number.
pub proof fn lemma_calls_keep_counter(state: ConverterView, deltas: Seq<ChatDeltaToolCallView>)
    ensures
        state.after_calls(deltas).0.item_id_counter == state.item_id_counter,
    decreases deltas.len(),
{
    if deltas.len() > 0 {
        lemma_calls_keep_counter(state, deltas.drop_last());
    }
}

/// A choice takes at most two numbers.
pub proof fn lemma_choices_advance_counter(
    state: ConverterView,
    choices: Seq<ChatChoiceView>,
    usage: Option<ChatUsage>,
)
    ensures
        state.item_id_counter <= state.after_choices(choices, usage).0.item_id_counter
            <= state.item_id_counter + 2 * choices.len(),
    decreases choices.len(),
{
    if choices.len() > 0 {
        let before = state.after_choices(choices.drop_last(), usage).0;
        lemma_choices_advance_counter(state, choices.drop_last(), usage);
        let reasoned = before.after_reasoning(choices.last().delta.reasoning()).0;
        lemma_calls_keep_counter(reasoned, choices.last().delta.calls());
    }
}

/// The choices of a chunk never take numbers back.
proof fn lemma_counter_never_falls(
    state: ConverterView,
    choices: Seq<ChatChoiceView>,
    usage: Option<ChatUsage>,
    taken: int,
)
    requires
        0 <= taken <= choices.len(),
    ensures
        state.after_choices(choices.take(taken), usage).0.item_id_counter <= state.after_choices(
            choices,
            usage,
        ).0.item_id_counter,
    decreases choices.len(),
{
    if taken == choices.len() {
        assert(choices.take(taken) =~= choices);
    } else {
        let shorter = choices.drop_last();
        assert(shorter.take(taken) =~= choices.take(taken));
        lemma_counter_never_falls(state, shorter, usage, taken);
        let before = state.after_choices(shorter, usage).0;
        let reasoned = before.after_reasoning(choices.last().delta.reasoning()).0;
        lemma_calls_keep_counter(reasoned, choices.last().delta.calls());
    }
}

} // verus!
