//! Rewrites a request for the Responses API as one for the Chat Completions
//! API.
use crate::json::{self, json_value, Json};
use crate::protocol::{
    ContentItem, ContentItemView, ImageDetail, ResponseItem, ResponseItemView, ResponsesApiRequest,
    ResponsesApiRequestView,
};
use crate::request::{
    ChatCompletionRequest, ChatCompletionRequestView, ChatContent, ChatContentView, ChatImageUrl,
    ChatImageUrlView, ChatMessage, ChatMessageView, ChatMultimodalPart, ChatMultimodalPartView,
    ChatTool, ChatToolCall, ChatToolCallFunction, ChatToolCallView, ChatToolFunction, ChatToolView,
    StreamOptions, Thinking,
};
use crate::text::{join, joined, same_text};
use serde_json::Value;
use vstd::prelude::*;

verus! {

/// The name of a level of detail.
pub open spec fn detail_text(detail: ImageDetail) -> Seq<char> {
    match detail {
        ImageDetail::Auto => "Auto"@,
        ImageDetail::Low => "Low"@,
        ImageDetail::High => "High"@,
        ImageDetail::Original => "Original"@,
    }
}

/// The texts among the parts of a message, in order.
pub open spec fn texts_of(content: Seq<ContentItemView>) -> Seq<Seq<char>>
    decreases content.len(),
{
    if content.len() == 0 {
        Seq::empty()
    } else {
        let before = texts_of(content.drop_last());
        match content.last() {
            ContentItemView::InputText { text } => before.push(text),
            ContentItemView::OutputText { text } => before.push(text),
            ContentItemView::InputImage { .. } => before,
        }
    }
}

/// The part of a chat message that shows an image.
pub open spec fn image_part(
    image_url: Seq<char>,
    detail: Option<ImageDetail>,
) -> ChatMultimodalPartView {
    ChatMultimodalPartView {
        kind: "image_url"@,
        text: None,
        image_url: Some(
            ChatImageUrlView {
                url: image_url,
                detail: match detail {
                    Some(detail) => Some(detail_text(detail)),
                    None => None,
                },
            },
        ),
    }
}

/// The images among the parts of a message, in order.
pub open spec fn images_of(content: Seq<ContentItemView>) -> Seq<ChatMultimodalPartView>
    decreases content.len(),
{
    if content.len() == 0 {
        Seq::empty()
    } else {
        let before = images_of(content.drop_last());
        match content.last() {
            ContentItemView::InputImage { image_url, detail } => before.push(
                image_part(image_url, detail),
            ),
            _ => before,
        }
    }
}

/// The part of a chat message that holds its text.
pub open spec fn text_part(text: Seq<char>) -> ChatMultimodalPartView {
    ChatMultimodalPartView { kind: "text"@, text: Some(text), image_url: None }
}

/// What a chat message says: its texts, one to a line; where there are
/// images, they come first and the text follows as a part of its own.
pub open spec fn flattened(content: Seq<ContentItemView>) -> ChatContentView {
    let text = joined(texts_of(content), "\n"@);
    if images_of(content).len() == 0 {
        ChatContentView::Text(text)
    } else if texts_of(content).len() == 0 {
        ChatContentView::Multimodal(images_of(content))
    } else {
        ChatContentView::Multimodal(images_of(content).push(text_part(text)))
    }
}

/// A chat message that neither calls tools nor answers a call.
pub open spec fn plain_message(
    role: Seq<char>,
    content: ChatContentView,
    reasoning_content: Option<Seq<char>>,
) -> ChatMessageView {
    ChatMessageView { role, content, tool_calls: None, tool_call_id: None, reasoning_content }
}

/// A call of a function.
pub open spec fn function_call(
    id: Seq<char>,
    name: Seq<char>,
    arguments: Seq<char>,
) -> ChatToolCallView {
    ChatToolCallView { id, kind: "function"@, name, arguments }
}

/// A message of the assistant that says nothing and makes one call.
pub open spec fn calling_message(
    call: ChatToolCallView,
    reasoning_content: Option<Seq<char>>,
) -> ChatMessageView {
    ChatMessageView {
        role: "assistant"@,
        content: ChatContentView::Text(Seq::empty()),
        tool_calls: Some(seq![call]),
        tool_call_id: None,
        reasoning_content,
    }
}

/// The answer to a call.
pub open spec fn answer_message(
    call_id: Seq<char>,
    output: Option<Seq<char>>,
) -> ChatMessageView {
    ChatMessageView {
        role: "tool"@,
        content: ChatContentView::Text(
            match output {
                Some(text) => text,
                None => Seq::empty(),
            },
        ),
        tool_calls: None,
        tool_call_id: Some(call_id),
        reasoning_content: None,
    }
}

/// A conversation on its way to a chat: the messages so far, and the
/// reasoning that waits for a message of the assistant to go with.
#[verifier::ext_equal]
pub struct ConversationView {
    pub messages: Seq<ChatMessageView>,
    pub pending_reasoning: Option<Seq<char>>,
}

impl ConversationView {
    /// The conversation before its first item: the instructions, if any,
    /// are the system message.
    pub open spec fn start(instructions: Seq<char>) -> ConversationView {
        ConversationView {
            messages: if instructions.len() == 0 {
                Seq::empty()
            } else {
                seq![plain_message("system"@, ChatContentView::Text(instructions), None)]
            },
            pending_reasoning: None,
        }
    }

    /// Whether the last message is the assistant's.
    pub open spec fn assistant_is_last(self) -> bool {
        self.messages.len() > 0 && self.messages.last().role == "assistant"@
    }

    /// A call: it joins the last message where that is the assistant's, and
    /// otherwise makes a message of its own. The reasoning that waits goes
    /// with it.
    pub open spec fn after_call(self, call: ChatToolCallView) -> ConversationView {
        if self.assistant_is_last() {
            let last = self.messages.last();
            ConversationView {
                messages: self.messages.drop_last().push(
                    ChatMessageView {
                        tool_calls: Some(
                            match last.tool_calls {
                                Some(calls) => calls.push(call),
                                None => seq![call],
                            },
                        ),
                        reasoning_content: if self.pending_reasoning is Some {
                            self.pending_reasoning
                        } else {
                            last.reasoning_content
                        },
                        ..last
                    },
                ),
                pending_reasoning: None,
            }
        } else {
            ConversationView {
                messages: self.messages.push(calling_message(call, self.pending_reasoning)),
                pending_reasoning: None,
            }
        }
    }

    /// One item of the conversation. A message of the assistant takes the
    /// reasoning that waits; any other message leaves it waiting.
    pub open spec fn after_item(self, item: ResponseItemView) -> ConversationView {
        match item {
            ResponseItemView::Message { role, content, .. } => if role == "assistant"@ {
                ConversationView {
                    messages: self.messages.push(
                        plain_message(role, flattened(content), self.pending_reasoning),
                    ),
                    pending_reasoning: None,
                }
            } else {
                ConversationView {
                    messages: self.messages.push(plain_message(role, flattened(content), None)),
                    ..self
                }
            },
            ResponseItemView::FunctionCall { name, arguments, call_id, .. } => self.after_call(
                function_call(call_id, name, arguments),
            ),
            ResponseItemView::CustomToolCall { call_id, name, input } => self.after_call(
                function_call(call_id, name, input),
            ),
            ResponseItemView::FunctionCallOutput { call_id, output } => ConversationView {
                messages: self.messages.push(answer_message(call_id, output)),
                ..self
            },
            ResponseItemView::CustomToolCallOutput { call_id, output } => ConversationView {
                messages: self.messages.push(answer_message(call_id, output)),
                ..self
            },
            ResponseItemView::Reasoning { encrypted_content: Some(reasoning), .. } =>
                ConversationView { pending_reasoning: Some(reasoning), ..self },
            ResponseItemView::Reasoning { encrypted_content: None, .. } => self,
            ResponseItemView::Other => self,
        }
    }

    /// The items of the conversation, one after the other.
    pub open spec fn after_items(self, items: Seq<ResponseItemView>) -> ConversationView
        decreases items.len(),
    {
        if items.len() == 0 {
            self
        } else {
            self.after_items(items.drop_last()).after_item(items.last())
        }
    }
}

/// The text under `key` in a tool description, and nothing where there is
/// none.
pub open spec fn text_member(tool: Json, key: Seq<char>) -> Seq<char> {
    match tool.member(key) {
        Some(Json::Text(text)) => text,
        _ => Seq::empty(),
    }
}

/// A tool description of the Responses API, which is flat, as the Chat API
/// nests it.
pub open spec fn nested_tool(tool: Json) -> ChatToolView {
    ChatToolView {
        kind: "function"@,
        name: text_member(tool, "name"@),
        description: text_member(tool, "description"@),
        parameters: match tool.member("parameters"@) {
            Some(parameters) => parameters,
            None => Json::Null,
        },
    }
}

/// The messages of a chat that stands for the conversation of a request.
pub open spec fn chat_messages(
    instructions: Seq<char>,
    input: Seq<ResponseItemView>,
) -> Seq<ChatMessageView> {
    ConversationView::start(instructions).after_items(input).messages
}

/// The chat request that stands for a request.
pub open spec fn chat_request(request: ResponsesApiRequestView) -> ChatCompletionRequestView {
    ChatCompletionRequestView {
        model: request.model,
        messages: chat_messages(request.instructions, request.input),
        tools: match request.tools {
            Some(tools) => Some(tools.map_values(|tool: Json| nested_tool(tool))),
            None => None,
        },
        tool_choice: request.tool_choice,
        stream: true,
        stream_options: Some(StreamOptions { include_usage: true }),
        max_tokens: None,
        thinking: Some("enabled"@),
    }
}

/// The name of a level of detail.
fn detail_name(detail: ImageDetail) -> (name: String)
    ensures
        name@ == detail_text(detail),
{
    match detail {
        ImageDetail::Auto => "Auto".to_string(),
        ImageDetail::Low => "Low".to_string(),
        ImageDetail::High => "High".to_string(),
        ImageDetail::Original => "Original".to_string(),
    }
}

/// What a chat message says that stands for a message with these parts.
pub fn flatten_content(content: &[ContentItem]) -> (flat: ChatContent)
    ensures
        flat.deep_view() == flattened(content.deep_view()),
{
    let ghost items = content.deep_view();
    let mut texts: Vec<String> = Vec::new();
    let mut multimodal: Vec<ChatMultimodalPart> = Vec::new();
    let mut has_image = false;
    let mut i: usize = 0;
    assert(items.take(0) =~= Seq::empty());
    assert(texts.deep_view() =~= Seq::empty());
    assert(multimodal.deep_view() =~= Seq::empty());
    while i < content.len()
        invariant
            i <= content.len(),
            items == content.deep_view(),
            texts.deep_view() == texts_of(items.take(i as int)),
            multimodal.deep_view() == images_of(items.take(i as int)),
            has_image == (multimodal.len() > 0),
        decreases content.len() - i,
    {
        let ghost earlier_texts = texts.deep_view();
        let ghost earlier_images = multimodal.deep_view();
        let item = &content[i];
        assert(items.take(i + 1).drop_last() =~= items.take(i as int));
        assert(items.take(i + 1).last() == item.deep_view());
        match item {
            ContentItem::InputText { text } | ContentItem::OutputText { text } => {
                texts.push(text.clone());
                assert(texts.deep_view() =~= earlier_texts.push(text@));
            },
            ContentItem::InputImage { image_url, detail } => {
                has_image = true;
                let detail = match detail {
                    Some(detail) => Some(detail_name(*detail)),
                    None => None,
                };
                let part = ChatMultimodalPart {
                    kind: "image_url".to_string(),
                    text: None,
                    image_url: Some(ChatImageUrl { url: image_url.clone(), detail }),
                };
                multimodal.push(part);
                assert(multimodal.deep_view() =~= earlier_images.push(part.deep_view()));
            },
        }
        i += 1;
    }
    assert(items.take(i as int) =~= items);
    if has_image {
        if texts.len() > 0 {
            let ghost images = multimodal.deep_view();
            let part = ChatMultimodalPart {
                kind: "text".to_string(),
                text: Some(join(&texts, "\n")),
                image_url: None,
            };
            multimodal.push(part);
            assert(multimodal.deep_view() =~= images.push(part.deep_view()));
        }
        ChatContent::Multimodal(multimodal)
    } else {
        ChatContent::Text(join(&texts, "\n"))
    }
}

/// A conversation on its way to a chat.
struct Conversation {
    messages: Vec<ChatMessage>,
    pending_reasoning: Option<String>,
}

impl DeepView for Conversation {
    type V = ConversationView;

    closed spec fn deep_view(&self) -> ConversationView {
        ConversationView {
            messages: self.messages.deep_view(),
            pending_reasoning: self.pending_reasoning.deep_view(),
        }
    }
}

impl Conversation {
    /// The conversation before its first item.
    fn start(instructions: &String) -> (conversation: Conversation)
        ensures
            conversation.deep_view() == ConversationView::start(instructions@),
    {
        let mut conversation = Conversation { messages: Vec::new(), pending_reasoning: None };
        assert(conversation.messages.deep_view() =~= Seq::empty());
        if !instructions.as_str().is_empty() {
            conversation.push(
                ChatMessage {
                    role: "system".to_string(),
                    content: ChatContent::Text(instructions.clone()),
                    tool_calls: None,
                    tool_call_id: None,
                    reasoning_content: None,
                },
            );
        }
        assert(conversation.deep_view().messages =~= ConversationView::start(
            instructions@,
        ).messages);
        conversation
    }

    /// Puts `message` behind the others.
    fn push(&mut self, message: ChatMessage)
        ensures
            final(self).deep_view() == (ConversationView {
                messages: old(self).deep_view().messages.push(message.deep_view()),
                ..old(self).deep_view()
            }),
    {
        self.messages.push(message);
        assert(self.messages.deep_view() =~= old(self).deep_view().messages.push(
            message.deep_view(),
        ));
    }

    /// Takes in a call.
    fn add_call(&mut self, call_id: &String, name: &String, arguments: &String)
        ensures
            final(self).deep_view() == old(self).deep_view().after_call(
                function_call(call_id@, name@, arguments@),
            ),
    {
        let ghost before = self.deep_view();
        let call = ChatToolCall {
            id: call_id.clone(),
            kind: "function".to_string(),
            function: ChatToolCallFunction { name: name.clone(), arguments: arguments.clone() },
        };
        let ghost view = call.deep_view();
        let reasoning = self.pending_reasoning.take();
        if self.messages.len() > 0 && same_text(
            &self.messages[self.messages.len() - 1].role,
            "assistant",
        ) {
            if let Some(mut last) = self.messages.pop() {
                assert(last.deep_view() == before.messages.last());
                assert(self.messages.deep_view() =~= before.messages.drop_last());
                let mut calls: Vec<ChatToolCall> = match last.tool_calls.take() {
                    Some(calls) => calls,
                    None => Vec::new(),
                };
                let ghost earlier = calls.deep_view();
                assert(before.messages.last().tool_calls is None ==> earlier =~= Seq::empty());
                calls.push(call);
                assert(calls.deep_view() =~= earlier.push(view));
                last.tool_calls = Some(calls);
                if reasoning.is_some() {
                    last.reasoning_content = reasoning;
                }
                assert(before.messages.last().tool_calls is None ==> calls.deep_view() =~= seq![
                    view,
                ]);
                self.push(last);
            }
        } else {
            let calls = vec![call];
            assert(calls.deep_view() =~= seq![view]);
            self.push(
                ChatMessage {
                    role: "assistant".to_string(),
                    content: ChatContent::Text(String::new()),
                    tool_calls: Some(calls),
                    tool_call_id: None,
                    reasoning_content: reasoning,
                },
            );
        }
    }

    /// Takes in the answer to a call.
    fn add_answer(&mut self, call_id: &String, output: &Option<String>)
        ensures
            final(self).deep_view() == (ConversationView {
                messages: old(self).deep_view().messages.push(
                    answer_message(call_id@, output.deep_view()),
                ),
                ..old(self).deep_view()
            }),
    {
        self.push(
            ChatMessage {
                role: "tool".to_string(),
                content: ChatContent::Text(
                    match output {
                        Some(text) => text.clone(),
                        None => String::new(),
                    },
                ),
                tool_calls: None,
                tool_call_id: Some(call_id.clone()),
                reasoning_content: None,
            },
        );
    }

    /// Takes in one item.
    fn add_item(&mut self, item: &ResponseItem)
        ensures
            final(self).deep_view() == old(self).deep_view().after_item(item.deep_view()),
    {
        match item {
            ResponseItem::Message { role, content, .. } => {
                let reasoning_content = if same_text(role, "assistant") {
                    self.pending_reasoning.take()
                } else {
                    None
                };
                self.push(
                    ChatMessage {
                        role: role.clone(),
                        content: flatten_content(content.as_slice()),
                        tool_calls: None,
                        tool_call_id: None,
                        reasoning_content,
                    },
                );
            },
            ResponseItem::FunctionCall { name, arguments, call_id, .. } => {
                self.add_call(call_id, name, arguments);
            },
            ResponseItem::CustomToolCall { call_id, name, input } => {
                self.add_call(call_id, name, input);
            },
            ResponseItem::FunctionCallOutput { call_id, output }
            | ResponseItem::CustomToolCallOutput { call_id, output } => {
                self.add_answer(call_id, &output.text);
            },
            ResponseItem::Reasoning { encrypted_content, .. } => {
                if let Some(reasoning) = encrypted_content {
                    self.pending_reasoning = Some(reasoning.clone());
                }
            },
            ResponseItem::Other => {},
        }
    }
}

/// The text under `key` in a tool description.
fn text_under(tool: &Value, key: &str) -> (text: String)
    ensures
        text@ == text_member(json_value(*tool), key@),
{
    match json::member(tool, key) {
        Some(member) => match json::text(member) {
            Some(text) => text.to_string(),
            None => String::new(),
        },
        None => String::new(),
    }
}

/// A tool description of the Responses API as the Chat API nests it.
fn nest_tool(tool: &Value) -> (nested: ChatTool)
    ensures
        nested.deep_view() == nested_tool(json_value(*tool)),
{
    let parameters = match json::member(tool, "parameters") {
        Some(parameters) => json::copy(parameters),
        None => json::null(),
    };
    ChatTool {
        kind: "function".to_string(),
        function: ChatToolFunction {
            name: text_under(tool, "name"),
            description: text_under(tool, "description"),
            parameters,
        },
    }
}

/// Tool descriptions of the Responses API as the Chat API nests them.
fn nest_tools(tools: &Vec<Value>) -> (nested: Vec<ChatTool>)
    ensures
        nested.deep_view() == tools@.map_values(|tool: Value| json_value(tool)).map_values(
            |tool: Json| nested_tool(tool),
        ),
{
    let ghost wanted = tools@.map_values(|tool: Value| json_value(tool)).map_values(
        |tool: Json| nested_tool(tool),
    );
    let mut nested: Vec<ChatTool> = Vec::new();
    let mut i: usize = 0;
    assert(nested.deep_view() =~= wanted.take(0));
    while i < tools.len()
        invariant
            i <= tools.len(),
            wanted == tools@.map_values(|tool: Value| json_value(tool)).map_values(
                |tool: Json| nested_tool(tool),
            ),
            nested.deep_view() == wanted.take(i as int),
        decreases tools.len() - i,
    {
        let ghost earlier = nested.deep_view();
        let tool = nest_tool(&tools[i]);
        assert(tool.deep_view() == wanted[i as int]);
        nested.push(tool);
        assert(nested.deep_view() =~= earlier.push(tool.deep_view()));
        assert(wanted.take(i + 1) =~= wanted.take(i as int).push(wanted[i as int]));
        i += 1;
    }
    assert(wanted.take(i as int) =~= wanted);
    nested
}

/// Rewrites a request for the Responses API as one for the Chat Completions
/// API.
pub fn from_responses_request(req: &ResponsesApiRequest) -> (chat: ChatCompletionRequest)
    ensures
        chat.deep_view() == chat_request(req.deep_view()),
{
    let mut conversation = Conversation::start(&req.instructions);
    let ghost start = conversation.deep_view();
    let ghost items = req.input.deep_view();
    let mut i: usize = 0;
    assert(items.take(0) =~= Seq::empty());
    while i < req.input.len()
        invariant
            i <= req.input.len(),
            items == req.input.deep_view(),
            conversation.deep_view() == start.after_items(items.take(i as int)),
        decreases req.input.len() - i,
    {
        assert(items.take(i + 1).drop_last() =~= items.take(i as int));
        assert(items.take(i + 1).last() == req.input[i as int].deep_view());
        conversation.add_item(&req.input[i]);
        i += 1;
    }
    assert(items.take(i as int) =~= items);
    let tools = match &req.tools {
        Some(tools) => Some(nest_tools(tools)),
        None => None,
    };
    ChatCompletionRequest {
        model: req.model.clone(),
        messages: conversation.messages,
        tools,
        tool_choice: req.tool_choice.clone(),
        stream: true,
        stream_options: Some(StreamOptions { include_usage: true }),
        max_tokens: None,
        thinking: Some(Thinking { kind: "enabled".to_string() }),
    }
}

} // verus!
