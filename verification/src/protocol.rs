//! The Responses side: the items of a conversation, the request that asks
//! for the next turn, and the events that report it.
use crate::json::{json_value, Json};
use serde_json::Value;
use vstd::prelude::*;

verus! {

/// How closely the model is to look at an image.
#[derive(Debug, Clone, Copy, PartialEq, Eq)]
pub enum ImageDetail {
    Auto,
    Low,
    High,
    Original,
}

/// One part of a message.
#[derive(Debug, PartialEq)]
pub enum ContentItem {
    InputText { text: String },
    InputImage { image_url: String, detail: Option<ImageDetail> },
    OutputText { text: String },
}

/// A [`ContentItem`] as a mathematical value.
#[verifier::ext_equal]
pub enum ContentItemView {
    InputText { text: Seq<char> },
    InputImage { image_url: Seq<char>, detail: Option<ImageDetail> },
    OutputText { text: Seq<char> },
}

/// Whether a message is on the way to the answer or is the answer.
#[derive(Debug, Clone, Copy, PartialEq, Eq)]
pub enum MessagePhase {
    Commentary,
    FinalAnswer,
}

/// What a tool gave back: its text, where it has one.
#[derive(Debug, PartialEq)]
pub struct FunctionCallOutputPayload {
    pub text: Option<String>,
}

/// One item of a conversation.
#[derive(Debug, PartialEq)]
#[allow(inconsistent_fields)]
pub enum ResponseItem {
    Message {
        id: Option<String>,
        role: String,
        content: Vec<ContentItem>,
        phase: Option<MessagePhase>,
        internal_chat_message_metadata_passthrough: Option<Value>,
    },
    Reasoning {
        id: Option<String>,
        summary: Vec<String>,
        content: Option<Vec<String>>,
        encrypted_content: Option<String>,
        internal_chat_message_metadata_passthrough: Option<Value>,
    },
    FunctionCall {
        id: Option<String>,
        name: String,
        namespace: Option<String>,
        arguments: String,
        call_id: String,
        internal_chat_message_metadata_passthrough: Option<Value>,
    },
    CustomToolCall { call_id: String, name: String, input: String },
    FunctionCallOutput { call_id: String, output: FunctionCallOutputPayload },
    CustomToolCallOutput { call_id: String, output: FunctionCallOutputPayload },
    /// Every kind of item that has no counterpart in a chat: shell calls,
    /// web searches, compactions and the like.
    Other,
}

/// A [`ResponseItem`] as a mathematical value.
#[verifier::ext_equal]
#[allow(inconsistent_fields)]
pub enum ResponseItemView {
    Message {
        id: Option<Seq<char>>,
        role: Seq<char>,
        content: Seq<ContentItemView>,
        phase: Option<MessagePhase>,
        internal_chat_message_metadata_passthrough: Option<Json>,
    },
    Reasoning {
        id: Option<Seq<char>>,
        summary: Seq<Seq<char>>,
        content: Option<Seq<Seq<char>>>,
        encrypted_content: Option<Seq<char>>,
        internal_chat_message_metadata_passthrough: Option<Json>,
    },
    FunctionCall {
        id: Option<Seq<char>>,
        name: Seq<char>,
        namespace: Option<Seq<char>>,
        arguments: Seq<char>,
        call_id: Seq<char>,
        internal_chat_message_metadata_passthrough: Option<Json>,
    },
    CustomToolCall { call_id: Seq<char>, name: Seq<char>, input: Seq<char> },
    FunctionCallOutput { call_id: Seq<char>, output: Option<Seq<char>> },
    CustomToolCallOutput { call_id: Seq<char>, output: Option<Seq<char>> },
    Other,
}

/// A request for the next turn, as the Responses API takes it.
#[derive(Debug, PartialEq)]
pub struct ResponsesApiRequest {
    pub model: String,
    pub instructions: String,
    pub input: Vec<ResponseItem>,
    pub tools: Option<Vec<Value>>,
    pub tool_choice: String,
}

/// A [`ResponsesApiRequest`] as a mathematical value.
#[verifier::ext_equal]
pub struct ResponsesApiRequestView {
    pub model: Seq<char>,
    pub instructions: Seq<char>,
    pub input: Seq<ResponseItemView>,
    pub tools: Option<Seq<Json>>,
    pub tool_choice: Seq<char>,
}

/// The tokens that a turn used.
#[derive(Debug, Clone, Copy, PartialEq, Eq)]
pub struct TokenUsage {
    pub input_tokens: i64,
    pub cached_input_tokens: i64,
    pub output_tokens: i64,
    pub reasoning_output_tokens: i64,
    pub total_tokens: i64,
}

/// What a streamed turn reports.
#[derive(Debug, PartialEq)]
pub enum ResponseEvent {
    Created,
    OutputItemDone(ResponseItem),
    OutputTextDelta(String),
    ToolCallInputDelta { item_id: String, call_id: Option<String>, delta: String },
    ReasoningSummaryDelta { delta: String, summary_index: i64 },
    Completed { response_id: String, token_usage: Option<TokenUsage>, end_turn: Option<bool> },
}

/// A [`ResponseEvent`] as a mathematical value.
#[verifier::ext_equal]
pub enum ResponseEventView {
    Created,
    OutputItemDone(ResponseItemView),
    OutputTextDelta(Seq<char>),
    ToolCallInputDelta { item_id: Seq<char>, call_id: Option<Seq<char>>, delta: Seq<char> },
    ReasoningSummaryDelta { delta: Seq<char>, summary_index: i64 },
    Completed { response_id: Seq<char>, token_usage: Option<TokenUsage>, end_turn: Option<bool> },
}

/// The tree of an optional JSON value.
pub open spec fn optional_json(value: Option<Value>) -> Option<Json> {
    match value {
        Some(value) => Some(json_value(value)),
        None => None,
    }
}

impl DeepView for ContentItem {
    type V = ContentItemView;

    open spec fn deep_view(&self) -> ContentItemView {
        match *self {
            ContentItem::InputText { text } => ContentItemView::InputText { text: text@ },
            ContentItem::InputImage { image_url, detail } => ContentItemView::InputImage {
                image_url: image_url@,
                detail,
            },
            ContentItem::OutputText { text } => ContentItemView::OutputText { text: text@ },
        }
    }
}

impl DeepView for FunctionCallOutputPayload {
    type V = Option<Seq<char>>;

    open spec fn deep_view(&self) -> Option<Seq<char>> {
        self.text.deep_view()
    }
}

impl DeepView for ResponseItem {
    type V = ResponseItemView;

    open spec fn deep_view(&self) -> ResponseItemView {
        match *self {
            ResponseItem::Message {
                id,
                role,
                content,
                phase,
                internal_chat_message_metadata_passthrough,
            } => ResponseItemView::Message {
                id: id.deep_view(),
                role: role@,
                content: content.deep_view(),
                phase,
                internal_chat_message_metadata_passthrough: optional_json(
                    internal_chat_message_metadata_passthrough,
                ),
            },
            ResponseItem::Reasoning {
                id,
                summary,
                content,
                encrypted_content,
                internal_chat_message_metadata_passthrough,
            } => ResponseItemView::Reasoning {
                id: id.deep_view(),
                summary: summary.deep_view(),
                content: content.deep_view(),
                encrypted_content: encrypted_content.deep_view(),
                internal_chat_message_metadata_passthrough: optional_json(
                    internal_chat_message_metadata_passthrough,
                ),
            },
            ResponseItem::FunctionCall {
                id,
                name,
                namespace,
                arguments,
                call_id,
                internal_chat_message_metadata_passthrough,
            } => ResponseItemView::FunctionCall {
                id: id.deep_view(),
                name: name@,
                namespace: namespace.deep_view(),
                arguments: arguments@,
                call_id: call_id@,
                internal_chat_message_metadata_passthrough: optional_json(
                    internal_chat_message_metadata_passthrough,
                ),
            },
            ResponseItem::CustomToolCall { call_id, name, input } =>
                ResponseItemView::CustomToolCall {
                call_id: call_id@,
                name: name@,
                input: input@,
            },
            ResponseItem::FunctionCallOutput { call_id, output } =>
                ResponseItemView::FunctionCallOutput {
                call_id: call_id@,
                output: output.deep_view(),
            },
            ResponseItem::CustomToolCallOutput { call_id, output } =>
                ResponseItemView::CustomToolCallOutput {
                call_id: call_id@,
                output: output.deep_view(),
            },
            ResponseItem::Other => ResponseItemView::Other,
        }
    }
}

impl DeepView for ResponsesApiRequest {
    type V = ResponsesApiRequestView;

    open spec fn deep_view(&self) -> ResponsesApiRequestView {
        ResponsesApiRequestView {
            model: self.model@,
            instructions: self.instructions@,
            input: self.input.deep_view(),
            tools: match self.tools {
                Some(tools) => Some(tools@.map_values(|tool: Value| json_value(tool))),
                None => None,
            },
            tool_choice: self.tool_choice@,
        }
    }
}

impl DeepView for ResponseEvent {
    type V = ResponseEventView;

    open spec fn deep_view(&self) -> ResponseEventView {
        match *self {
            ResponseEvent::Created => ResponseEventView::Created,
            ResponseEvent::OutputItemDone(item) => ResponseEventView::OutputItemDone(
                item.deep_view(),
            ),
            ResponseEvent::OutputTextDelta(delta) => ResponseEventView::OutputTextDelta(delta@),
            ResponseEvent::ToolCallInputDelta { item_id, call_id, delta } =>
                ResponseEventView::ToolCallInputDelta {
                item_id: item_id@,
                call_id: call_id.deep_view(),
                delta: delta@,
            },
            ResponseEvent::ReasoningSummaryDelta { delta, summary_index } =>
                ResponseEventView::ReasoningSummaryDelta { delta: delta@, summary_index },
            ResponseEvent::Completed { response_id, token_usage, end_turn } =>
                ResponseEventView::Completed { response_id: response_id@, token_usage, end_turn },
        }
    }
}

} // verus!
