//! The Chat side of a request.
use crate::json::{json_value, Json};
use serde_json::Value;
use vstd::prelude::*;

verus! {

/// A request for the next turn, as the Chat Completions API takes it.
#[derive(Debug, PartialEq)]
pub struct ChatCompletionRequest {
    pub model: String,
    pub messages: Vec<ChatMessage>,
    pub tools: Option<Vec<ChatTool>>,
    pub tool_choice: String,
    pub stream: bool,
    pub stream_options: Option<StreamOptions>,
    pub max_tokens: Option<u32>,
    pub thinking: Option<Thinking>,
}

/// Whether the model is to think before it answers.
#[derive(Debug, PartialEq)]
pub struct Thinking {
    pub kind: String,
}

/// What a streamed reply is to report.
#[derive(Debug, Clone, Copy, PartialEq)]
pub struct StreamOptions {
    pub include_usage: bool,
}

/// One message of a chat.
#[derive(Debug, PartialEq)]
pub struct ChatMessage {
    pub role: String,
    pub content: ChatContent,
    pub tool_calls: Option<Vec<ChatToolCall>>,
    pub tool_call_id: Option<String>,
    pub reasoning_content: Option<String>,
}

/// What a message says.
#[derive(Debug, PartialEq)]
pub enum ChatContent {
    Text(String),
    Multimodal(Vec<ChatMultimodalPart>),
}

/// One part of a message that holds images.
#[derive(Debug, PartialEq)]
pub struct ChatMultimodalPart {
    pub kind: String,
    pub text: Option<String>,
    pub image_url: Option<ChatImageUrl>,
}

/// Where an image is, and how closely to look at it.
#[derive(Debug, PartialEq)]
pub struct ChatImageUrl {
    pub url: String,
    pub detail: Option<String>,
}

/// A tool that the model may call.
#[derive(Debug, PartialEq)]
pub struct ChatTool {
    pub kind: String,
    pub function: ChatToolFunction,
}

/// A function that the model may call.
#[derive(Debug, PartialEq)]
pub struct ChatToolFunction {
    pub name: String,
    pub description: String,
    pub parameters: Value,
}

/// A call that the model made.
#[derive(Debug, PartialEq)]
pub struct ChatToolCall {
    pub id: String,
    pub kind: String,
    pub function: ChatToolCallFunction,
}

/// The function that a call names, and its arguments.
#[derive(Debug, PartialEq)]
pub struct ChatToolCallFunction {
    pub name: String,
    pub arguments: String,
}

/// A [`ChatCompletionRequest`] as a mathematical value.
#[verifier::ext_equal]
pub struct ChatCompletionRequestView {
    pub model: Seq<char>,
    pub messages: Seq<ChatMessageView>,
    pub tools: Option<Seq<ChatToolView>>,
    pub tool_choice: Seq<char>,
    pub stream: bool,
    pub stream_options: Option<StreamOptions>,
    pub max_tokens: Option<u32>,
    pub thinking: Option<Seq<char>>,
}

/// A [`ChatMessage`] as a mathematical value.
#[verifier::ext_equal]
pub struct ChatMessageView {
    pub role: Seq<char>,
    pub content: ChatContentView,
    pub tool_calls: Option<Seq<ChatToolCallView>>,
    pub tool_call_id: Option<Seq<char>>,
    pub reasoning_content: Option<Seq<char>>,
}

/// A [`ChatContent`] as a mathematical value.
#[verifier::ext_equal]
pub enum ChatContentView {
    Text(Seq<char>),
    Multimodal(Seq<ChatMultimodalPartView>),
}

/// A [`ChatMultimodalPart`] as a mathematical value.
#[verifier::ext_equal]
pub struct ChatMultimodalPartView {
    pub kind: Seq<char>,
    pub text: Option<Seq<char>>,
    pub image_url: Option<ChatImageUrlView>,
}

/// A [`ChatImageUrl`] as a mathematical value.
#[verifier::ext_equal]
pub struct ChatImageUrlView {
    pub url: Seq<char>,
    pub detail: Option<Seq<char>>,
}

/// A [`ChatTool`] as a mathematical value.
#[verifier::ext_equal]
pub struct ChatToolView {
    pub kind: Seq<char>,
    pub name: Seq<char>,
    pub description: Seq<char>,
    pub parameters: Json,
}

/// A [`ChatToolCall`] as a mathematical value.
#[verifier::ext_equal]
pub struct ChatToolCallView {
    pub id: Seq<char>,
    pub kind: Seq<char>,
    pub name: Seq<char>,
    pub arguments: Seq<char>,
}

impl DeepView for ChatCompletionRequest {
    type V = ChatCompletionRequestView;

    open spec fn deep_view(&self) -> ChatCompletionRequestView {
        ChatCompletionRequestView {
            model: self.model@,
            messages: self.messages.deep_view(),
            tools: self.tools.deep_view(),
            tool_choice: self.tool_choice@,
            stream: self.stream,
            stream_options: self.stream_options,
            max_tokens: self.max_tokens,
            thinking: match self.thinking {
                Some(thinking) => Some(thinking.kind@),
                None => None,
            },
        }
    }
}

impl DeepView for ChatMessage {
    type V = ChatMessageView;

    open spec fn deep_view(&self) -> ChatMessageView {
        ChatMessageView {
            role: self.role@,
            content: self.content.deep_view(),
            tool_calls: self.tool_calls.deep_view(),
            tool_call_id: self.tool_call_id.deep_view(),
            reasoning_content: self.reasoning_content.deep_view(),
        }
    }
}

impl DeepView for ChatContent {
    type V = ChatContentView;

    open spec fn deep_view(&self) -> ChatContentView {
        match *self {
            ChatContent::Text(text) => ChatContentView::Text(text@),
            ChatContent::Multimodal(parts) => ChatContentView::Multimodal(parts.deep_view()),
        }
    }
}

impl DeepView for ChatMultimodalPart {
    type V = ChatMultimodalPartView;

    open spec fn deep_view(&self) -> ChatMultimodalPartView {
        ChatMultimodalPartView {
            kind: self.kind@,
            text: self.text.deep_view(),
            image_url: self.image_url.deep_view(),
        }
    }
}

impl DeepView for ChatImageUrl {
    type V = ChatImageUrlView;

    open spec fn deep_view(&self) -> ChatImageUrlView {
        ChatImageUrlView { url: self.url@, detail: self.detail.deep_view() }
    }
}

impl DeepView for ChatTool {
    type V = ChatToolView;

    open spec fn deep_view(&self) -> ChatToolView {
        ChatToolView {
            kind: self.kind@,
            name: self.function.name@,
            description: self.function.description@,
            parameters: json_value(self.function.parameters),
        }
    }
}

impl DeepView for ChatToolCall {
    type V = ChatToolCallView;

    open spec fn deep_view(&self) -> ChatToolCallView {
        ChatToolCallView {
            id: self.id@,
            kind: self.kind@,
            name: self.function.name@,
            arguments: self.function.arguments@,
        }
    }
}

} // verus!
