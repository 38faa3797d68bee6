//! The Chat side of a streamed reply: the chunks that the server sends, and
//! the error object that it may send in place of one.
use vstd::prelude::*;

verus! {

/// One chunk of a streamed reply.
#[derive(Debug, PartialEq)]
pub struct ChatStreamChunk {
    pub choices: Vec<ChatChoice>,
    pub usage: Option<ChatUsage>,
    pub id: Option<String>,
    pub model: Option<String>,
}

/// What a chunk adds to one choice, and whether it ends it.
#[derive(Debug, PartialEq)]
pub struct ChatChoice {
    pub delta: ChatDelta,
    pub finish_reason: Option<String>,
    pub index: Option<usize>,
}

/// What a chunk adds to a choice.
#[derive(Debug, PartialEq)]
pub struct ChatDelta {
    pub role: Option<String>,
    pub content: Option<String>,
    pub tool_calls: Option<Vec<ChatDeltaToolCall>>,
    pub reasoning_content: Option<String>,
}

/// What a chunk adds to the tool call at `index`.
#[derive(Debug, PartialEq)]
pub struct ChatDeltaToolCall {
    pub index: usize,
    pub id: Option<String>,
    pub function: Option<ChatDeltaFn>,
}

/// The name of a called function, and a fragment of its arguments.
#[derive(Debug, PartialEq)]
pub struct ChatDeltaFn {
    pub name: Option<String>,
    pub arguments: Option<String>,
}

/// The tokens that a reply used, as the Chat API counts them.
#[derive(Debug, Clone, Copy, PartialEq, Eq)]
pub struct ChatUsage {
    pub prompt_tokens: i64,
    pub completion_tokens: i64,
    pub total_tokens: i64,
}

/// An object that may carry an error.
#[derive(Debug, PartialEq)]
pub struct ChatApiError {
    pub error: Option<ChatApiErrorDetail>,
}

/// The error that the server reports.
#[derive(Debug, PartialEq)]
pub struct ChatApiErrorDetail {
    pub code: Option<String>,
    pub message: Option<String>,
    pub error_type: Option<String>,
}

/// A [`ChatStreamChunk`] as a mathematical value.
#[verifier::ext_equal]
pub struct ChatStreamChunkView {
    pub choices: Seq<ChatChoiceView>,
    pub usage: Option<ChatUsage>,
    pub id: Option<Seq<char>>,
    pub model: Option<Seq<char>>,
}

/// A [`ChatChoice`] as a mathematical value.
#[verifier::ext_equal]
pub struct ChatChoiceView {
    pub delta: ChatDeltaView,
    pub finish_reason: Option<Seq<char>>,
    pub index: Option<usize>,
}

/// A [`ChatDelta`] as a mathematical value.
#[verifier::ext_equal]
pub struct ChatDeltaView {
    pub role: Option<Seq<char>>,
    pub content: Option<Seq<char>>,
    pub tool_calls: Option<Seq<ChatDeltaToolCallView>>,
    pub reasoning_content: Option<Seq<char>>,
}

/// A [`ChatDeltaToolCall`] as a mathematical value.
#[verifier::ext_equal]
pub struct ChatDeltaToolCallView {
    pub index: usize,
    pub id: Option<Seq<char>>,
    pub function: Option<ChatDeltaFnView>,
}

/// A [`ChatDeltaFn`] as a mathematical value.
#[verifier::ext_equal]
pub struct ChatDeltaFnView {
    pub name: Option<Seq<char>>,
    pub arguments: Option<Seq<char>>,
}

/// A [`ChatApiError`] as a mathematical value.
#[verifier::ext_equal]
pub struct ChatApiErrorView {
    pub error: Option<ChatApiErrorDetailView>,
}

/// A [`ChatApiErrorDetail`] as a mathematical value.
#[verifier::ext_equal]
pub struct ChatApiErrorDetailView {
    pub code: Option<Seq<char>>,
    pub message: Option<Seq<char>>,
    pub error_type: Option<Seq<char>>,
}

impl ChatDeltaView {
    /// The tool calls that the delta adds to.
    pub open spec fn calls(self) -> Seq<ChatDeltaToolCallView> {
        match self.tool_calls {
            Some(calls) => calls,
            None => Seq::empty(),
        }
    }

    /// The text that the delta adds.
    pub open spec fn text(self) -> Seq<char> {
        match self.content {
            Some(text) => text,
            None => Seq::empty(),
        }
    }

    /// The reasoning that the delta adds.
    pub open spec fn reasoning(self) -> Seq<char> {
        match self.reasoning_content {
            Some(text) => text,
            None => Seq::empty(),
        }
    }
}

impl ChatDeltaToolCallView {
    /// The fragment of the arguments that the delta adds.
    pub open spec fn fragment(self) -> Seq<char> {
        match self.function {
            Some(ChatDeltaFnView { arguments: Some(fragment), .. }) => fragment,
            _ => Seq::empty(),
        }
    }

    /// The function name that the delta gives.
    pub open spec fn name(self) -> Option<Seq<char>> {
        match self.function {
            Some(function) => function.name,
            None => None,
        }
    }
}

impl ChatStreamChunkView {
    /// Whether a list of tool calls can reach every index that the chunk
    /// names: one more than the index is a length.
    pub open spec fn indexable(self) -> bool {
        forall|i: int, j: int|
            #![trigger self.choices[i].delta.calls()[j]]
            0 <= i < self.choices.len() && 0 <= j < self.choices[i].delta.calls().len()
                ==> self.choices[i].delta.calls()[j].index < usize::MAX
    }
}

impl DeepView for ChatStreamChunk {
    type V = ChatStreamChunkView;

    open spec fn deep_view(&self) -> ChatStreamChunkView {
        ChatStreamChunkView {
            choices: self.choices.deep_view(),
            usage: self.usage,
            id: self.id.deep_view(),
            model: self.model.deep_view(),
        }
    }
}

impl DeepView for ChatChoice {
    type V = ChatChoiceView;

    open spec fn deep_view(&self) -> ChatChoiceView {
        ChatChoiceView {
            delta: self.delta.deep_view(),
            finish_reason: self.finish_reason.deep_view(),
            index: self.index,
        }
    }
}

impl DeepView for ChatDelta {
    type V = ChatDeltaView;

    open spec fn deep_view(&self) -> ChatDeltaView {
        ChatDeltaView {
            role: self.role.deep_view(),
            content: self.content.deep_view(),
            tool_calls: self.tool_calls.deep_view(),
            reasoning_content: self.reasoning_content.deep_view(),
        }
    }
}

impl DeepView for ChatDeltaToolCall {
    type V = ChatDeltaToolCallView;

    open spec fn deep_view(&self) -> ChatDeltaToolCallView {
        ChatDeltaToolCallView {
            index: self.index,
            id: self.id.deep_view(),
            function: self.function.deep_view(),
        }
    }
}

impl DeepView for ChatDeltaFn {
    type V = ChatDeltaFnView;

    open spec fn deep_view(&self) -> ChatDeltaFnView {
        ChatDeltaFnView { name: self.name.deep_view(), arguments: self.arguments.deep_view() }
    }
}

impl DeepView for ChatApiError {
    type V = ChatApiErrorView;

    open spec fn deep_view(&self) -> ChatApiErrorView {
        ChatApiErrorView { error: self.error.deep_view() }
    }
}

impl DeepView for ChatApiErrorDetail {
    type V = ChatApiErrorDetailView;

    open spec fn deep_view(&self) -> ChatApiErrorDetailView {
        ChatApiErrorDetailView {
            code: self.code.deep_view(),
            message: self.message.deep_view(),
            error_type: self.error_type.deep_view(),
        }
    }
}

} // verus!
