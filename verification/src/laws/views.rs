//! The mathematical values stand for the data, field by field: nothing that a
//! value holds is left out of its view, and nothing is changed.
use crate::chunk::{ChatApiError, ChatChoice, ChatDeltaToolCall, ChatStreamChunk};
use crate::error::{ApiError, ApiErrorView, TransportError, TransportErrorView};
use crate::headers::header_entries;
use crate::json::{json_value, Json};
use crate::protocol::{
    ContentItem, ContentItemView, ResponseEvent, ResponseEventView, ResponseItem,
    ResponseItemView, ResponsesApiRequest,
};
use crate::request::{
    ChatCompletionRequest, ChatContent, ChatContentView, ChatMessage, ChatMultimodalPart,
    ChatTool, ChatToolCall,
};
use crate::session::{send_view, SendView, SessionStep, SsePoll, SsePollView};
use serde_json::Value;
use vstd::prelude::*;

verus! {

/// Whether a view shows this optional string.
pub open spec fn shows_text(view: Option<Seq<char>>, text: Option<String>) -> bool {
    match text {
        Some(text) => view == Some(text@),
        None => view is None,
    }
}

/// Whether a view shows this optional JSON value.
pub open spec fn shows_json(view: Option<Json>, value: Option<Value>) -> bool {
    match value {
        Some(value) => view == Some(json_value(value)),
        None => view is None,
    }
}

/// A chunk is seen whole, choice by choice.
pub proof fn law_a_chunk_is_seen_whole(chunk: ChatStreamChunk)
    ensures
        chunk.deep_view().choices.len() == chunk.choices.len(),
        forall|i: int|
            0 <= i < chunk.choices.len() ==> #[trigger] chunk.deep_view().choices[i]
                == chunk.choices[i].deep_view(),
        chunk.deep_view().usage == chunk.usage,
        shows_text(chunk.deep_view().id, chunk.id),
        shows_text(chunk.deep_view().model, chunk.model),
{
}

/// A choice is seen whole, piece by piece.
pub proof fn law_a_choice_is_seen_whole(choice: ChatChoice)
    ensures
        shows_text(choice.deep_view().finish_reason, choice.finish_reason),
        choice.deep_view().index == choice.index,
        shows_text(choice.deep_view().delta.role, choice.delta.role),
        shows_text(choice.deep_view().delta.content, choice.delta.content),
        shows_text(choice.deep_view().delta.reasoning_content, choice.delta.reasoning_content),
        choice.deep_view().delta.tool_calls is Some <==> choice.delta.tool_calls is Some,
        choice.delta.tool_calls is Some ==> {
            let pieces = choice.delta.tool_calls->0;
            let views = choice.deep_view().delta.tool_calls->0;
            &&& views.len() == pieces.len()
            &&& forall|i: int|
                0 <= i < pieces.len() ==> #[trigger] views[i] == pieces[i].deep_view()
        },
{
}

/// A tool-call piece is seen whole.
pub proof fn law_a_piece_is_seen_whole(piece: ChatDeltaToolCall)
    ensures
        piece.deep_view().index == piece.index,
        shows_text(piece.deep_view().id, piece.id),
        piece.deep_view().function is Some <==> piece.function is Some,
        piece.function is Some ==> {
            &&& shows_text(piece.deep_view().function->0.name, piece.function->0.name)
            &&& shows_text(piece.deep_view().function->0.arguments, piece.function->0.arguments)
        },
{
}

/// An error object is seen whole.
pub proof fn law_an_error_object_is_seen_whole(object: ChatApiError)
    ensures
        object.deep_view().error is Some <==> object.error is Some,
        object.error is Some ==> {
            let detail = object.error->0;
            let view = object.deep_view().error->0;
            &&& shows_text(view.code, detail.code)
            &&& shows_text(view.message, detail.message)
            &&& shows_text(view.error_type, detail.error_type)
        },
{
}

/// What a poll brought is seen whole.
pub proof fn law_a_poll_is_seen_whole(poll: SsePoll)
    ensures
        match poll {
            SsePoll::Event { data, error, chunk } => {
                &&& poll.deep_view() is Event
                &&& poll.deep_view()->data == data@
                &&& poll.deep_view()->error == match error {
                    Some(error) => Some(error.deep_view()),
                    None => None,
                }
                &&& poll.deep_view()->chunk == match chunk {
                    Some(chunk) => Some(chunk.deep_view()),
                    None => None,
                }
            },
            SsePoll::Failed(message) => poll.deep_view() == SsePollView::Failed(message@),
            SsePoll::Closed => poll.deep_view() is Closed,
            SsePoll::TimedOut => poll.deep_view() is TimedOut,
        },
{
}

/// What a step asks for is seen whole, send by send.
pub proof fn law_a_step_is_seen_whole(step: SessionStep)
    ensures
        step.deep_view().done == step.done,
        step.deep_view().sends.len() == step.sends.len(),
        forall|i: int|
            0 <= i < step.sends.len() ==> (#[trigger] step.deep_view().sends[i]) == match (
            step.sends[i]) {
                Ok(event) => SendView::Ok(event.deep_view()),
                Err(error) => SendView::Err(error.deep_view()),
            },
{
    assert forall|i: int| 0 <= i < step.sends.len() implies (#[trigger] step.deep_view().sends[i])
        == match (step.sends[i]) {
        Ok(event) => SendView::Ok(event.deep_view()),
        Err(error) => SendView::Err(error.deep_view()),
    } by {
        assert(step.deep_view().sends[i] == send_view(step.sends[i]));
    }
}

/// An error is seen whole.
pub proof fn law_an_error_is_seen_whole(error: ApiError)
    ensures
        match error {
            ApiError::Transport(TransportError::Http { status, url, headers, body }) => {
                &&& error.deep_view() matches ApiErrorView::Transport(view)
                &&& view matches TransportErrorView::Http {
                    status: seen,
                    url: place,
                    headers: entries,
                    body: text,
                }
                &&& seen == status
                &&& shows_text(place, url)
                &&& shows_text(text, body)
                &&& entries == match headers {
                    Some(headers) => Some(header_entries(headers)),
                    None => None,
                }
            },
            ApiError::Stream(message) => error.deep_view() == ApiErrorView::Stream(message@),
            ApiError::ContextWindowExceeded => error.deep_view() is ContextWindowExceeded,
            ApiError::QuotaExceeded => error.deep_view() is QuotaExceeded,
            ApiError::Retryable { message, delay } => error.deep_view() == (
            ApiErrorView::Retryable { message: message@, delay }),
            ApiError::ServerOverloaded => error.deep_view() is ServerOverloaded,
        },
{
}

/// An event is seen whole.
pub proof fn law_an_event_is_seen_whole(event: ResponseEvent)
    ensures
        match event {
            ResponseEvent::Created => event.deep_view() is Created,
            ResponseEvent::OutputItemDone(item) => event.deep_view()
                == ResponseEventView::OutputItemDone(item.deep_view()),
            ResponseEvent::OutputTextDelta(text) => event.deep_view()
                == ResponseEventView::OutputTextDelta(text@),
            ResponseEvent::ToolCallInputDelta { item_id, call_id, delta } => {
                &&& event.deep_view() matches ResponseEventView::ToolCallInputDelta {
                    item_id: item,
                    call_id: call,
                    delta: fragment,
                }
                &&& item == item_id@
                &&& shows_text(call, call_id)
                &&& fragment == delta@
            },
            ResponseEvent::ReasoningSummaryDelta { delta, summary_index } => event.deep_view() == (
            ResponseEventView::ReasoningSummaryDelta { delta: delta@, summary_index }),
            ResponseEvent::Completed { response_id, token_usage, end_turn } => event.deep_view()
                == (ResponseEventView::Completed {
                response_id: response_id@,
                token_usage,
                end_turn,
            }),
        },
{
}

/// An item is seen whole, as far as its kind goes into a chat.
pub proof fn law_an_item_is_seen_whole(item: ResponseItem)
    ensures
        match item {
            ResponseItem::Message {
                id,
                role,
                content,
                phase,
                internal_chat_message_metadata_passthrough: metadata,
            } => {
                &&& item.deep_view() matches ResponseItemView::Message {
                    id: seen_id,
                    role: seen_role,
                    content: seen_content,
                    phase: seen_phase,
                    internal_chat_message_metadata_passthrough: seen_metadata,
                }
                &&& shows_text(seen_id, id)
                &&& seen_role == role@
                &&& seen_content.len() == content.len()
                &&& forall|i: int|
                    0 <= i < content.len() ==> #[trigger] seen_content[i] == content[i].deep_view()
                &&& seen_phase == phase
                &&& shows_json(seen_metadata, metadata)
            },
            ResponseItem::Reasoning {
                id,
                summary,
                content,
                encrypted_content,
                internal_chat_message_metadata_passthrough: metadata,
            } => {
                &&& item.deep_view() matches ResponseItemView::Reasoning {
                    id: seen_id,
                    summary: seen_summary,
                    content: seen_content,
                    encrypted_content: seen_reasoning,
                    internal_chat_message_metadata_passthrough: seen_metadata,
                }
                &&& shows_text(seen_id, id)
                &&& seen_summary.len() == summary.len()
                &&& forall|i: int|
                    0 <= i < summary.len() ==> #[trigger] seen_summary[i] == summary[i]@
                &&& seen_content is Some <==> content is Some
                &&& content is Some ==> seen_content->0.len() == content->0.len()
                &&& content is Some ==> forall|i: int|
                    0 <= i < content->0.len() ==> #[trigger] seen_content->0[i] == content->0[i]@
                &&& shows_text(seen_reasoning, encrypted_content)
                &&& shows_json(seen_metadata, metadata)
            },
            ResponseItem::FunctionCall {
                id,
                name,
                namespace,
                arguments,
                call_id,
                internal_chat_message_metadata_passthrough: metadata,
            } => {
                &&& item.deep_view() matches ResponseItemView::FunctionCall {
                    id: seen_id,
                    name: seen_name,
                    namespace: seen_namespace,
                    arguments: seen_arguments,
                    call_id: seen_call,
                    internal_chat_message_metadata_passthrough: seen_metadata,
                }
                &&& shows_text(seen_id, id)
                &&& seen_name == name@
                &&& shows_text(seen_namespace, namespace)
                &&& seen_arguments == arguments@
                &&& seen_call == call_id@
                &&& shows_json(seen_metadata, metadata)
            },
            ResponseItem::CustomToolCall { call_id, name, input } => item.deep_view() == (
            ResponseItemView::CustomToolCall { call_id: call_id@, name: name@, input: input@ }),
            ResponseItem::FunctionCallOutput { call_id, output } => {
                &&& item.deep_view() matches ResponseItemView::FunctionCallOutput {
                    call_id: seen_call,
                    output: seen_output,
                }
                &&& seen_call == call_id@
                &&& shows_text(seen_output, output.text)
            },
            ResponseItem::CustomToolCallOutput { call_id, output } => {
                &&& item.deep_view() matches ResponseItemView::CustomToolCallOutput {
                    call_id: seen_call,
                    output: seen_output,
                }
                &&& seen_call == call_id@
                &&& shows_text(seen_output, output.text)
            },
            ResponseItem::Other => item.deep_view() is Other,
        },
{
}

/// A part of a message is seen whole.
pub proof fn law_a_part_is_seen_whole(part: ContentItem)
    ensures
        match part {
            ContentItem::InputText { text } => part.deep_view() == (ContentItemView::InputText {
                text: text@,
            }),
            ContentItem::OutputText { text } => part.deep_view() == (ContentItemView::OutputText {
                text: text@,
            }),
            ContentItem::InputImage { image_url, detail } => part.deep_view() == (
            ContentItemView::InputImage { image_url: image_url@, detail }),
        },
{
}

/// A request is seen whole, item by item and tool by tool.
pub proof fn law_a_request_is_seen_whole(request: ResponsesApiRequest)
    ensures
        request.deep_view().model == request.model@,
        request.deep_view().instructions == request.instructions@,
        request.deep_view().tool_choice == request.tool_choice@,
        request.deep_view().input.len() == request.input.len(),
        forall|i: int|
            0 <= i < request.input.len() ==> #[trigger] request.deep_view().input[i]
                == request.input[i].deep_view(),
        request.deep_view().tools is Some <==> request.tools is Some,
        request.tools is Some ==> {
            let tools = request.tools->0;
            let views = request.deep_view().tools->0;
            &&& views.len() == tools.len()
            &&& forall|i: int|
                0 <= i < tools.len() ==> #[trigger] views[i] == json_value(tools[i])
        },
{
}

/// A chat request is seen whole, message by message and tool by tool.
pub proof fn law_a_chat_request_is_seen_whole(chat: ChatCompletionRequest)
    ensures
        chat.deep_view().model == chat.model@,
        chat.deep_view().tool_choice == chat.tool_choice@,
        chat.deep_view().stream == chat.stream,
        chat.deep_view().stream_options == chat.stream_options,
        chat.deep_view().max_tokens == chat.max_tokens,
        chat.deep_view().thinking == match chat.thinking {
            Some(thinking) => Some(thinking.kind@),
            None => None,
        },
        chat.deep_view().messages.len() == chat.messages.len(),
        forall|i: int|
            0 <= i < chat.messages.len() ==> #[trigger] chat.deep_view().messages[i]
                == chat.messages[i].deep_view(),
        chat.deep_view().tools is Some <==> chat.tools is Some,
        chat.tools is Some ==> {
            let tools = chat.tools->0;
            let views = chat.deep_view().tools->0;
            &&& views.len() == tools.len()
            &&& forall|i: int| 0 <= i < tools.len() ==> #[trigger] views[i] == tools[i].deep_view()
        },
{
}

/// A message of a chat is seen whole, call by call.
pub proof fn law_a_chat_message_is_seen_whole(message: ChatMessage)
    ensures
        message.deep_view().role == message.role@,
        message.deep_view().content == message.content.deep_view(),
        shows_text(message.deep_view().tool_call_id, message.tool_call_id),
        shows_text(message.deep_view().reasoning_content, message.reasoning_content),
        message.deep_view().tool_calls is Some <==> message.tool_calls is Some,
        message.tool_calls is Some ==> {
            let calls = message.tool_calls->0;
            let views = message.deep_view().tool_calls->0;
            &&& views.len() == calls.len()
            &&& forall|i: int| 0 <= i < calls.len() ==> #[trigger] views[i] == calls[i].deep_view()
        },
{
}

/// What a message of a chat says is seen whole, part by part.
pub proof fn law_chat_content_is_seen_whole(content: ChatContent)
    ensures
        match content {
            ChatContent::Text(text) => content.deep_view() == ChatContentView::Text(text@),
            ChatContent::Multimodal(parts) => {
                &&& content.deep_view() matches ChatContentView::Multimodal(views)
                &&& views.len() == parts.len()
                &&& forall|i: int|
                    0 <= i < parts.len() ==> #[trigger] views[i] == parts[i].deep_view()
            },
        },
{
}

/// A part of a message with images is seen whole.
pub proof fn law_a_chat_part_is_seen_whole(part: ChatMultimodalPart)
    ensures
        part.deep_view().kind == part.kind@,
        shows_text(part.deep_view().text, part.text),
        part.deep_view().image_url is Some <==> part.image_url is Some,
        part.image_url is Some ==> {
            &&& part.deep_view().image_url->0.url == part.image_url->0.url@
            &&& shows_text(part.deep_view().image_url->0.detail, part.image_url->0.detail)
        },
{
}

/// A tool and a call are seen whole.
pub proof fn law_tools_and_calls_are_seen_whole(tool: ChatTool, call: ChatToolCall)
    ensures
        tool.deep_view().kind == tool.kind@,
        tool.deep_view().name == tool.function.name@,
        tool.deep_view().description == tool.function.description@,
        tool.deep_view().parameters == json_value(tool.function.parameters),
        call.deep_view().id == call.id@,
        call.deep_view().kind == call.kind@,
        call.deep_view().name == call.function.name@,
        call.deep_view().arguments == call.function.arguments@,
{
}

} // verus!
