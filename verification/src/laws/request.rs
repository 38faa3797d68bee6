//! What a chat request takes over from a request, field by field.
use crate::convert::{chat_messages, chat_request};
use crate::json::Json;
use crate::protocol::ResponsesApiRequestView;
use vstd::prelude::*;

verus! {

/// Whether a JSON object holds this member.
pub open spec fn holds(tool: Json, key: Seq<char>, member: Json) -> bool {
    match tool {
        Json::Object(members) => members.contains_key(key) && members[key] == member,
        _ => false,
    }
}

/// Whether `text` is the text that a tool description holds under `key`:
/// nothing where it holds none.
pub open spec fn is_text_under(tool: Json, key: Seq<char>, text: Seq<char>) -> bool {
    ||| holds(tool, key, Json::Text(text))
    ||| text.len() == 0 && forall|other: Seq<char>| !#[trigger] holds(tool, key, Json::Text(other))
}

/// Whether `parameters` are those that a tool description holds: null where
/// it holds none.
pub open spec fn are_parameters_of(tool: Json, parameters: Json) -> bool {
    ||| holds(tool, "parameters"@, parameters)
    ||| parameters == Json::Null && forall|other: Json| !#[trigger] holds(
        tool,
        "parameters"@,
        other,
    )
}

/// The model is offered exactly the tools that the request offers, each with
/// its name, its description and its parameters, and in the same order,
/// whatever else the request says. A request without a list of tools makes a
/// chat request without one.
pub proof fn law_every_tool_is_offered(request: ResponsesApiRequestView)
    ensures
        ({
            let chat = chat_request(request);
            &&& chat.tools is Some <==> request.tools is Some
            &&& request.tools is Some ==> chat.tools->0.len() == request.tools->0.len()
            &&& request.tools is Some ==> forall|i: int|
                0 <= i < request.tools->0.len() ==> {
                    let tool = request.tools->0[i];
                    let offered = #[trigger] chat.tools->0[i];
                    &&& offered.kind == "function"@
                    &&& is_text_under(tool, "name"@, offered.name)
                    &&& is_text_under(tool, "description"@, offered.description)
                    &&& are_parameters_of(tool, offered.parameters)
                }
        }),
{
    let chat = chat_request(request);
    if request.tools is Some {
        assert forall|i: int| 0 <= i < request.tools->0.len() implies {
            let tool = request.tools->0[i];
            let offered = #[trigger] chat.tools->0[i];
            &&& offered.kind == "function"@
            &&& is_text_under(tool, "name"@, offered.name)
            &&& is_text_under(tool, "description"@, offered.description)
            &&& are_parameters_of(tool, offered.parameters)
        } by {
            let tool = request.tools->0[i];
            let offered = chat.tools->0[i];
            assert(holds(tool, "name"@, Json::Text(offered.name)) || offered.name.len() == 0);
            assert(holds(tool, "description"@, Json::Text(offered.description))
                || offered.description.len() == 0);
            assert(holds(tool, "parameters"@, offered.parameters) || offered.parameters
                == Json::Null);
        }
    }
}

/// The model and the choice of tools are taken over, the reply is streamed
/// with its token counts, its length is not limited, and the model thinks.
pub proof fn law_the_rest_of_a_request(request: ResponsesApiRequestView)
    ensures
        ({
            let chat = chat_request(request);
            &&& chat.model == request.model
            &&& chat.tool_choice == request.tool_choice
            &&& chat.stream
            &&& chat.stream_options is Some
            &&& chat.stream_options->0.include_usage
            &&& chat.max_tokens is None
            &&& chat.thinking == Some("enabled"@)
        }),
{
}

/// What a chat says depends on the instructions and the conversation alone:
/// requests that differ otherwise make the same messages.
pub proof fn law_messages_follow_the_conversation(
    request: ResponsesApiRequestView,
    other: ResponsesApiRequestView,
)
    requires
        request.instructions == other.instructions,
        request.input == other.input,
    ensures
        chat_request(request).messages == chat_request(other).messages,
        chat_request(request).messages == chat_messages(
            request.instructions,
            request.input,
        ),
{
}

} // verus!
