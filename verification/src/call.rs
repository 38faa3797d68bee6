//! The HTTP call that asks for a streamed turn: its path, its headers and
//! its body.
use crate::convert::{chat_request, from_responses_request};
use crate::error::{ApiError, ApiErrorView};
use crate::headers::{extend_headers, has_room, header_entries, insert_header, with_header};
use crate::protocol::{ResponsesApiRequest, ResponsesApiRequestView};
use crate::request::ChatCompletionRequest;
use http::HeaderMap;
use std::sync::{Arc, OnceLock};
use vstd::prelude::*;
use vstd::set_lib::lemma_len_subset;
use vstd::string::StringExecFns;

verus! {

/// Where a session comes from.
#[derive(Debug, PartialEq)]
pub enum SessionSource {
    /// A sub-agent, under the label by which the server knows its kind.
    SubAgent(String),
    /// Anything else.
    Other,
}

/// How the body of a call is compressed.
#[derive(Debug, Clone, Copy, Default, PartialEq, Eq)]
pub enum Compression {
    #[default]
    Off,
    Zstd,
}

/// `std::sync::OnceLock`: a place that is filled at most once. Opaque to the
/// proofs, and carried only.
#[verifier::external_type_specification]
#[verifier::external_body]
#[verifier::reject_recursive_types(T)]
pub struct ExOnceLock<T>(std::sync::OnceLock<T>);

/// What goes with a call besides the request. Neither the compression nor
/// the state of the turn changes a call to a chat endpoint.
#[derive(Debug, Default, PartialEq)]
pub struct ChatOptions {
    pub session_id: Option<String>,
    pub thread_id: Option<String>,
    pub session_source: Option<SessionSource>,
    pub extra_headers: HeaderMap,
    pub compression: Compression,
    pub turn_state: Option<Arc<OnceLock<String>>>,
}

/// A call that is ready to be encoded and sent.
#[derive(Debug, PartialEq)]
pub struct PreparedCall {
    pub method: String,
    pub path: String,
    pub headers: HeaderMap,
    pub body: ChatCompletionRequest,
}

/// The label of the sub-agent that a session comes from.
pub open spec fn subagent_of(source: Option<SessionSource>) -> Option<Seq<char>> {
    match source {
        Some(SessionSource::SubAgent(label)) => Some(label@),
        _ => None,
    }
}

/// The headers of a call: those that the caller adds, then the thread as the
/// client's name for the request, then those of the session, then the label
/// of the sub-agent. What comes later replaces what came earlier.
pub open spec fn call_headers(
    extra: Map<Seq<char>, Seq<Seq<u8>>>,
    thread_id: Option<Seq<char>>,
    session: Map<Seq<char>, Seq<Seq<u8>>>,
    subagent: Option<Seq<char>>,
) -> Map<Seq<char>, Seq<Seq<u8>>> {
    let named = match thread_id {
        Some(id) => with_header(extra, "x-client-request-id"@, id),
        None => extra,
    };
    let joined = named.union_prefer_right(session);
    match subagent {
        Some(label) => with_header(joined, "x-openai-subagent"@, label),
        None => joined,
    }
}

/// Whether the headers of a call are sure to fit into one header map: with
/// all of them but the label of the sub-agent, there is still room.
pub open spec fn headers_fit(options: ChatOptions, session_headers: HeaderMap) -> bool {
    let names = header_entries(options.extra_headers).dom() + header_entries(
        session_headers,
    ).dom();
    has_room(
        if options.thread_id is Some {
            names.insert("x-client-request-id"@)
        } else {
            names
        },
    )
}

/// Whether a call asks for this request, with these headers.
pub open spec fn asks_for(
    call: PreparedCall,
    request: ResponsesApiRequestView,
    headers: Map<Seq<char>, Seq<Seq<u8>>>,
) -> bool {
    &&& call.method@ == "POST"@
    &&& call.path@ == "chat/completions"@
    &&& header_entries(call.headers) == headers
    &&& call.body.deep_view() == chat_request(request)
}

/// The error of a call whose body could not be encoded, for this reason.
pub open spec fn encode_error(detail: Seq<char>) -> ApiErrorView {
    ApiErrorView::Stream("failed to encode chat request: "@ + detail)
}

/// The label of the sub-agent that a session comes from.
pub fn subagent_header(source: &Option<SessionSource>) -> (label: Option<String>)
    ensures
        label.deep_view() == subagent_of(*source),
{
    match source {
        Some(SessionSource::SubAgent(label)) => Some(label.clone()),
        _ => None,
    }
}

/// The call for `request`, and nothing where a header map cannot take in all
/// of its headers. `session_headers` are the headers that name the session.
pub fn prepare_call(
    request: &ResponsesApiRequest,
    options: ChatOptions,
    session_headers: HeaderMap,
) -> (call: Option<PreparedCall>)
    ensures
        headers_fit(options, session_headers) ==> call is Some,
        call matches Some(call) ==> {
            &&& call.method@ == "POST"@
            &&& call.path@ == "chat/completions"@
            &&& header_entries(call.headers) == call_headers(
                header_entries(options.extra_headers),
                options.thread_id.deep_view(),
                header_entries(session_headers),
                subagent_of(options.session_source),
            )
            &&& call.body.deep_view() == chat_request(request.deep_view())
            &&& asks_for(
                call,
                request.deep_view(),
                call_headers(
                    header_entries(options.extra_headers),
                    options.thread_id.deep_view(),
                    header_entries(session_headers),
                    subagent_of(options.session_source),
                ),
            )
        },
{
    proof {
        reveal_strlit("x-client-request-id");
        reveal_strlit("x-openai-subagent");
    }
    let ghost extra = header_entries(options.extra_headers).dom();
    let ghost session = header_entries(session_headers).dom();
    let ghost names = if options.thread_id is Some {
        (extra + session).insert("x-client-request-id"@)
    } else {
        extra + session
    };
    proof {
        if has_room(names) {
            assert(extra.subset_of(names));
            lemma_len_subset(extra, names);
        }
    }
    let body = from_responses_request(request);
    let subagent = subagent_header(&options.session_source);
    let mut headers = options.extra_headers;
    if let Some(thread_id) = &options.thread_id {
        if !insert_header(&mut headers, "x-client-request-id", thread_id.as_str()) {
            return None;
        }
    }
    let ghost named = header_entries(headers).dom();
    proof {
        if has_room(names) {
            assert((named + session).subset_of(names));
            lemma_len_subset(named + session, names);
        }
    }
    if !extend_headers(&mut headers, session_headers) {
        return None;
    }
    assert(header_entries(headers).dom() =~= named + session);
    if let Some(label) = &subagent {
        if !insert_header(&mut headers, "x-openai-subagent", label.as_str()) {
            return None;
        }
    }
    Some(
        PreparedCall {
            method: "POST".to_string(),
            path: "chat/completions".to_string(),
            headers,
            body,
        },
    )
}

/// The error of a call whose body could not be encoded.
pub fn encode_failure(detail: &str) -> (error: ApiError)
    ensures
        error.deep_view() == ApiErrorView::Stream("failed to encode chat request: "@ + detail@),
        error.deep_view() == encode_error(detail@),
{
    let mut message = "failed to encode chat request: ".to_string();
    message.append(detail);
    ApiError::Stream(message)
}

} // verus!
