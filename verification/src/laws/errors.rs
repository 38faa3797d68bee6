//! Which error an object in the stream stands for.
use crate::chunk::{ChatApiErrorDetailView, ChatApiErrorView};
use crate::error::{ApiErrorView, TransportErrorView};
use crate::laws::fields::or_empty;
use crate::session::chat_error;
use vstd::prelude::*;

verus! {

/// The kind of an error, whatever it carries.
pub open spec fn kind(error: ApiErrorView) -> int {
    match error {
        ApiErrorView::Transport(_) => 0,
        ApiErrorView::Stream(_) => 1,
        ApiErrorView::ContextWindowExceeded => 2,
        ApiErrorView::QuotaExceeded => 3,
        ApiErrorView::Retryable { .. } => 4,
        ApiErrorView::ServerOverloaded => 5,
    }
}

/// An object that reports an error with these fields.
pub open spec fn object(
    code: Option<Seq<char>>,
    message: Option<Seq<char>>,
    error_type: Option<Seq<char>>,
) -> Option<ChatApiErrorView> {
    Some(ChatApiErrorView { error: Some(ChatApiErrorDetailView { code, message, error_type }) })
}

proof fn lemma_codes_differ()
    ensures
        "context_length_exceeded"@.len() == 23,
        "insufficient_quota"@.len() == 18,
        "invalid_api_key"@.len() == 15,
        "invalid_authentication"@.len() == 22,
        "rate_limit_exceeded"@.len() == 19,
        "server_error"@.len() == 12,
        "internal_error"@.len() == 14,
{
    reveal_strlit("context_length_exceeded");
    reveal_strlit("insufficient_quota");
    reveal_strlit("invalid_api_key");
    reveal_strlit("invalid_authentication");
    reveal_strlit("rate_limit_exceeded");
    reveal_strlit("server_error");
    reveal_strlit("internal_error");
}

/// Whatever the message and the type say, each known code stands for an error
/// of its own kind; the message is carried where the kind has a place for it.
/// Any other error, with or without a code, is a failure of the stream, with
/// its message.
pub proof fn law_each_code_has_its_error(
    code: Option<Seq<char>>,
    message: Option<Seq<char>>,
    error_type: Option<Seq<char>>,
)
    ensures
        ({
            let error = chat_error(object(code, message, error_type));
            let refused = code == Some("invalid_api_key"@) || code == Some(
                "invalid_authentication"@,
            );
            let overloaded = code == Some("server_error"@) || code == Some("internal_error"@);
            &&& error is Some
            &&& code == Some("context_length_exceeded"@) ==> error->0 is ContextWindowExceeded
            &&& code == Some("insufficient_quota"@) ==> error->0 is QuotaExceeded
            &&& overloaded ==> error->0 is ServerOverloaded
            &&& code == Some("rate_limit_exceeded"@) ==> error->0 == (ApiErrorView::Retryable {
                message: or_empty(message),
                delay: None,
            })
            &&& refused ==> error->0 == ApiErrorView::Transport(
                TransportErrorView::Http { status: 401, url: None, headers: None, body: message },
            )
            &&& !refused && !overloaded && code != Some("context_length_exceeded"@) && code != Some(
                "insufficient_quota"@,
            ) && code != Some("rate_limit_exceeded"@) ==> error->0 == ApiErrorView::Stream(
                or_empty(message),
            )
        }),
{
    lemma_codes_differ();
}

/// Two errors with the same code are of the same kind, whatever else they
/// say.
pub proof fn law_the_code_alone_decides_the_kind(
    code: Option<Seq<char>>,
    message: Option<Seq<char>>,
    other_message: Option<Seq<char>>,
    error_type: Option<Seq<char>>,
    other_type: Option<Seq<char>>,
)
    ensures
        kind(chat_error(object(code, message, error_type))->0) == kind(
            chat_error(object(code, other_message, other_type))->0,
        ),
{
    law_each_code_has_its_error(code, message, error_type);
    law_each_code_has_its_error(code, other_message, other_type);
}

/// Data that is no error object, and an object without an error, stand for
/// none; every object with an error stands for one.
pub proof fn law_an_error_is_reported_where_there_is_one(parsed: Option<ChatApiErrorView>)
    ensures
        chat_error(parsed) is Some <==> parsed is Some && parsed->0.error is Some,
{
}

} // verus!
