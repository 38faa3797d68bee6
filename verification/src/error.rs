//! What can go wrong with a streamed turn.
use crate::headers::header_entries;
use http::HeaderMap;
use vstd::prelude::*;

verus! {

/// The status of an answer that refuses the caller's credentials.
pub const UNAUTHORIZED: u16 = 401;

/// An HTTP exchange that failed.
#[derive(Debug, PartialEq)]
pub enum TransportError {
    Http { status: u16, url: Option<String>, headers: Option<HeaderMap>, body: Option<String> },
}

/// A [`TransportError`] as a mathematical value.
#[verifier::ext_equal]
pub enum TransportErrorView {
    Http {
        status: u16,
        url: Option<Seq<char>>,
        headers: Option<Map<Seq<char>, Seq<Seq<u8>>>>,
        body: Option<Seq<char>>,
    },
}

/// Why a turn failed.
#[derive(Debug, PartialEq)]
pub enum ApiError {
    Transport(TransportError),
    Stream(String),
    ContextWindowExceeded,
    QuotaExceeded,
    /// The same request may succeed later, after `delay` milliseconds where
    /// the server named them.
    Retryable { message: String, delay: Option<u64> },
    ServerOverloaded,
}

/// An [`ApiError`] as a mathematical value.
#[verifier::ext_equal]
pub enum ApiErrorView {
    Transport(TransportErrorView),
    Stream(Seq<char>),
    ContextWindowExceeded,
    QuotaExceeded,
    Retryable { message: Seq<char>, delay: Option<u64> },
    ServerOverloaded,
}

impl DeepView for TransportError {
    type V = TransportErrorView;

    open spec fn deep_view(&self) -> TransportErrorView {
        match *self {
            TransportError::Http { status, url, headers, body } => TransportErrorView::Http {
                status,
                url: url.deep_view(),
                headers: match headers {
                    Some(headers) => Some(header_entries(headers)),
                    None => None,
                },
                body: body.deep_view(),
            },
        }
    }
}

impl DeepView for ApiError {
    type V = ApiErrorView;

    open spec fn deep_view(&self) -> ApiErrorView {
        match *self {
            ApiError::Transport(error) => ApiErrorView::Transport(error.deep_view()),
            ApiError::Stream(message) => ApiErrorView::Stream(message@),
            ApiError::ContextWindowExceeded => ApiErrorView::ContextWindowExceeded,
            ApiError::QuotaExceeded => ApiErrorView::QuotaExceeded,
            ApiError::Retryable { message, delay } => ApiErrorView::Retryable {
                message: message@,
                delay,
            },
            ApiError::ServerOverloaded => ApiErrorView::ServerOverloaded,
        }
    }
}

} // verus!
