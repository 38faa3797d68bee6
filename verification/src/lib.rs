//! Bridges the Responses API and the Chat Completions API: requests are
//! rewritten in one direction, streamed replies in the other.
pub mod call;
pub mod chunk;
pub mod convert;
pub mod converter;
pub mod error;
pub mod headers;
pub mod json;
pub mod laws;
pub mod protocol;
pub mod request;
pub mod session;
pub mod text;
