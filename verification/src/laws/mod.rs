//! What holds of the library as a whole.
pub mod calls;
pub mod choice;
pub mod content;
pub mod conversation;
pub mod errors;
pub mod fields;
pub mod gather;
pub mod headers;
pub mod items;
pub mod replay;
pub mod request;
pub mod session;
pub mod stream;
pub mod text;
pub mod turn;
pub mod views;
