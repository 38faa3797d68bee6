//! What the fields of streamed data say, one by one.
use crate::chunk::{ChatApiErrorView, ChatChoiceView, ChatDeltaToolCallView};
use vstd::prelude::*;

verus! {

/// The text in a field, and nothing where the field is absent.
pub open spec fn or_empty(text: Option<Seq<char>>) -> Seq<char> {
    match text {
        Some(text) => text,
        None => Seq::empty(),
    }
}

/// The tool-call pieces that a choice lists.
pub open spec fn pieces_in(choice: ChatChoiceView) -> Seq<ChatDeltaToolCallView> {
    match choice.delta.tool_calls {
        Some(pieces) => pieces,
        None => Seq::empty(),
    }
}

/// The fragment of the arguments that a piece carries.
pub open spec fn arguments_in(piece: ChatDeltaToolCallView) -> Seq<char> {
    match piece.function {
        Some(function) => or_empty(function.arguments),
        None => Seq::empty(),
    }
}

/// Whether a piece gives the name of the function.
pub open spec fn gives_name(piece: ChatDeltaToolCallView) -> bool {
    match piece.function {
        Some(function) => function.name is Some,
        None => false,
    }
}

/// Whether the finish reason of a choice is one that ends the turn.
pub open spec fn ends_turn(choice: ChatChoiceView) -> bool {
    ||| choice.finish_reason == Some("stop"@)
    ||| choice.finish_reason == Some("tool_calls"@)
    ||| choice.finish_reason == Some("length"@)
}

/// Whether an object reports an error.
pub open spec fn reports_error(object: Option<ChatApiErrorView>) -> bool {
    match object {
        Some(object) => object.error is Some,
        None => false,
    }
}

} // verus!
