//! JSON values, held as `serde_json` holds them.
use serde_json::Value;
use vstd::prelude::*;

verus! {

/// `serde_json::Value`: a JSON value, opaque to the proofs but for
/// [`json_value`].
#[verifier::external_type_specification]
#[verifier::external_body]
pub struct ExValue(serde_json::Value);

/// What a JSON value is: the tree that a `serde_json::Value` stands for.
/// A number is its text.
pub enum Json {
    Null,
    Bool(bool),
    Number(Seq<char>),
    Text(Seq<char>),
    Array(Seq<Json>),
    Object(Map<Seq<char>, Json>),
}

/// The tree that a `serde_json::Value` holds.
pub uninterp spec fn json_value(value: serde_json::Value) -> Json;

impl Json {
    /// The member `key` of an object; nothing of any other value.
    pub open spec fn member(self, key: Seq<char>) -> Option<Json> {
        match self {
            Json::Object(members) => if members.contains_key(key) {
                Some(members[key])
            } else {
                None
            },
            _ => None,
        }
    }

    /// The characters of a JSON string; nothing of any other value.
    pub open spec fn text(self) -> Option<Seq<char>> {
        match self {
            Json::Text(text) => Some(text),
            _ => None,
        }
    }
}

/// `serde_json::Value::get` with a string index: the member of that name
/// where the value is an object that has one, and nothing otherwise.
#[verifier::external_body]
pub(crate) fn member<'a>(value: &'a Value, key: &str) -> (found: Option<&'a Value>)
    ensures
        match found {
            Some(inner) => json_value(*value).member(key@) == Some(json_value(*inner)),
            None => json_value(*value).member(key@) is None,
        },
{
    value.get(key)
}

/// `serde_json::Value::as_str`: the text of a JSON string, and nothing of
/// any other value.
#[verifier::external_body]
pub(crate) fn text(value: &Value) -> (found: Option<&str>)
    ensures
        match found {
            Some(text) => json_value(*value).text() == Some(text@),
            None => json_value(*value).text() is None,
        },
{
    value.as_str()
}

/// The `Clone` of `serde_json::Value`: another value with the same tree.
#[verifier::external_body]
pub(crate) fn copy(value: &Value) -> (copied: Value)
    ensures
        json_value(copied) == json_value(*value),
{
    value.clone()
}

/// The `Default` of `serde_json::Value`, which is `Value::Null`.
#[verifier::external_body]
pub(crate) fn null() -> (value: Value)
    ensures
        json_value(value) == Json::Null,
{
    Value::default()
}

} // verus!
