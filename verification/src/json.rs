//! JSON values carried through the library, and the few `serde_json`
//! operations the message conversion needs.

use serde_json::Value;
use vstd::prelude::*;

verus! {

/// `serde_json::Value`, carried through the library as an opaque value.
#[verifier::external_type_specification]
#[verifier::external_body]
pub struct ExJsonValue(Value);

/// The value `serde_json::from_str::<Value>` gives for a text, if it parses.
pub uninterp spec fn parsed_json(text: Seq<char>) -> Option<Value>;

/// The JSON string value `Value::String` holding a text.
pub uninterp spec fn json_string_value(text: Seq<char>) -> Value;

/// The JSON boolean value `Value::Bool` holding a flag.
pub uninterp spec fn json_bool_value(b: bool) -> Value;

/// Parses `text` as JSON with `serde_json::from_str::<Value>`.
/// The contract claims only that the outcome is a function of the text:
/// `Some` of the parsed value when it parses, `None` when it does not.
#[verifier::external_body]
pub(crate) fn parse_json(text: &str) -> (r: Option<Value>)
    ensures
        r == parsed_json(text@),
{
    serde_json::from_str::<Value>(text).ok()
}

/// Builds the JSON string `Value::String(text)`.
#[verifier::external_body]
pub(crate) fn json_string(text: String) -> (v: Value)
    ensures
        v == json_string_value(text@),
{
    Value::String(text)
}

/// Builds the JSON boolean `Value::Bool(b)`.
#[verifier::external_body]
pub(crate) fn json_bool(b: bool) -> (v: Value)
    ensures
        v == json_bool_value(b),
{
    Value::Bool(b)
}

/// Copies a JSON value with `Value::clone`, which gives back an equal value.
#[verifier::external_body]
pub(crate) fn json_clone(v: &Value) -> (r: Value)
    ensures
        r == *v,
{
    v.clone()
}

} // verus!
