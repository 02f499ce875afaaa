//! The JSON values that tool-call arguments are carried in, and the few
//! `serde_json` operations that the loop applies to them.

use vstd::prelude::*;

verus! {

#[verifier::external_type_specification]
#[verifier::external_body]
pub struct ExValue(serde_json::Value);

/// What `serde_json::from_str::<Value>` reports for `text`: `None` when the
/// text is one JSON document, else the rendered error. A function of the text
/// alone.
pub uninterp spec fn json_parse_failure(text: Seq<char>) -> Option<Seq<char>>;

/// Copies a JSON value (`<serde_json::Value as Clone>::clone`). The derived
/// clone rebuilds the same tree, so the copy equals the original.
#[verifier::external_body]
pub(crate) fn duplicate_value(value: &serde_json::Value) -> (copy: serde_json::Value)
    ensures
        copy == *value,
{
    value.clone()
}

/// The value `serde_json::from_str::<Value>` gives for `text` when it parses:
/// a function of the text alone.
pub uninterp spec fn json_parsed(text: Seq<char>) -> serde_json::Value;

/// The string stored under `key` of a JSON value (`Value::get`, then
/// `Value::as_str`): `None` for a non-object, a missing key or a non-string.
/// A function of the value and the key alone.
pub uninterp spec fn json_string_at(value: serde_json::Value, key: Seq<char>) -> Option<Seq<char>>;

/// The empty JSON object (`serde_json::Value::Object` of `Map::new()`), the
/// same value that parsing `{}` gives.
#[verifier::external_body]
pub(crate) fn empty_object() -> (value: serde_json::Value)
    ensures
        value == json_parsed("{}"@),
{
    serde_json::Value::Object(serde_json::Map::new())
}

/// Parses one JSON document (`serde_json::from_str::<Value>`). Succeeds exactly
/// where `json_parse_failure` is `None`, with the value `json_parsed` names; a
/// failure carries the rendered `serde_json::Error`.
#[verifier::external_body]
pub(crate) fn parse_json(text: &str) -> (parsed: Result<serde_json::Value, String>)
    ensures
        parsed is Ok <==> json_parse_failure(text@) is None,
        parsed matches Ok(value) ==> value == json_parsed(text@),
        parsed matches Err(message) ==> json_parse_failure(text@) == Some(message@),
{
    match serde_json::from_str::<serde_json::Value>(text) {
        Ok(value) => Ok(value),
        Err(error) => Err(error.to_string()),
    }
}

/// The string stored under `key` of a JSON object (`Value::get` then
/// `Value::as_str`), or `None` when the value is no object, lacks the key, or
/// holds a non-string there.
#[verifier::external_body]
pub(crate) fn string_field(value: &serde_json::Value, key: &str) -> (field: Option<String>)
    ensures
        match field {
            Some(f) => json_string_at(*value, key@) == Some(f@),
            None => json_string_at(*value, key@) is None,
        },
{
    value.get(key).and_then(serde_json::Value::as_str).map(|text| text.to_string())
}

/// Whether two JSON values are equal under `PartialEq for Value`: a function
/// of the two values alone.
pub uninterp spec fn json_values_equal(a: serde_json::Value, b: serde_json::Value) -> bool;

/// Compares two JSON values (`<Value as PartialEq>::eq`).
#[verifier::external_body]
pub(crate) fn values_equal(a: &serde_json::Value, b: &serde_json::Value) -> (equal: bool)
    ensures
        equal == json_values_equal(*a, *b),
{
    a == b
}

} // verus!
