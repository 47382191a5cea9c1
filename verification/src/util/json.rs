//! The JSON values the rules read, through `serde_json`.

use vstd::prelude::*;
use serde_json::Value;

verus! {

#[verifier::external_type_specification]
#[verifier::external_body]
pub struct ExValue(Value);

/// The JSON value `serde_json::from_str` reads from a text, when it reads one.
pub uninterp spec fn json_parse(body: Seq<char>) -> Option<Value>;

/// The member `key` of a JSON object (`Value::as_object` then `Map::get`);
/// nothing for other values.
pub uninterp spec fn json_member(v: Value, key: Seq<char>) -> Option<Value>;

/// Calls `serde_json::from_str::<Value>`.
#[verifier::external_body]
pub(crate) fn parse_json(body: &str) -> (r: Option<Value>)
    ensures
        r == json_parse(body@),
{
    serde_json::from_str::<Value>(body).ok()
}

/// Calls `Value::as_object` and `Map::get`, and copies the member.
#[verifier::external_body]
pub(crate) fn json_get(v: &Value, key: &str) -> (r: Option<Value>)
    ensures
        r == json_member(*v, key@),
{
    v.as_object().and_then(|o| o.get(key)).cloned()
}

/// Whether a JSON value is an array (`Value::is_array`).
pub uninterp spec fn json_array(v: Value) -> bool;

/// Calls `Value::is_array`.
#[verifier::external_body]
pub(crate) fn json_is_array(v: &Value) -> (r: bool)
    ensures
        r == json_array(*v),
{
    v.is_array()
}

} // verus!
