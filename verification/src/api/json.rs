//! Reading fields of a JSON response body through `serde_json`.

use vstd::prelude::*;

verus! {

/// The integer value of the top-level field `key` of the JSON text `raw`, as
/// `serde_json` parses it into a `Value` and reads it with `get` and
/// `as_i64`; `None` when the text is not JSON, the field is absent or is not
/// an integer that fits in `i64`.
pub uninterp spec fn json_int_field(raw: Seq<char>, key: Seq<char>) -> Option<i64>;

/// The string value of the top-level field `key` of the JSON text `raw`, as
/// `serde_json` reads it with `get` and `as_str`; `None` when the text is not
/// JSON, the field is absent or is not a string.
pub uninterp spec fn json_str_field(raw: Seq<char>, key: Seq<char>) -> Option<Seq<char>>;

/// `serde_json::from_str::<Value>(raw)`, then `Value::get(key)` and
/// `Value::as_i64`: the result is `json_int_field(raw, key)`.
#[verifier::external_body]
pub fn int_field(raw: &str, key: &str) -> (r: Option<i64>)
    ensures
        r == json_int_field(raw@, key@),
{
    serde_json::from_str::<serde_json::Value>(raw).ok()?.get(key)?.as_i64()
}

/// `serde_json::from_str::<Value>(raw)`, then `Value::get(key)` and
/// `Value::as_str`: the result is `json_str_field(raw, key)`.
#[verifier::external_body]
pub fn str_field(raw: &str, key: &str) -> (r: Option<String>)
    ensures
        match r {
            Some(s) => json_str_field(raw@, key@) == Some(s@),
            None => json_str_field(raw@, key@) is None,
        },
{
    let value = serde_json::from_str::<serde_json::Value>(raw).ok()?;
    value.get(key)?.as_str().map(String::from)
}

} // verus!
