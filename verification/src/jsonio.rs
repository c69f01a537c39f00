//! Trusted boundary to the JSON and timestamp libraries. Transcript records
//! and hook payloads arrive as JSON; the logic reads them through the small
//! wrappers here and works on plain values from then on.

use vstd::prelude::*;

verus! {

#[verifier::external_type_specification]
#[verifier::external_body]
pub struct ExValue(serde_json::Value);

/// Relies on `serde_json::from_str::<Value>`: parses one JSON document, or
/// fails. Nothing about the opaque result is assumed; readers go through
/// the accessors below.
#[verifier::external_body]
pub(crate) fn json_parse(s: &str) -> (r: Option<serde_json::Value>) {
    serde_json::from_str::<serde_json::Value>(s).ok()
}

/// Relies on `serde_json::Value::get`: the value under a key of a JSON
/// object, `None` for a missing key or a non-object.
#[verifier::external_body]
pub(crate) fn json_get<'a>(v: &'a serde_json::Value, key: &str) -> (r: Option<&'a serde_json::Value>) {
    v.get(key)
}

/// Relies on `serde_json::Value::as_str`: the contents of a JSON string,
/// `None` for any other kind of value.
#[verifier::external_body]
pub(crate) fn json_as_str(v: &serde_json::Value) -> (r: Option<String>) {
    v.as_str().map(|s| s.to_string())
}

/// Relies on `serde_json::Value::as_bool`: the value of a JSON boolean,
/// `None` for any other kind of value.
#[verifier::external_body]
pub(crate) fn json_as_bool(v: &serde_json::Value) -> (r: Option<bool>) {
    v.as_bool()
}

/// Relies on `serde_json::Value::as_array`: the elements of a JSON array,
/// `None` for any other kind of value.
#[verifier::external_body]
pub(crate) fn json_as_array<'a>(v: &'a serde_json::Value) -> (r: Option<&'a Vec<serde_json::Value>>) {
    v.as_array()
}

/// What parsing a timestamp text yields: milliseconds since the Unix epoch,
/// a function of the characters alone.
pub uninterp spec fn spec_parse_timestamp_ms(s: Seq<char>) -> Option<i64>;

/// Relies on chrono's `DateTime<Utc>` parsing (relaxed RFC 3339) and
/// `timestamp_millis`: both depend on the characters alone.
#[verifier::external_body]
pub(crate) fn parse_timestamp_ms(s: &str) -> (r: Option<i64>)
    ensures
        r == spec_parse_timestamp_ms(s@),
{
    s.parse::<chrono::DateTime<chrono::Utc>>().ok().map(|d| d.timestamp_millis())
}

/// The `command` field of a tool-input object, when it is a string.
pub fn tool_command_of(v: &serde_json::Value) -> (r: Option<String>) {
    match json_get(v, "command") {
        Some(c) => json_as_str(c),
        None => None,
    }
}

} // verus!
