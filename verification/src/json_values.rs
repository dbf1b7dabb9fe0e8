//! The JSON surface the stream decoders stand on.
//!
//! Combined-stream payloads arrive as JSON text and are taken apart with
//! `serde_json`'s dynamic `Value` tree. A `Value` is opaque here: nothing
//! is claimed about what a given document parses to, only the shape of the
//! navigation API. The decoders built on top validate the shape of each
//! payload themselves and hand plain strings and integers onward.

use vstd::prelude::*;

verus! {

/// Declares `serde_json::Value`, the dynamic JSON tree, for use in
/// signatures; values of it stay opaque.
#[verifier::external_type_specification]
#[verifier::external_body]
pub struct ExValue(serde_json::Value);

/// Relies on `serde_json::from_str::<Value>`: parses a JSON document,
/// `None` when the text is not valid JSON.
#[verifier::external_body]
pub fn json_parse(s: &str) -> (r: Option<serde_json::Value>) {
    serde_json::from_str(s).ok()
}

/// Relies on `serde_json::Value::get`: the member of an object under
/// `key`, `None` when this value is not an object or has no such member.
#[verifier::external_body]
pub fn json_get<'a>(v: &'a serde_json::Value, key: &str) -> (r: Option<&'a serde_json::Value>) {
    v.get(key)
}

/// Relies on `serde_json::Value::as_str`: the borrowed string when the
/// value is a JSON string, `None` otherwise.
pub assume_specification<'a>[ serde_json::Value::as_str ](v: &'a serde_json::Value) -> (r: Option<
    &'a str,
>);

/// Relies on `serde_json::Value::as_u64`: the integer when the value is a
/// JSON number representable as a `u64`, `None` otherwise.
pub assume_specification[ serde_json::Value::as_u64 ](v: &serde_json::Value) -> (r: Option<u64>);

/// Relies on `serde_json::Value::as_bool`: the boolean when the value is a
/// JSON boolean, `None` otherwise.
pub assume_specification[ serde_json::Value::as_bool ](v: &serde_json::Value) -> (r: Option<bool>);

/// Relies on `serde_json::Value::as_array`: the element vector when the
/// value is a JSON array, `None` otherwise.
pub assume_specification<'a>[ serde_json::Value::as_array ](v: &'a serde_json::Value) -> (r:
    Option<&'a Vec<serde_json::Value>>);

} // verus!
