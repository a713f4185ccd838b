//! The JSON reader that the feed decoder stands on.
//!
//! Parsing and the typed accessors are `serde_json`'s. A parsed value is
//! opaque here; contracts speak of the document that it holds, `Json`.
//! Nothing in this file is proved: each function states what the decoder
//! relies on.

use vstd::prelude::*;

verus! {

#[verifier::external_type_specification]
#[verifier::external_body]
pub struct ExValue(serde_json::Value);

/// A JSON document, as far as the decoder reads it.
pub enum Json {
    Null,
    Bool(bool),
    /// A number; it holds the value where that is a non-negative integer that
    /// fits 64 bits.
    Number(Option<u64>),
    Text(Seq<char>),
    Array(Seq<Json>),
    Object(Map<Seq<char>, Json>),
}

/// The document that a parsed value holds.
pub uninterp spec fn json_of(v: serde_json::Value) -> Json;

/// The document that `serde_json::from_str` reads from a text, or `None`
/// where it reports an error.
pub uninterp spec fn json_parse(text: Seq<char>) -> Option<Json>;

/// The documents that a run of parsed values holds.
pub open spec fn json_of_all(values: Seq<serde_json::Value>) -> Seq<Json> {
    Seq::new(values.len(), |i: int| json_of(values[i]))
}

/// Calls `serde_json::from_str` for a `Value`. Trusted: the value holds the
/// document that the text writes; a parse error becomes `None`.
#[verifier::external_body]
pub(crate) fn parse_json(text: &str) -> (r: Option<serde_json::Value>)
    ensures
        match r {
            Some(v) => json_parse(text@) == Some(json_of(v)),
            None => json_parse(text@) is None,
        },
{
    match serde_json::from_str::<serde_json::Value>(text) {
        Ok(v) => Some(v),
        Err(_) => None,
    }
}

/// Calls `serde_json::Value::get` with a string key. Trusted: the result is
/// the entry of an object under that key; it is `None` for a missing key and
/// for a value that is no object.
#[verifier::external_body]
pub(crate) fn member<'a>(v: &'a serde_json::Value, key: &str) -> (r: Option<&'a serde_json::Value>)
    ensures
        match r {
            Some(m) => json_of(*v) matches Json::Object(entries) && entries.contains_key(key@)
                && entries[key@] == json_of(*m),
            None => !(json_of(*v) matches Json::Object(entries) && entries.contains_key(key@)),
        },
{
    v.get(key)
}

/// Calls `serde_json::Value::as_array`. Trusted: the result holds the
/// elements of an array; it is `None` for any other value.
#[verifier::external_body]
pub(crate) fn items<'a>(v: &'a serde_json::Value) -> (r: Option<&'a Vec<serde_json::Value>>)
    ensures
        match r {
            Some(a) => json_of(*v) == Json::Array(json_of_all(a@)),
            None => !(json_of(*v) is Array),
        },
{
    v.as_array()
}

/// Calls `serde_json::Value::as_str`. Trusted: the result is the text of a
/// string; it is `None` for any other value.
#[verifier::external_body]
pub(crate) fn text<'a>(v: &'a serde_json::Value) -> (r: Option<&'a str>)
    ensures
        match r {
            Some(s) => json_of(*v) == Json::Text(s@),
            None => !(json_of(*v) is Text),
        },
{
    v.as_str()
}

/// Calls `serde_json::Value::as_u64`. Trusted: the result is the value of a
/// number that is a non-negative integer and fits 64 bits; it is `None` for
/// any other number and any other value.
#[verifier::external_body]
pub(crate) fn unsigned(v: &serde_json::Value) -> (r: Option<u64>)
    ensures
        r == match json_of(*v) {
            Json::Number(n) => n,
            _ => None,
        },
{
    v.as_u64()
}

} // verus!
