//! The boundary to the JSON library. A parsed document is modelled by the
//! ghost datatype `Json`; what `serde_json` parses from a given text is named
//! by `json_of`, and the document a `serde_json::Value` holds is named by
//! `json_model`. The wrappers below carry exactly the calls the resolver
//! makes: parse, object field, array element, string and integer readings.

use vstd::prelude::*;

verus! {

/// A JSON document, at the specification level. A number representable as a
/// `u64` is `UInt`; any other number is `NumOther`.
pub enum Json {
    Null,
    Bool(bool),
    UInt(u64),
    NumOther,
    Text(Seq<char>),
    Arr(Seq<Json>),
    Obj(Map<Seq<char>, Json>),
}

/// The document that `serde_json::from_str::<Value>` parses from a text,
/// if the text is valid JSON.
pub uninterp spec fn json_of(s: Seq<char>) -> Option<Json>;

/// The document a `serde_json::Value` holds.
pub uninterp spec fn json_model(v: serde_json::Value) -> Json;

#[verifier::external_type_specification]
#[verifier::external_body]
pub struct ExValue(serde_json::Value);

/// Relies on serde_json::from_str::<Value>: parses the text as one JSON
/// document, failing exactly on invalid JSON.
#[verifier::external_body]
pub(crate) fn json_parse(s: &str) -> (r: Option<serde_json::Value>)
    ensures
        (r is Some) == (json_of(s@) is Some),
        r matches Some(v) ==> json_model(v) == json_of(s@)->0,
{
    serde_json::from_str::<serde_json::Value>(s).ok()
}

/// Relies on serde_json::Value::get with a string index: the field of an
/// object under the key, nothing on any other value.
#[verifier::external_body]
pub(crate) fn json_get<'a>(v: &'a serde_json::Value, key: &str) -> (r: Option<&'a serde_json::Value>)
    ensures
        match json_model(*v) {
            Json::Obj(m) => (r is Some) == m.dom().contains(key@) && (r matches Some(f)
                ==> json_model(*f) == m[key@]),
            _ => r is None,
        },
{
    v.get(key)
}

/// Relies on serde_json::Value::get with a usize index: the element of an
/// array at the index, nothing on any other value.
#[verifier::external_body]
pub(crate) fn json_at<'a>(v: &'a serde_json::Value, i: usize) -> (r: Option<&'a serde_json::Value>)
    ensures
        match json_model(*v) {
            Json::Arr(a) => (r is Some) == (i < a.len()) && (r matches Some(f) ==> json_model(*f)
                == a[i as int]),
            _ => r is None,
        },
{
    v.get(i)
}

/// Relies on serde_json::Value::as_str: the characters of a string value,
/// nothing on any other value.
#[verifier::external_body]
pub(crate) fn json_as_str(v: &serde_json::Value) -> (r: Option<String>)
    ensures
        match json_model(*v) {
            Json::Text(t) => r matches Some(s) && s@ == t,
            _ => r is None,
        },
{
    v.as_str().map(|s| s.to_string())
}

/// Relies on serde_json::Value::as_u64: the value of a number representable
/// as a u64, nothing on any other value.
#[verifier::external_body]
pub(crate) fn json_as_u64(v: &serde_json::Value) -> (r: Option<u64>)
    ensures
        match json_model(*v) {
            Json::UInt(n) => r == Some(n),
            _ => r is None,
        },
{
    v.as_u64()
}

} // verus!
