//! The trusted boundary to `serde_json`: the one crate call site for parsing
//! a JSON document and for reading the two fields the engine inspects.
//! Records themselves stay opaque `serde_json::Value`s and are carried
//! through unchanged. What each call returns depends on its arguments alone,
//! so the results bear names: whether a text parses as an array
//! (`json_parse_ok`), its elements (`json_elems`), an object's field
//! (`field_of`), and a value's text (`str_of`). The wrappers' contracts tie
//! the calls to those names; callers state their own success cases over them.
use vstd::prelude::*;

verus! {

#[verifier::external_type_specification]
#[verifier::external_body]
pub struct ExValue(serde_json::Value);

#[verifier::external_type_specification]
#[verifier::external_body]
pub struct ExJsonError(serde_json::Error);

/// Whether `s` parses as one JSON array; a function of the text alone.
pub uninterp spec fn json_parse_ok(s: Seq<char>) -> bool;

/// The elements of the JSON array that `s` parses as, in array order;
/// meaningful only where `json_parse_ok` holds.
pub uninterp spec fn json_elems(s: Seq<char>) -> Seq<serde_json::Value>;

/// The field of `v` under `key`: what `serde_json::Value::get` returns —
/// `None` unless `v` is an object with that key.
pub uninterp spec fn field_of(v: serde_json::Value, key: Seq<char>) -> Option<serde_json::Value>;

/// The text of `v`: what `serde_json::Value::as_str` returns — `None` unless
/// `v` is a JSON string.
pub uninterp spec fn str_of(v: serde_json::Value) -> Option<Seq<char>>;

/// The string field of `v` under `key`, when `v` is an object, the key is
/// there, and the field is a JSON string.
pub open spec fn json_str_field(v: serde_json::Value, key: Seq<char>) -> Option<Seq<char>> {
    match field_of(v, key) {
        Some(f) => str_of(f),
        None => None,
    }
}

/// Relies on serde_json::from_str::<Vec<Value>>: parses the text as one JSON
/// array and hands its elements back in order; any text that is not
/// well-formed JSON, or whose top level is not an array, is an error.
#[verifier::external_body]
pub(crate) fn parse_json_array(s: &str) -> (r: Result<Vec<serde_json::Value>, serde_json::Error>)
    ensures
        r is Ok <==> json_parse_ok(s@),
        r matches Ok(vs) ==> vs@ == json_elems(s@),
{
    serde_json::from_str::<Vec<serde_json::Value>>(s)
}

/// Relies on serde_json::Value::get: looks a key up when the value is a JSON
/// object; `None` when it is not an object or the key is absent.
#[verifier::external_body]
pub(crate) fn json_get<'a>(v: &'a serde_json::Value, key: &str) -> (r: Option<
    &'a serde_json::Value,
>)
    ensures
        match r {
            Some(f) => field_of(*v, key@) == Some(*f),
            None => field_of(*v, key@) is None,
        },
{
    v.get(key)
}

/// Relies on serde_json::Value::as_str: the contained text when the value is
/// a JSON string, `None` otherwise; the copy handed back is the caller's own.
#[verifier::external_body]
pub(crate) fn json_as_str(v: &serde_json::Value) -> (r: Option<String>)
    ensures
        match r {
            Some(t) => str_of(*v) == Some(t@),
            None => str_of(*v) is None,
        },
{
    v.as_str().map(|s| s.to_owned())
}

} // verus!
