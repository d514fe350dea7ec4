//! The boundary to `serde_json`: what a parsed document holds, and the few
//! calls through which the crate reads one.
//!
//! Everything in this file that touches `serde_json` is believed, not proved.
//! The rest of the crate reasons about documents through `Json`, the
//! mathematical content of a `serde_json::Value`.

use vstd::prelude::*;

verus! {

/// The content of a JSON value. Numbers are not told apart: nothing in a
/// manifest that this crate reads is a number.
pub enum Json {
    Null,
    Bool(bool),
    Number,
    Text(Seq<char>),
    Array(Seq<Json>),
    Object(Map<Seq<char>, Json>),
}

/// `serde_json::Value`, a parsed JSON value. Nothing inside it is seen but
/// through the calls below.
#[verifier::external_type_specification]
#[verifier::external_body]
pub struct ExValue(serde_json::Value);

/// `serde_json::Error`, why a text could not be parsed. It is carried, never
/// read.
#[verifier::external_type_specification]
#[verifier::external_body]
pub struct ExError(serde_json::Error);

/// The content of a parsed value: its variant, the characters of a string,
/// the items of an array in order, the members of an object by key.
pub uninterp spec fn json_of(v: serde_json::Value) -> Json;

/// What `serde_json::from_slice::<Value>` makes of a text: the content of the
/// value it returns, or `None` where it returns an error.
pub uninterp spec fn json_document(bytes: Seq<u8>) -> Option<Json>;

/// The contents of the values of `items`, in order.
pub open spec fn items_of(items: Seq<serde_json::Value>) -> Seq<Json> {
    Seq::new(items.len(), |i: int| json_of(items[i]))
}

/// `serde_json::from_slice` with `Value` as its target. It returns a value for
/// exactly the texts that are one JSON document, and that value's content is
/// a function of the text alone.
#[verifier::external_body]
pub(crate) fn parse_document(bytes: &[u8]) -> (r: Result<serde_json::Value, serde_json::Error>)
    ensures
        match r {
            Ok(v) => json_document(bytes@) == Some(json_of(v)),
            Err(_) => json_document(bytes@) is None,
        },
{
    serde_json::from_slice::<serde_json::Value>(bytes)
}

/// `Value::as_str`: the string of a `Value::String`, `None` for every other
/// variant.
pub assume_specification[ serde_json::Value::as_str ](v: &serde_json::Value) -> (r: Option<&str>)
    ensures
        match r {
            Some(s) => json_of(*v) == Json::Text(s@),
            None => !(json_of(*v) is Text),
        },
;

/// `Value::as_array`: the vector of a `Value::Array`, `None` for every other
/// variant.
pub assume_specification[ serde_json::Value::as_array ](v: &serde_json::Value) -> (r: Option<
    &Vec<serde_json::Value>,
>)
    ensures
        match r {
            Some(items) => json_of(*v) == Json::Array(items_of(items@)),
            None => !(json_of(*v) is Array),
        },
;

/// `Value::is_null`: whether the value is `Value::Null`.
pub assume_specification[ serde_json::Value::is_null ](v: &serde_json::Value) -> (r: bool)
    ensures
        r == (json_of(*v) is Null),
;

/// `Value::is_object`: whether the value is `Value::Object`.
pub assume_specification[ serde_json::Value::is_object ](v: &serde_json::Value) -> (r: bool)
    ensures
        r == (json_of(*v) is Object),
;

/// `Value::get` with a string index: the member under `key` of an object,
/// `None` where the value is no object or has no such member.
#[verifier::external_body]
pub(crate) fn member<'a>(v: &'a serde_json::Value, key: &str) -> (r: Option<&'a serde_json::Value>)
    ensures
        match r {
            Some(m) => json_of(*v) matches Json::Object(members) && members.contains_key(key@)
                && members[key@] == json_of(*m),
            None => !(json_of(*v) matches Json::Object(members) && members.contains_key(key@)),
        },
{
    v.get(key)
}

} // verus!
