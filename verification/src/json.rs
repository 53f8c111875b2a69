//! The JSON side of the converter: a mathematical model of JSON values and
//! the contracts under which the library uses `serde_json`.
//!
//! `serde_json` is built with its `preserve_order` feature, so the entries of
//! an object keep the order in which they were inserted or read.
//!
//! Nothing in this module is proved. The uninterpreted functions name what
//! `serde_json` holds or computes, and the contracts of the items below say
//! how its functions relate to those names.

use crate::entries::{entry_keys, lookup, with_entry};
use vstd::prelude::*;

verus! {

/// `serde_json::Value`. What a value holds is known through `value_view`.
#[verifier::external_type_specification]
#[verifier::external_body]
pub struct ExValue(serde_json::Value);

/// `serde_json::Map`. What a map from strings to values holds is known
/// through `object_entries`.
#[verifier::external_type_specification]
#[verifier::external_body]
#[verifier::reject_recursive_types(K)]
#[verifier::reject_recursive_types(V)]
pub struct ExObject<K, V>(serde_json::Map<K, V>);

/// `serde_json::Error`, which the library hands on without looking into
/// it.
#[verifier::external_type_specification]
#[verifier::external_body]
pub struct ExJsonError(serde_json::Error);

/// The content of a JSON value.
///
/// A number is held as the text that `serde_json` prints for it, which is
/// all the converter ever reads of a number. An object is the sequence of
/// its entries in order.
pub enum Json {
    Null,
    Bool(bool),
    Number(Seq<char>),
    String(Seq<char>),
    Array(Seq<Json>),
    Object(Seq<(Seq<char>, Json)>),
}

/// The content of a `serde_json::Value`.
pub uninterp spec fn value_view(v: serde_json::Value) -> Json;

/// The entries of a `serde_json::Map`, in the map's order.
pub uninterp spec fn object_entries(m: serde_json::Map<String, serde_json::Value>) -> Seq<(Seq<char>, Json)>;

/// What `serde_json::from_reader` reads from a byte string as a
/// `serde_json::Value`: the content of the value, or `None` where it reports
/// an error.
pub uninterp spec fn json_decode(input: Seq<u8>) -> Option<Json>;

/// The compact text that `serde_json` prints for a value through `Display`.
pub uninterp spec fn json_text(v: Json) -> Seq<char>;

/// The bytes that `serde_json::to_writer_pretty` writes for a value, or
/// `None` where it reports an error.
pub uninterp spec fn json_pretty(v: Json) -> Option<Seq<u8>>;

/// The contents of a sequence of values.
pub open spec fn views(items: Seq<serde_json::Value>) -> Seq<Json> {
    items.map_values(|v: serde_json::Value| value_view(v))
}

/// `Value::as_array` gives the items of an array and `None` for every other
/// value.
pub assume_specification[ serde_json::Value::as_array ](v: &serde_json::Value) -> (r: Option<&Vec<serde_json::Value>>)
    ensures
        match r {
            Some(items) => value_view(*v) == Json::Array(views(items@)),
            None => !(value_view(*v) is Array),
        },
;

/// `Value::as_object` gives the map of an object and `None` for every other
/// value.
pub assume_specification[ serde_json::Value::as_object ](v: &serde_json::Value) -> (r: Option<&serde_json::Map<String, serde_json::Value>>)
    ensures
        match r {
            Some(m) => value_view(*v) == Json::Object(object_entries(*m)),
            None => !(value_view(*v) is Object),
        },
;

/// `Value::as_str` gives the text of a string and `None` for every other
/// value.
pub assume_specification[ serde_json::Value::as_str ](v: &serde_json::Value) -> (r: Option<&str>)
    ensures
        match r {
            Some(s) => value_view(*v) == Json::String(s@),
            None => !(value_view(*v) is String),
        },
;

/// `Value::is_null` tells whether the value is `null`.
pub assume_specification[ serde_json::Value::is_null ](v: &serde_json::Value) -> (r: bool)
    ensures
        r == (value_view(*v) is Null),
;

/// `Map::new` makes a map without entries.
pub assume_specification[ serde_json::Map::<String, serde_json::Value>::new ]() -> (m: serde_json::Map<String, serde_json::Value>)
    ensures
        object_entries(m) == Seq::<(Seq<char>, Json)>::empty(),
;

/// `Map::insert` stores the value under the key as `with_entry` says, and
/// returns the value that the key had before.
pub assume_specification[ serde_json::Map::<String, serde_json::Value>::insert ](
    m: &mut serde_json::Map<String, serde_json::Value>,
    k: String,
    v: serde_json::Value,
) -> (r: Option<serde_json::Value>)
    ensures
        object_entries(*final(m)) == with_entry(object_entries(*old(m)), k@, value_view(v)),
        match r {
            Some(before) => lookup(object_entries(*old(m)), k@) == Some(value_view(before)),
            None => lookup(object_entries(*old(m)), k@) is None,
        },
;

/// `Map::get` with a `String` key: the value stored under the key, if any.
#[verifier::external_body]
pub(crate) fn object_get<'a>(m: &'a serde_json::Map<String, serde_json::Value>, key: &String) -> (r: Option<&'a serde_json::Value>)
    ensures
        match r {
            Some(v) => lookup(object_entries(*m), key@) == Some(value_view(*v)),
            None => lookup(object_entries(*m), key@) is None,
        },
{
    m.get(key)
}

/// `Map::keys`, collected: the keys of the map in its order.
#[verifier::external_body]
pub(crate) fn object_keys(m: &serde_json::Map<String, serde_json::Value>) -> (keys: Vec<String>)
    ensures
        keys.deep_view() == entry_keys(object_entries(*m)),
{
    m.keys().cloned().collect()
}

/// The variant `Value::String`.
#[verifier::external_body]
pub(crate) fn string_value(s: String) -> (v: serde_json::Value)
    ensures
        value_view(v) == Json::String(s@),
{
    serde_json::Value::String(s)
}

/// The variant `Value::Array`.
#[verifier::external_body]
pub(crate) fn array_value(items: Vec<serde_json::Value>) -> (v: serde_json::Value)
    ensures
        value_view(v) == Json::Array(views(items@)),
{
    serde_json::Value::Array(items)
}

/// The variant `Value::Object`.
#[verifier::external_body]
pub(crate) fn object_value(m: serde_json::Map<String, serde_json::Value>) -> (v: serde_json::Value)
    ensures
        value_view(v) == Json::Object(object_entries(m)),
{
    serde_json::Value::Object(m)
}

/// `Value::to_string`, which prints the value through `Display` in compact
/// form: `true` and `false` for the booleans, and for a number the text by
/// which the model holds it.
#[verifier::external_body]
pub(crate) fn compact_text(v: &serde_json::Value) -> (s: String)
    ensures
        s@ == json_text(value_view(*v)),
        value_view(*v) == Json::Bool(true) ==> s@ == "true"@,
        value_view(*v) == Json::Bool(false) ==> s@ == "false"@,
        value_view(*v) matches Json::Number(text) ==> s@ == text,
{
    v.to_string()
}

/// `serde_json::from_reader` on a byte string, read as a
/// `serde_json::Value`.
#[verifier::external_body]
pub(crate) fn read_value(input: &[u8]) -> (r: Result<serde_json::Value, serde_json::Error>)
    ensures
        match r {
            Ok(v) => json_decode(input@) == Some(value_view(v)),
            Err(_) => json_decode(input@) is None,
        },
{
    serde_json::from_reader(input)
}

/// `serde_json::to_writer_pretty` into a byte vector.
#[verifier::external_body]
pub(crate) fn write_pretty(v: &serde_json::Value) -> (r: Result<Vec<u8>, serde_json::Error>)
    ensures
        match r {
            Ok(bytes) => json_pretty(value_view(*v)) == Some(bytes@),
            Err(_) => json_pretty(value_view(*v)) is None,
        },
{
    let mut bytes: Vec<u8> = Vec::new();
    serde_json::to_writer_pretty(&mut bytes, v)?;
    Ok(bytes)
}

} // verus!
