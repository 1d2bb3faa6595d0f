//! JSON values, as the `serde_json` crate holds them.
//!
//! A value is opaque here. Four names stand for what can be read from it: the
//! fields of an object, the items of an array, an integer and a string. Others
//! stand for the values that are made of plain ones, and for a value's text.

use serde_json::{Map as JsonMap, Value};
use vstd::prelude::*;

verus! {

/// `serde_json::Value`.
#[verifier::external_type_specification]
#[verifier::external_body]
pub struct ExValue(serde_json::Value);

/// `serde_json::Map`.
#[verifier::external_type_specification]
#[verifier::external_body]
#[verifier::reject_recursive_types(K)]
#[verifier::reject_recursive_types(V)]
pub struct ExMap<K, V>(serde_json::Map<K, V>);

/// The entries of a JSON object's map.
pub uninterp spec fn map_entries(map: serde_json::Map<String, Value>) -> Map<Seq<char>, Value>;

/// The fields of a value that is a JSON object.
pub uninterp spec fn object_fields(value: Value) -> Option<Map<Seq<char>, Value>>;

/// The items of a value that is a JSON array.
pub uninterp spec fn array_items(value: Value) -> Option<Seq<Value>>;

/// The integer of a value that is a JSON number that fits.
pub uninterp spec fn integer_of(value: Value) -> Option<i64>;

/// The text of a value that is a JSON string.
pub uninterp spec fn text_of(value: Value) -> Option<Seq<char>>;

/// The compact JSON text of a value.
pub uninterp spec fn json_text(value: Value) -> Seq<char>;

/// The JSON string with the text `text`.
pub uninterp spec fn text_value(text: Seq<char>) -> Value;

/// The JSON number `n`.
pub uninterp spec fn integer_value(n: i64) -> Value;

/// The JSON number `n`.
pub uninterp spec fn unsigned_value(n: u64) -> Value;

/// The JSON value `true` or `false`.
pub uninterp spec fn bool_value(b: bool) -> Value;

/// No entries.
pub open spec fn no_entries() -> Map<Seq<char>, Value> {
    Map::empty()
}

/// The value is `null`.
pub open spec fn is_null(value: Value) -> bool {
    json_text(value) == "null"@
}

/// The field `key` of a value that is an object and has it.
pub open spec fn field_of(value: Value, key: Seq<char>) -> Option<Value> {
    match object_fields(value) {
        Some(fields) if fields.contains_key(key) => Some(fields[key]),
        _ => None,
    }
}

/// `serde_json::Value::get` with a string key: the field of that name, where the
/// value is an object that has one.
#[verifier::external_body]
pub(crate) fn field<'a>(value: &'a Value, key: &str) -> (r: Option<&'a Value>)
    ensures
        r == (match field_of(*value, key@) {
            Some(v) => Some(&v),
            None => None,
        }),
{
    value.get(key)
}

/// `serde_json::Value::as_array`: the items, where the value is an array.
#[verifier::external_body]
pub(crate) fn items(value: &Value) -> (r: Option<&Vec<Value>>)
    ensures
        r is Some <==> array_items(*value) is Some,
        r matches Some(v) ==> v@ == array_items(*value)->0,
{
    value.as_array()
}

/// `serde_json::Value::as_i64`: the integer, where the value is a number that is
/// an integer in range.
#[verifier::external_body]
pub(crate) fn integer(value: &Value) -> (r: Option<i64>)
    ensures
        r == integer_of(*value),
{
    value.as_i64()
}

/// `serde_json::Value::as_str`: the text, where the value is a string.
#[verifier::external_body]
pub(crate) fn string(value: &Value) -> (r: Option<&str>)
    ensures
        r is Some <==> text_of(*value) is Some,
        r matches Some(s) ==> s@ == text_of(*value)->0,
{
    value.as_str()
}

/// `serde_json::Value::as_object_mut`: the map of an object, through which the
/// object's fields are changed; nothing where the value is no object.
#[verifier::external_body]
pub(crate) fn object_mut(value: &mut Value) -> (r: Option<&mut JsonMap<String, Value>>)
    ensures
        match r {
            Some(map) => {
                &&& object_fields(*old(value)) == Some(map_entries(*map))
                &&& object_fields(*final(value)) == Some(map_entries(*final(map)))
            },
            None => object_fields(*old(value)) is None && *final(value) == *old(value),
        },
{
    value.as_object_mut()
}

/// `serde_json::Map::insert`: sets one entry and keeps the others.
#[verifier::external_body]
pub(crate) fn insert(map: &mut JsonMap<String, Value>, key: &str, value: Value)
    ensures
        map_entries(*final(map)) == map_entries(*old(map)).insert(key@, value),
{
    map.insert(key.to_owned(), value);
}

/// `serde_json::Map::new`: a map without entries.
#[verifier::external_body]
pub(crate) fn empty_map() -> (r: JsonMap<String, Value>)
    ensures
        map_entries(r) == no_entries(),
{
    JsonMap::new()
}

/// `serde_json::Value::from` for a map: a JSON object with its entries.
#[verifier::external_body]
pub(crate) fn from_map(map: JsonMap<String, Value>) -> (r: Value)
    ensures
        object_fields(r) == Some(map_entries(map)),
{
    Value::from(map)
}

/// `serde_json::Value::from` for a vector: a JSON array of its items.
#[verifier::external_body]
pub(crate) fn from_items(items: Vec<Value>) -> (r: Value)
    ensures
        array_items(r) == Some(items@),
{
    Value::from(items)
}

/// `serde_json::Value::from` for a string: a JSON string with that text.
#[verifier::external_body]
pub(crate) fn from_text(text: &str) -> (r: Value)
    ensures
        r == text_value(text@),
        text_of(r) == Some(text@),
{
    Value::from(text)
}

/// `serde_json::Value::from` for an `i64`: a JSON number.
#[verifier::external_body]
pub(crate) fn from_integer(n: i64) -> (r: Value)
    ensures
        r == integer_value(n),
        integer_of(r) == Some(n),
{
    Value::from(n)
}

/// `serde_json::Value::from` for a `u64`: a JSON number.
#[verifier::external_body]
pub(crate) fn from_unsigned(n: u64) -> (r: Value)
    ensures
        r == unsigned_value(n),
        n <= i64::MAX ==> integer_of(r) == Some(n as i64),
{
    Value::from(n)
}

/// `serde_json::Value::from` for a `bool`: `true` or `false`.
#[verifier::external_body]
pub(crate) fn from_bool(b: bool) -> (r: Value)
    ensures
        r == bool_value(b),
        json_text(r) == (if b {
            "true"@
        } else {
            "false"@
        }),
{
    Value::from(b)
}

/// `serde_json::Value::from` for `()`: `null`.
#[verifier::external_body]
pub(crate) fn null() -> (r: Value)
    ensures
        is_null(r),
{
    Value::from(())
}

/// `serde_json::Value::to_string`: the value as compact JSON text, which has no line
/// feed: those within strings are escaped.
#[verifier::external_body]
pub(crate) fn to_text(value: &Value) -> (r: String)
    ensures
        r@ == json_text(*value),
        !r@.contains('\n'),
{
    value.to_string()
}

/// `serde_json::Value::clone`: an equal value.
#[verifier::external_body]
pub(crate) fn copy_of(value: &Value) -> (r: Value)
    ensures
        r == *value,
{
    value.clone()
}

/// The integer in the field `key`.
pub open spec fn integer_field(value: Value, key: Seq<char>) -> Option<i64> {
    match field_of(value, key) {
        Some(v) => integer_of(v),
        None => None,
    }
}

/// Reads the integer in the field `key`.
pub fn get_integer(value: &Value, key: &str) -> (r: Option<i64>)
    ensures
        r == integer_field(*value, key@),
{
    match field(value, key) {
        Some(v) => integer(v),
        None => None,
    }
}

/// The text in the field `key`.
pub open spec fn text_field(value: Value, key: Seq<char>) -> Option<Seq<char>> {
    match field_of(value, key) {
        Some(v) => text_of(v),
        None => None,
    }
}

/// Reads the text in the field `key`.
pub fn get_text<'a>(value: &'a Value, key: &str) -> (r: Option<&'a str>)
    ensures
        r is Some <==> text_field(*value, key@) is Some,
        r matches Some(s) ==> s@ == text_field(*value, key@)->0,
{
    match field(value, key) {
        Some(v) => string(v),
        None => None,
    }
}

/// A field is read where the value is an object that has it, and nowhere else.
pub proof fn fields_are_read_from_objects(value: Value, key: Seq<char>)
    ensures
        match object_fields(value) {
            Some(fields) => {
                &&& fields.contains_key(key) ==> {
                    &&& field_of(value, key) == Some(fields[key])
                    &&& integer_field(value, key) == integer_of(fields[key])
                    &&& text_field(value, key) == text_of(fields[key])
                }
                &&& !fields.contains_key(key) ==> {
                    &&& field_of(value, key) is None
                    &&& integer_field(value, key) is None
                    &&& text_field(value, key) is None
                }
            },
            None => {
                &&& field_of(value, key) is None
                &&& integer_field(value, key) is None
                &&& text_field(value, key) is None
            },
        },
{
}

} // verus!
