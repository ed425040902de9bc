//! JSON values: what they hold, and how they are made and written with
//! `serde_json`.
use vstd::prelude::*;

use crate::text::decimal;

verus! {

/// A JSON value. The order of an object's members does not matter.
pub enum Json {
    Null,
    Bool(bool),
    Number(Seq<char>),
    Text(Seq<char>),
    List(Seq<Json>),
    Object(Map<Seq<char>, Json>),
}

/// A JSON value of `serde_json`.
#[verifier::external_type_specification]
#[verifier::external_body]
pub struct ExValue(serde_json::Value);

/// The members of a JSON object of `serde_json`.
#[verifier::external_type_specification]
#[verifier::external_body]
#[verifier::reject_recursive_types(K)]
#[verifier::reject_recursive_types(V)]
pub struct ExMap<K, V>(serde_json::Map<K, V>);

/// What a JSON value holds.
pub uninterp spec fn json_of(value: serde_json::Value) -> Json;

/// What the members of a JSON object hold.
pub uninterp spec fn members_of(object: serde_json::Map<String, serde_json::Value>) -> Map<
    Seq<char>,
    Json,
>;

/// What JSON values hold.
pub open spec fn jsons(values: Seq<serde_json::Value>) -> Seq<Json> {
    values.map_values(|v: serde_json::Value| json_of(v))
}

/// `serde_json::Map::get`: the value of a member, if it is there.
#[verifier::external_body]
pub(crate) fn get<'a>(object: &'a serde_json::Map<String, serde_json::Value>, key: &str) -> (r: Option<
    &'a serde_json::Value,
>)
    ensures
        match r {
            Some(v) => members_of(*object).contains_key(key@) && members_of(*object)[key@]
                == json_of(*v),
            None => !members_of(*object).contains_key(key@),
        },
{
    object.get(key)
}

/// `serde_json::Value::as_array`: the values of a list, if it is one.
#[verifier::external_body]
pub(crate) fn as_list(value: &serde_json::Value) -> (r: Option<&Vec<serde_json::Value>>)
    ensures
        match r {
            Some(list) => json_of(*value) == Json::List(jsons(list@)),
            None => !(json_of(*value) is List),
        },
{
    value.as_array()
}

/// `serde_json::Value::clone`: a copy of a value.
#[verifier::external_body]
pub(crate) fn copy(value: &serde_json::Value) -> (r: serde_json::Value)
    ensures
        json_of(r) == json_of(*value),
{
    value.clone()
}

/// `serde_json::Map::clone`: a copy of the members of an object.
#[verifier::external_body]
pub(crate) fn copy_object(object: &serde_json::Map<String, serde_json::Value>) -> (r: serde_json::Map<
    String,
    serde_json::Value,
>)
    ensures
        members_of(r) == members_of(*object),
{
    object.clone()
}

/// `serde_json::Map::insert`: sets a member, in place of the one of that name, if
/// there is one.
#[verifier::external_body]
pub(crate) fn insert(
    object: &mut serde_json::Map<String, serde_json::Value>,
    key: &str,
    value: serde_json::Value,
)
    ensures
        members_of(*final(object)) == members_of(*old(object)).insert(key@, json_of(value)),
{
    object.insert(key.to_string(), value);
}

/// `serde_json::Map::remove`: takes a member out, if it is there.
#[verifier::external_body]
pub(crate) fn remove(object: &mut serde_json::Map<String, serde_json::Value>, key: &str)
    ensures
        members_of(*final(object)) == members_of(*old(object)).remove(key@),
{
    object.remove(key);
}

/// `serde_json::Value::Array`: a list of values.
#[verifier::external_body]
pub(crate) fn list_value(list: Vec<serde_json::Value>) -> (r: serde_json::Value)
    ensures
        json_of(r) == Json::List(jsons(list@)),
{
    serde_json::Value::Array(list)
}

/// `serde_json::Value::Object`: an object with these members.
#[verifier::external_body]
pub(crate) fn object_value(object: serde_json::Map<String, serde_json::Value>) -> (r: serde_json::Value)
    ensures
        json_of(r) == Json::Object(members_of(object)),
{
    serde_json::Value::Object(object)
}

/// No members.
pub open spec fn no_members() -> Map<Seq<char>, Json> {
    Map::empty()
}

/// `serde_json::Map::new`: an object without members.
#[verifier::external_body]
pub(crate) fn new_object() -> (r: serde_json::Map<String, serde_json::Value>)
    ensures
        members_of(r) == no_members(),
{
    serde_json::Map::new()
}

/// `serde_json::Value::String`: a text.
#[verifier::external_body]
pub(crate) fn text_value(text: &str) -> (r: serde_json::Value)
    ensures
        json_of(r) == Json::Text(text@),
{
    serde_json::Value::String(text.to_string())
}

/// `serde_json::Value::from` a `u64`: a number.
#[verifier::external_body]
pub(crate) fn number_value(n: u64) -> (r: serde_json::Value)
    ensures
        json_of(r) == Json::Number(decimal(n as nat)),
{
    serde_json::Value::from(n)
}

/// A JSON value written on one line.
pub uninterp spec fn compact_text(value: Json) -> Seq<char>;

/// A JSON value written over several lines, with indentation.
pub uninterp spec fn pretty_text(value: Json) -> Seq<char>;

/// `serde_json::Value::to_string`: the value written on one line. Members are
/// written in the order of their names, so the text depends on what the value
/// holds alone.
#[verifier::external_body]
pub(crate) fn write_compact(value: &serde_json::Value) -> (r: String)
    ensures
        r@ == compact_text(json_of(*value)),
{
    value.to_string()
}

/// `serde_json::Value` in its alternate format, as `serde_json::to_string_pretty`
/// writes it: the value written over several lines. The text depends on what the
/// value holds alone.
#[verifier::external_body]
pub(crate) fn write_pretty(value: &serde_json::Value) -> (r: String)
    ensures
        r@ == pretty_text(json_of(*value)),
{
    format!("{value:#}")
}

}
