//! The boundary to `serde_json`: the JSON types this library carries around,
//! their mathematical model, and the calls into the parser and the printer.

use serde_json::Map as JsonMap;
use serde_json::Value;
use vstd::prelude::*;

verus! {

/// A JSON object as the parser hands it out: string keys, JSON values.
pub type SerdeObject = JsonMap<String, Value>;

/// The mathematical model of a JSON document.
///
/// A number is modelled by the decimal text that it is printed as; an
/// object by the finite map from its keys to the models of its values.
pub ghost enum Json {
    Null,
    Bool(bool),
    Number(Seq<char>),
    Text(Seq<char>),
    Array(Seq<Json>),
    Object(Map<Seq<char>, Json>),
}

#[verifier::external_type_specification]
#[verifier::external_body]
pub struct ExValue(serde_json::Value);

#[verifier::external_type_specification]
#[verifier::external_body]
#[verifier::reject_recursive_types(K)]
#[verifier::reject_recursive_types(V)]
pub struct ExJsonMap<K, V>(serde_json::Map<K, V>);

#[verifier::external_type_specification]
#[verifier::external_body]
pub struct ExJsonError(serde_json::Error);

/// What `serde_json::from_str` makes of a text: the document it denotes, or
/// the diagnostic of the first fault the parser finds in it.
pub uninterp spec fn json_parse(text: Seq<char>) -> Result<Json, Seq<char>>;

/// The compact text that `serde_json` prints for a document: no white
/// space, and the entries of an object in the order of their keys, which is
/// the order in which the map of this build keeps them.
pub uninterp spec fn json_text(doc: Json) -> Seq<char>;

/// The document that a `serde_json::Value` holds.
pub uninterp spec fn value_model(value: Value) -> Json;

/// The entries that a `serde_json::Map` holds, each value by its document.
pub uninterp spec fn object_model(object: SerdeObject) -> Map<Seq<char>, Json>;

/// The diagnostic that a `serde_json::Error` displays.
pub uninterp spec fn error_text(error: serde_json::Error) -> Seq<char>;

/// Calls `serde_json::from_str` for a `Value`. The parser is a function of
/// the text alone: it returns the document named by `json_parse`, or the
/// error whose diagnostic `json_parse` names.
#[verifier::external_body]
pub(crate) fn parse_value(text: &str) -> (res: Result<Value, serde_json::Error>)
    ensures
        match res {
            Ok(value) => json_parse(text@) == Ok::<Json, Seq<char>>(value_model(value)),
            Err(error) => json_parse(text@) == Err::<Json, Seq<char>>(error_text(error)),
        },
{
    serde_json::from_str::<Value>(text)
}

/// Calls `to_string` on a `serde_json::Error`, which displays its
/// diagnostic.
#[verifier::external_body]
pub(crate) fn error_message(error: &serde_json::Error) -> (res: String)
    ensures
        res@ == error_text(*error),
{
    error.to_string()
}

/// Tells `Value::Object` from the other variants of `serde_json::Value` and
/// moves the map out; any other value comes back untouched.
#[verifier::external_body]
pub(crate) fn into_object(value: Value) -> (res: Result<SerdeObject, Value>)
    ensures
        match res {
            Ok(object) => value_model(value) == Json::Object(object_model(object)),
            Err(other) => other == value && !(value_model(value) is Object),
        },
{
    match value {
        Value::Object(object) => Ok(object),
        other => Err(other),
    }
}

/// Calls `Value::as_object`: the map inside an object, `None` for any other
/// value.
#[verifier::external_body]
pub(crate) fn as_object(value: &Value) -> (res: Option<&SerdeObject>)
    ensures
        match res {
            Some(object) => value_model(*value) == Json::Object(object_model(*object)),
            None => !(value_model(*value) is Object),
        },
{
    value.as_object()
}

/// Calls `Map::get`: the value stored under `key`, `None` where the map has
/// no such key.
#[verifier::external_body]
pub(crate) fn object_get<'a>(object: &'a SerdeObject, key: &str) -> (res: Option<&'a Value>)
    ensures
        match res {
            Some(value) => object_model(*object).contains_key(key@)
                && object_model(*object)[key@] == value_model(*value),
            None => !object_model(*object).contains_key(key@),
        },
{
    object.get(key)
}

/// Calls `Map::contains_key`.
#[verifier::external_body]
pub(crate) fn object_has_key(object: &SerdeObject, key: &str) -> (res: bool)
    ensures
        res == object_model(*object).contains_key(key@),
{
    object.contains_key(key)
}

/// Calls `clone` on a `serde_json::Map`: the copy holds the same entries.
#[verifier::external_body]
pub(crate) fn clone_object(object: &SerdeObject) -> (res: SerdeObject)
    ensures
        object_model(res) == object_model(*object),
{
    object.clone()
}

/// Calls `to_string` on a `serde_json::Value`, which prints the document in
/// the compact form. The text depends on the document alone.
#[verifier::external_body]
pub(crate) fn value_text(value: &Value) -> (res: String)
    ensures
        res@ == json_text(value_model(*value)),
{
    value.to_string()
}

} // verus!
