//! A mathematical model of JSON documents, and the few operations of
//! `serde_json::Value` that the library reads answers with.

use vstd::prelude::*;
use vstd::string::*;
use crate::binary64::Binary64;
use crate::error::MyError;

verus! {

/// `serde_json::Value`, read only through the functions below.
#[verifier::external_type_specification]
#[verifier::external_body]
pub struct ExValue(serde_json::Value);

/// A JSON document as a mathematical value.
///
/// A number is modelled by the binary64 that it converts to; an object by the
/// map from its keys to its members.
pub ghost enum Json {
    Null,
    Bool(bool),
    Number(Binary64),
    Text(Seq<char>),
    List(Seq<Json>),
    Record(Map<Seq<char>, Json>),
}

impl Json {
    /// The member under `key`, or `Null` where `self` is no object or has no
    /// such key.
    pub open spec fn member(self, key: Seq<char>) -> Json {
        match self {
            Json::Record(members) => if members.contains_key(key) {
                members[key]
            } else {
                Json::Null
            },
            _ => Json::Null,
        }
    }

    /// The element at `index`, or `Null` where `self` is no array or is too
    /// short.
    pub open spec fn element(self, index: int) -> Json {
        match self {
            Json::List(elements) => if 0 <= index < elements.len() {
                elements[index]
            } else {
                Json::Null
            },
            _ => Json::Null,
        }
    }

    /// The number that `self` is, if it is one.
    pub open spec fn number(self) -> Option<Binary64> {
        match self {
            Json::Number(x) => Some(x),
            _ => None,
        }
    }

    /// The characters of the string that `self` is, if it is one.
    pub open spec fn text(self) -> Option<Seq<char>> {
        match self {
            Json::Text(chars) => Some(chars),
            _ => None,
        }
    }
}

/// The document that a `serde_json::Value` holds.
pub uninterp spec fn json_of(value: serde_json::Value) -> Json;

/// `value[key]` of `serde_json`: indexing by a string gives the member of an
/// object under that key, and a reference to a null value where there is none
/// or `value` is no object. It does not panic.
#[verifier::external_body]
pub(crate) fn member<'a>(value: &'a serde_json::Value, key: &str) -> (found:
    &'a serde_json::Value)
    ensures
        json_of(*found) == json_of(*value).member(key@),
{
    &value[key]
}

/// `value[index]` of `serde_json`: indexing by a `usize` gives the element of
/// an array at that place, and a reference to a null value where the array is
/// too short or `value` is no array. It does not panic.
#[verifier::external_body]
pub(crate) fn element<'a>(value: &'a serde_json::Value, index: usize) -> (found:
    &'a serde_json::Value)
    ensures
        json_of(*found) == json_of(*value).element(index as int),
{
    &value[index]
}

/// `Value::as_f64` of `serde_json`, with the float handed on by its bits:
/// every number converts to a binary64, and nothing else does.
#[verifier::external_body]
pub(crate) fn number(value: &serde_json::Value) -> (found: Option<Binary64>)
    ensures
        found == json_of(*value).number(),
{
    value.as_f64().map(|x| Binary64 { bits: x.to_bits() })
}

/// `Value::as_str` of `serde_json`: the string slice of a string value, and
/// nothing for any other value.
#[verifier::external_body]
pub(crate) fn text<'a>(value: &'a serde_json::Value) -> (chars: Option<&'a str>)
    ensures
        match chars {
            Some(s) => json_of(*value).text() == Some(s@),
            None => json_of(*value).text() is None,
        },
{
    value.as_str()
}

/// What `required_number` returns for a document: its number, or the error
/// that carries `message`.
pub open spec fn number_or_missing(
    document: Json,
    message: Seq<char>,
    outcome: Result<Binary64, MyError>,
) -> bool {
    match document.number() {
        Some(x) => outcome == Ok::<Binary64, MyError>(x),
        None => outcome matches Err(MyError::MissingField(text)) && text@ == message,
    }
}

/// Reads a value as a number, and reports with `message` a value that is
/// none.
pub fn required_number(value: &serde_json::Value, message: &str) -> (outcome: Result<
    Binary64,
    MyError,
>)
    ensures
        number_or_missing(json_of(*value), message@, outcome),
{
    match number(value) {
        Some(x) => Ok(x),
        None => Err(MyError::MissingField(String::from_str(message))),
    }
}

/// What `required_text` returns for a document: its string, or the error
/// that carries `message`.
pub open spec fn text_or_missing(
    document: Json,
    message: Seq<char>,
    outcome: Result<String, MyError>,
) -> bool {
    match document.text() {
        Some(chars) => outcome matches Ok(found) && found@ == chars,
        None => outcome matches Err(MyError::MissingField(text)) && text@ == message,
    }
}

/// Reads a value as a string, and reports with `message` a value that is
/// none.
pub fn required_text(value: &serde_json::Value, message: &str) -> (outcome: Result<
    String,
    MyError,
>)
    ensures
        text_or_missing(json_of(*value), message@, outcome),
{
    match text(value) {
        Some(found) => Ok(String::from_str(found)),
        None => Err(MyError::MissingField(String::from_str(message))),
    }
}

} // verus!
