//! JSON values: `serde_json::Value`, seen through the tree that it holds.
use serde_json::Error as JsonError;
use serde_json::Value;
use vstd::prelude::*;

use crate::text::decimal;

verus! {

/// What a JSON value holds. A number is held as the text that it is written as.
pub enum Json {
    Null,
    Bool(bool),
    Number(Seq<char>),
    Text(Seq<char>),
    Array(Seq<Json>),
    Object(Map<Seq<char>, Json>),
}

/// `serde_json::Value`, a JSON value.
#[verifier::external_type_specification]
#[verifier::external_body]
pub struct ExValue(serde_json::Value);

/// `serde_json::Error`, why a text is no JSON value or a value could not be written.
#[verifier::external_type_specification]
#[verifier::external_body]
pub struct ExJsonError(JsonError);

/// The tree that a value holds.
pub uninterp spec fn contents(v: serde_json::Value) -> Json;

/// The tree that `serde_json::from_str` reads out of a text, if the text is JSON.
pub uninterp spec fn parsed(text: Seq<char>) -> Option<Json>;

/// The text that a value's `Display` writes: JSON without spaces or line breaks.
pub uninterp spec fn compact(j: Json) -> Seq<char>;

/// The text that `serde_json::to_string_pretty` writes, if it can write the value.
pub uninterp spec fn pretty(j: Json) -> Option<Seq<char>>;

/// The views of a list of values.
pub open spec fn items_of(s: Seq<serde_json::Value>) -> Seq<Json> {
    s.map_values(|v: serde_json::Value| contents(v))
}

/// `Value::clone`: the copy holds the same tree.
pub assume_specification[ <serde_json::Value as Clone>::clone ](v: &serde_json::Value) -> (r:
    serde_json::Value)
    ensures
        contents(r) == contents(*v),
;

/// `serde_json::from_str::<Value>` reads a JSON text; which texts it accepts, and what they hold,
/// depends on the text alone.
#[verifier::external_body]
pub(crate) fn parse(text: &str) -> (r: Result<Value, JsonError>)
    ensures
        match r {
            Ok(v) => parsed(text@) == Some(contents(v)),
            Err(_) => parsed(text@) is None,
        },
{
    serde_json::from_str::<Value>(text)
}

/// `Value::to_string` (its `Display`) writes a value without spaces or line breaks; the text
/// depends on the tree alone.
#[verifier::external_body]
pub(crate) fn to_compact(v: &Value) -> (r: String)
    ensures
        r@ == compact(contents(*v)),
{
    v.to_string()
}

/// `serde_json::to_string_pretty` writes a value with line breaks and indentation; whether it can
/// and the text depend on the tree alone.
#[verifier::external_body]
pub(crate) fn to_pretty(v: &Value) -> (r: Result<String, JsonError>)
    ensures
        match r {
            Ok(s) => pretty(contents(*v)) == Some(s@),
            Err(_) => pretty(contents(*v)) is None,
        },
{
    serde_json::to_string_pretty(v)
}

/// `Value::is_object`.
#[verifier::external_body]
pub(crate) fn is_object(v: &Value) -> (r: bool)
    ensures
        r == (contents(*v) is Object),
{
    v.is_object()
}

/// `Value::is_array`.
#[verifier::external_body]
pub(crate) fn is_array(v: &Value) -> (r: bool)
    ensures
        r == (contents(*v) is Array),
{
    v.is_array()
}

/// `Value::as_str`: the text of a string value, `None` for any other.
#[verifier::external_body]
pub(crate) fn as_text(v: &Value) -> (r: Option<&str>)
    ensures
        match r {
            Some(s) => contents(*v) == Json::Text(s@),
            None => !(contents(*v) is Text),
        },
{
    v.as_str()
}

/// `Value::get` with a string key: the member of an object under that key; `None` where there is
/// none or the value is no object.
#[verifier::external_body]
pub(crate) fn member<'a>(v: &'a Value, key: &str) -> (r: Option<&'a Value>)
    ensures
        match r {
            Some(x) => contents(*v) is Object && contents(*v)->Object_0.contains_key(key@)
                && contents(*x) == contents(*v)->Object_0[key@],
            None => !(contents(*v) is Object && contents(*v)->Object_0.contains_key(key@)),
        },
{
    v.get(key)
}

/// `Map::keys` of an object: every key of it, each once.
#[verifier::external_body]
pub(crate) fn keys(v: &Value) -> (r: Vec<String>)
    requires
        contents(*v) is Object,
    ensures
        forall|i: int|
            0 <= i < r@.len() ==> contents(*v)->Object_0.contains_key((#[trigger] r@[i])@),
        forall|k: Seq<char>| #[trigger]
            contents(*v)->Object_0.contains_key(k) ==> exists|i: int|
                0 <= i < r@.len() && (#[trigger] r@[i])@ == k,
        forall|i: int, j: int|
            0 <= i < j < r@.len() ==> (#[trigger] r@[i])@ != (#[trigger] r@[j])@,
{
    v.as_object().map(|m| m.keys().cloned().collect()).unwrap_or_default()
}

/// `Value::as_array` of an array: its length.
#[verifier::external_body]
pub(crate) fn array_len(v: &Value) -> (r: usize)
    requires
        contents(*v) is Array,
    ensures
        r == contents(*v)->Array_0.len(),
{
    v.as_array().map(|a| a.len()).unwrap_or_default()
}

/// `Value::get` with an index into an array: the item there, `None` past the end.
#[verifier::external_body]
pub(crate) fn item(v: &Value, i: usize) -> (r: Option<&Value>)
    requires
        contents(*v) is Array,
    ensures
        match r {
            Some(x) => i < contents(*v)->Array_0.len() && contents(*x)
                == contents(*v)->Array_0[i as int],
            None => i >= contents(*v)->Array_0.len(),
        },
{
    v.get(i)
}

/// `Value::Object` of an empty `Map`.
#[verifier::external_body]
pub(crate) fn new_object() -> (r: Value)
    ensures
        contents(r) == Json::Object(Map::empty()),
{
    Value::Object(serde_json::Map::new())
}

/// `Map::insert` into an object: the key holds the value, replacing what it held.
#[verifier::external_body]
pub(crate) fn insert(v: &mut Value, key: &str, x: Value)
    requires
        contents(*old(v)) is Object,
    ensures
        contents(*final(v)) == Json::Object(
            contents(*old(v))->Object_0.insert(key@, contents(x)),
        ),
{
    if let Some(m) = v.as_object_mut() {
        m.insert(key.to_owned(), x);
    }
}

/// `Value::Array` of the items.
#[verifier::external_body]
pub(crate) fn new_array(items: Vec<Value>) -> (r: Value)
    ensures
        contents(r) == Json::Array(items_of(items@)),
{
    Value::Array(items)
}

/// `Value::String` of the text.
#[verifier::external_body]
pub(crate) fn new_text(s: &str) -> (r: Value)
    ensures
        contents(r) == Json::Text(s@),
{
    Value::String(s.to_owned())
}

/// `Value::from` of an unsigned integer: the number, which is written in decimal.
#[verifier::external_body]
pub(crate) fn new_number(n: u64) -> (r: Value)
    ensures
        contents(r) == Json::Number(decimal(n as int)),
{
    Value::from(n)
}

/// `Value::Null`.
#[verifier::external_body]
pub(crate) fn new_null() -> (r: Value)
    ensures
        contents(r) == Json::Null,
{
    Value::Null
}

/// `Value::Bool`.
#[verifier::external_body]
pub(crate) fn new_bool(b: bool) -> (r: Value)
    ensures
        contents(r) == Json::Bool(b),
{
    Value::Bool(b)
}

} // verus!
