//! The JSON documents that the service exchanges, read through serde_json and
//! serde_json_path. A document is opaque here: the library only carries it,
//! picks members out of it, and reports which shapes it did not find.

use vstd::prelude::*;
use serde_json::Value;
use serde_json_path::{JsonPath, NodeList};

verus! {

#[verifier::external_type_specification]
#[verifier::external_body]
pub struct ExValue(serde_json::Value);

#[verifier::external_type_specification]
#[verifier::external_body]
pub struct ExJsonError(serde_json::Error);

#[verifier::external_type_specification]
#[verifier::external_body]
pub struct ExJsonPath(serde_json_path::JsonPath);

#[verifier::external_type_specification]
#[verifier::external_body]
pub struct ExPathError(serde_json_path::ParseError);

#[verifier::external_type_specification]
#[verifier::external_body]
pub struct ExNodeList<'a>(serde_json_path::NodeList<'a>);

/// The document that serde_json reads from a text, if the text is one JSON
/// document.
pub uninterp spec fn parsed(text: Seq<char>) -> Option<Value>;

/// The member stored under a key, if the value is an object that has one.
pub uninterp spec fn member_of(v: Value, key: Seq<char>) -> Option<Value>;

/// The elements of a value, if it is an array.
pub uninterp spec fn elements_of(v: Value) -> Option<Seq<Value>>;

/// The text of a value, if it is a string.
pub uninterp spec fn text_of(v: Value) -> Option<Seq<char>>;

/// The flag a value holds, if it is a boolean.
pub uninterp spec fn bool_of(v: Value) -> Option<bool>;

/// Relies on serde_json::from_str: parses a whole text as one JSON document;
/// the outcome depends on the text alone.
#[verifier::external_body]
pub(crate) fn parse_json(text: &str) -> (r: Result<Value, serde_json::Error>)
    ensures
        r is Ok <==> parsed(text@) is Some,
        r matches Ok(v) ==> parsed(text@) == Some(v),
{
    serde_json::from_str(text)
}

/// Relies on serde_json::Value::get: the member stored under `key` when `v`
/// is an object that has one.
#[verifier::external_body]
pub(crate) fn member<'a>(v: &'a Value, key: &str) -> (r: Option<&'a Value>)
    ensures
        r is Some <==> member_of(*v, key@) is Some,
        r matches Some(m) ==> member_of(*v, key@) == Some(*m),
{
    v.get(key)
}

/// Relies on serde_json::Value::as_array: the elements of `v`, in order, when
/// it is an array.
#[verifier::external_body]
pub(crate) fn array_elements(v: &Value) -> (r: Option<Vec<Value>>)
    ensures
        r is Some <==> elements_of(*v) is Some,
        r matches Some(e) ==> elements_of(*v) == Some(e@),
{
    v.as_array().cloned()
}

/// Relies on serde_json::Value::as_str: the text of `v` when it is a string.
#[verifier::external_body]
pub(crate) fn string_value(v: &Value) -> (r: Option<String>)
    ensures
        r is Some <==> text_of(*v) is Some,
        r matches Some(t) ==> text_of(*v) == Some(t@),
{
    v.as_str().map(|s| s.to_string())
}

/// Relies on serde_json::Value::as_bool: the flag `v` holds when it is a boolean.
#[verifier::external_body]
pub(crate) fn bool_value(v: &Value) -> (r: Option<bool>)
    ensures
        r == bool_of(*v),
{
    v.as_bool()
}

/// Relies on serde_json_path::JsonPath::parse: compiles a path expression.
#[verifier::external_body]
pub(crate) fn compile_path(expr: &str) -> (r: Result<JsonPath, serde_json_path::ParseError>) {
    JsonPath::parse(expr)
}

/// Relies on serde_json_path::JsonPath::query: the nodes that `path` selects
/// in `v`.
#[verifier::external_body]
pub(crate) fn select<'a>(path: &JsonPath, v: &'a Value) -> (r: NodeList<'a>) {
    path.query(v)
}

/// Relies on serde_json_path::NodeList::exactly_one: the only node of
/// `nodes`, when it holds exactly one.
#[verifier::external_body]
pub(crate) fn only_node(nodes: &NodeList<'_>) -> (r: Option<Value>) {
    nodes.exactly_one().ok().cloned()
}

} // verus!
