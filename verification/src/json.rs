//! JSON values, as the configuration takes them from environment
//! variables: parsed with serde_json and copied into the library's type.
//! Numbers are kept as the text that serde_json prints for them.

use vstd::prelude::*;

verus! {

/// serde_json's value type, carried through opaquely.
#[verifier::external_type_specification]
#[verifier::external_body]
pub struct ExSerdeJsonValue(serde_json::Value);

/// A JSON value.
#[derive(Debug, PartialEq)]
pub enum JsonValue {
    /// `null`.
    Null,
    /// `true` or `false`.
    Bool(bool),
    /// A number, as serde_json prints it.
    Number(String),
    /// A string.
    Str(String),
    /// An array.
    Array(Vec<JsonValue>),
    /// An object, as its entries in serde_json's order.
    Object(Vec<(String, JsonValue)>),
}

/// A JSON value as a mathematical value.
pub enum JsonView {
    Null,
    Bool(bool),
    Number(Seq<char>),
    Str(Seq<char>),
    Array(Seq<JsonView>),
    Object(Seq<(Seq<char>, JsonView)>),
}

/// The view of a value.
pub open spec fn json_view(v: JsonValue) -> JsonView
    decreases v, 1nat,
{
    match v {
        JsonValue::Null => JsonView::Null,
        JsonValue::Bool(b) => JsonView::Bool(b),
        JsonValue::Number(n) => JsonView::Number(n@),
        JsonValue::Str(s) => JsonView::Str(s@),
        JsonValue::Array(a) => JsonView::Array(json_views(a@)),
        JsonValue::Object(o) => JsonView::Object(json_entries(o@)),
    }
}

/// The views of values.
pub open spec fn json_views(s: Seq<JsonValue>) -> Seq<JsonView>
    decreases s, 0nat,
{
    if s.len() == 0 {
        seq![]
    } else {
        let i = s.len() - 1;
        json_views(s.subrange(0, i)).push(json_view(s[i]))
    }
}

/// The views of the entries of an object.
pub open spec fn json_entries(s: Seq<(String, JsonValue)>) -> Seq<(Seq<char>, JsonView)>
    decreases s, 0nat,
{
    if s.len() == 0 {
        seq![]
    } else {
        let i = s.len() - 1;
        json_entries(s.subrange(0, i)).push((s[i].0@, json_view(s[i].1)))
    }
}

/// The view of an optional value.
pub open spec fn opt_json(o: Option<JsonValue>) -> Option<JsonView> {
    match o {
        Some(v) => Some(json_view(v)),
        None => None,
    }
}

/// What `serde_json::from_str::<serde_json::Value>` gives for a text:
/// `None` where it reports an error.
pub uninterp spec fn json_value(s: Seq<char>) -> Option<JsonView>;

/// Parses a text as JSON with `serde_json::from_str` into a
/// `serde_json::Value` and copies it; the contract names the result
/// (`json_value`).
#[verifier::external_body]
pub(crate) fn parse_json(s: &str) -> (r: Option<JsonValue>)
    ensures
        opt_json(r) == json_value(s@),
{
    serde_json::from_str::<serde_json::Value>(s).ok().map(json_of)
}

/// A serde_json value as the library's value.
#[verifier::external_body]
fn json_of(v: serde_json::Value) -> JsonValue {
    match v {
        serde_json::Value::Null => JsonValue::Null,
        serde_json::Value::Bool(b) => JsonValue::Bool(b),
        serde_json::Value::Number(n) => JsonValue::Number(n.to_string()),
        serde_json::Value::String(s) => JsonValue::Str(s),
        serde_json::Value::Array(a) => JsonValue::Array(a.into_iter().map(json_of).collect()),
        serde_json::Value::Object(o) => JsonValue::Object(o.into_iter().map(|(k, v)| (k, json_of(v))).collect()),
    }
}

} // verus!
