//! JSON documents as the library reads them, parsed and printed by `serde_json`.
//!
//! `serde_json` keeps an object's entries ordered by key; [`JsonValue::Object`] holds them in
//! that order. A number keeps its printed form and, when it is an integer in range, its `i64`
//! value.
use vstd::prelude::*;

verus! {

#[derive(Debug, Clone, PartialEq, Eq)]
pub struct JsonNumber {
    /// The number as `serde_json` prints it.
    pub text: String,
    /// `Number::as_i64`.
    pub as_i64: Option<i64>,
}

#[derive(Debug)]
pub enum JsonValue {
    Null,
    Bool(bool),
    Number(JsonNumber),
    String(String),
    Array(Vec<JsonValue>),
    Object(Vec<(String, JsonValue)>),
}

/// `serde_json`'s own document type, carried only between the two conversions below.
#[verifier::external_type_specification]
#[verifier::external_body]
pub struct ExSerdeValue(serde_json::Value);

/// What `serde_json::from_str::<Value>` makes of `text`: the document, or the text of the
/// error that it reports.
pub uninterp spec fn json_parse_outcome(text: Seq<char>) -> Result<JsonValue, Seq<char>>;

/// The document that `text` holds, or `None` when `serde_json` reports an error.
pub open spec fn json_parse(text: Seq<char>) -> Option<JsonValue> {
    match json_parse_outcome(text) {
        Ok(v) => Some(v),
        Err(_) => None,
    }
}

/// What `serde_json::to_string` prints for a value.
pub uninterp spec fn json_text(value: JsonValue) -> Seq<char>;

/// Parses `text` with `serde_json::from_str::<serde_json::Value>`: the parsed document, or the
/// error's text (its `Display` form) when `serde_json` reports one.
#[verifier::external_body]
pub(crate) fn parse_json_outcome(text: &str) -> (res: Result<JsonValue, String>)
    ensures
        match res {
            Ok(v) => json_parse_outcome(text@) == Ok::<JsonValue, Seq<char>>(v),
            Err(e) => json_parse_outcome(text@) == Err::<JsonValue, Seq<char>>(e@),
        },
{
    match serde_json::from_str::<serde_json::Value>(text) {
        Ok(v) => Ok(from_serde(&v)),
        Err(e) => Err(e.to_string()),
    }
}

/// The document that `text` holds, or `None` when it is not JSON.
pub fn parse_json(text: &str) -> (res: Option<JsonValue>)
    ensures
        res == json_parse(text@),
{
    match parse_json_outcome(text) {
        Ok(v) => Some(v),
        Err(_) => None,
    }
}

/// Prints a value with `serde_json::to_string` (which cannot fail on a `Value`).
#[verifier::external_body]
pub(crate) fn to_json_text(value: &JsonValue) -> (res: String)
    ensures
        res@ == json_text(*value),
{
    serde_json::to_string(&to_serde(value)).unwrap_or_default()
}

/// Moves a `serde_json::Value` into a [`JsonValue`], variant by variant.
#[verifier::external_body]
fn from_serde(value: &serde_json::Value) -> JsonValue {
    match value {
        serde_json::Value::Null => JsonValue::Null,
        serde_json::Value::Bool(b) => JsonValue::Bool(*b),
        serde_json::Value::Number(n) => JsonValue::Number(
            JsonNumber { text: n.to_string(), as_i64: n.as_i64() },
        ),
        serde_json::Value::String(s) => JsonValue::String(s.clone()),
        serde_json::Value::Array(items) => JsonValue::Array(items.iter().map(from_serde).collect()),
        serde_json::Value::Object(map) => JsonValue::Object(
            map.iter().map(|(k, v)| (k.clone(), from_serde(v))).collect(),
        ),
    }
}

/// Moves a [`JsonValue`] back into a `serde_json::Value`, variant by variant.
#[verifier::external_body]
fn to_serde(value: &JsonValue) -> serde_json::Value {
    match value {
        JsonValue::Null => serde_json::Value::Null,
        JsonValue::Bool(b) => serde_json::Value::Bool(*b),
        JsonValue::Number(n) => serde_json::from_str(&n.text).unwrap_or(serde_json::Value::Null),
        JsonValue::String(s) => serde_json::Value::String(s.clone()),
        JsonValue::Array(items) => serde_json::Value::Array(items.iter().map(to_serde).collect()),
        JsonValue::Object(entries) => serde_json::Value::Object(
            entries.iter().map(|(k, v)| (k.clone(), to_serde(v))).collect(),
        ),
    }
}

impl JsonValue {
    pub open spec fn is_object(self) -> bool {
        self is Object
    }

    pub fn is_object_exec(&self) -> (res: bool)
        ensures
            res == self.is_object(),
    {
        match self {
            JsonValue::Object(_) => true,
            _ => false,
        }
    }
}

} // verus!
