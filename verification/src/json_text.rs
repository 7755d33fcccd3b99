//! JSON text: reading bytes into a [`Json`] value and writing a value as
//! text, both done by `serde_json`.
//!
//! What `serde_json` reads and writes is named here, not restated: a read is
//! [`json_parse_of`] of the bytes, a write [`json_text_of`] or
//! [`json_pretty_text_of`] of the value.
use vstd::prelude::*;

use serde_json::Value;

use crate::error::LspzError;
use crate::json::{Json, JsonV};

verus! {

#[verifier::external_type_specification]
#[verifier::external_body]
pub struct ExSerdeValue(serde_json::Value);

/// What `serde_json::from_slice` reads from bytes: the value, or the text of
/// the parser's error.
pub uninterp spec fn json_parse_of(b: Seq<u8>) -> Result<JsonV, Seq<char>>;

/// The compact JSON text that `serde_json` writes of a value.
pub uninterp spec fn json_text_of(v: JsonV) -> Seq<char>;

/// The indented JSON text that `serde_json::to_string_pretty` writes of a
/// value.
pub uninterp spec fn json_pretty_text_of(v: JsonV) -> Seq<char>;

/// A `serde_json` value as a library value, variant by variant: integers in
/// the range of `i64` as `Int`, larger ones as `UInt`, other numbers by their
/// text. The conversion half of [`json_from_slice`]; it promises nothing of
/// its own.
#[verifier::external_body]
fn json_of_value(v: &Value) -> Json {
    match v {
        Value::Null => Json::Null,
        Value::Bool(b) => Json::Bool(*b),
        Value::Number(n) => match (n.as_i64(), n.as_u64()) {
            (Some(i), _) => Json::Int(i),
            (None, Some(u)) => Json::UInt(u),
            (None, None) => Json::Float(n.to_string()),
        },
        Value::String(s) => Json::Str(s.clone()),
        Value::Array(a) => Json::Array(a.iter().map(json_of_value).collect()),
        Value::Object(o) => Json::Object(o.iter().map(|(k, x)| (k.clone(), json_of_value(x))).collect()),
    }
}

/// A library value as a `serde_json` value, variant by variant; a number held
/// by its text is read back with `serde_json`, and becomes `null` when that
/// text is not a JSON number. The conversion half of
/// [`json_text`] and [`json_pretty_text`]; it promises nothing of its own.
#[verifier::external_body]
fn value_of_json(j: &Json) -> Value {
    match j {
        Json::Null => Value::Null,
        Json::Bool(b) => Value::Bool(*b),
        Json::Int(i) => Value::from(*i),
        Json::UInt(u) => Value::from(*u),
        Json::Float(s) => serde_json::from_str(s).unwrap_or(Value::Null),
        Json::Str(s) => Value::String(s.clone()),
        Json::Array(a) => Value::Array(a.iter().map(value_of_json).collect()),
        Json::Object(o) => Value::Object(o.iter().map(|(k, x)| (k.clone(), value_of_json(x))).collect()),
    }
}

/// Reads JSON bytes with `serde_json::from_slice`: the value that the parser
/// gives, or a JSON parse error with the text of the parser's error. Both are
/// [`json_parse_of`] of the bytes.
#[verifier::external_body]
pub(crate) fn json_from_slice(b: &[u8]) -> (r: Result<Json, LspzError>)
    ensures
        match r {
            Ok(j) => json_parse_of(b@) == Ok::<JsonV, Seq<char>>(j@),
            Err(e) => e matches LspzError::JsonParse(m) && json_parse_of(b@) == Err::<JsonV, Seq<char>>(m@),
        },
{
    match serde_json::from_slice::<Value>(b) {
        Ok(v) => Ok(json_of_value(&v)),
        Err(e) => Err(LspzError::JsonParse(e.to_string())),
    }
}

/// Writes a value as compact JSON text with `serde_json` (the `Display` of a
/// `serde_json` value): [`json_text_of`] the value. A number held by text
/// that is not a JSON number is written as `null`.
#[verifier::external_body]
pub(crate) fn json_text(j: &Json) -> (r: String)
    ensures
        r@ == json_text_of(j@),
{
    value_of_json(j).to_string()
}

/// Writes a value as indented JSON text with `serde_json::to_string_pretty`:
/// [`json_pretty_text_of`] the value. (Writing a `serde_json` value does not
/// fail; the empty text stands for a failure that does not occur.)
#[verifier::external_body]
pub(crate) fn json_pretty_text(j: &Json) -> (r: String)
    ensures
        r@ == json_pretty_text_of(j@),
{
    serde_json::to_string_pretty(&value_of_json(j)).unwrap_or_default()
}

} // verus!
