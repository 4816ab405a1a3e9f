//! JSON text, read and written by `serde_json`.
//!
//! Nothing in this file is proved: the two entry points name what
//! `serde_json` returns, and the rest of the library is verified against
//! those names.

use vstd::prelude::*;
use crate::wire::{WireModel, WireValue};

verus! {

/// `serde_json::Value`, carried through as an opaque value.
#[verifier::external_type_specification]
#[verifier::external_body]
pub struct ExJsonValue(serde_json::Value);

/// The document that `serde_json::from_str` reads from a text, as a wire
/// model; `None` where it reports an error.
pub uninterp spec fn json_document(text: Seq<char>) -> Option<WireModel>;

/// The compact text that `serde_json` writes for the value with a given
/// wire model.
pub uninterp spec fn json_text(value: WireModel) -> Seq<char>;

/// Copies a `serde_json::Value` into a wire value, shape by shape. A number
/// that `Number::as_u64` gives is `Unsigned`; any other number is kept as
/// the text that `Number`'s `Display` writes. Members keep the order in
/// which the map hands them out.
#[verifier::external_body]
fn wire_from_value(value: &serde_json::Value) -> WireValue {
    match value {
        serde_json::Value::Null => WireValue::Null,
        serde_json::Value::Bool(b) => WireValue::Bool(*b),
        serde_json::Value::Number(n) => match n.as_u64() {
            Some(u) => WireValue::Unsigned(u),
            None => WireValue::OtherNumber(n.to_string()),
        },
        serde_json::Value::String(s) => WireValue::Text(s.clone()),
        serde_json::Value::Array(items) => WireValue::Array(
            items.iter().map(wire_from_value).collect(),
        ),
        serde_json::Value::Object(map) => WireValue::Object(
            map.iter().map(|(k, v)| (k.clone(), wire_from_value(v))).collect(),
        ),
    }
}

/// Copies a wire value into a `serde_json::Value`, shape by shape. Two
/// shapes have no `serde_json::Value` of their own, and nothing is proved
/// of what becomes of them here:
/// - an `OtherNumber` whose text `serde_json::Number`'s `FromStr` does not
///   read is written as `null`;
/// - of the members of an object that share a key, only the last is
///   written, as a `serde_json::Map` keeps one value per key.
/// A value that `read_json` gave has neither.
#[verifier::external_body]
fn value_from_wire(value: &WireValue) -> serde_json::Value {
    match value {
        WireValue::Null => serde_json::Value::Null,
        WireValue::Bool(b) => serde_json::Value::Bool(*b),
        WireValue::Unsigned(n) => serde_json::Value::from(*n),
        WireValue::OtherNumber(t) => t.parse().map_or(serde_json::Value::Null, serde_json::Value::Number),
        WireValue::Text(t) => serde_json::Value::String(t.clone()),
        WireValue::Array(items) => serde_json::Value::Array(
            items.iter().map(value_from_wire).collect(),
        ),
        WireValue::Object(members) => serde_json::Value::Object(
            members.iter().map(|(k, v)| (k.clone(), value_from_wire(v))).collect(),
        ),
    }
}

/// Reads a JSON text with `serde_json::from_str`. The result is the
/// document named by `json_document`; on an error of `serde_json` the
/// result is that error's own message.
#[verifier::external_body]
pub(crate) fn read_json(text: &str) -> (r: Result<WireValue, String>)
    ensures
        match r {
            Ok(value) => json_document(text@) == Some(value.model()),
            Err(_) => json_document(text@) is None,
        },
{
    match serde_json::from_str::<serde_json::Value>(text) {
        Ok(value) => Ok(wire_from_value(&value)),
        Err(e) => Err(e.to_string()),
    }
}

/// Writes a wire value as JSON text: the compact form that the `Display` of
/// `serde_json::Value` gives for the value of the same shape. The result is
/// the text named by `json_text`.
#[verifier::external_body]
pub(crate) fn write_json(value: &WireValue) -> (r: String)
    ensures
        r@ == json_text(value.model()),
{
    value_from_wire(value).to_string()
}

} // verus!
