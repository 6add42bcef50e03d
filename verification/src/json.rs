//! JSON text the library reads: string arrays.
use vstd::prelude::*;

use crate::json_doc::{JsonMember, JsonValue};
use crate::order::views_of;

verus! {

/// The strings of a JSON array of strings, or `None` when the text is not
/// one.
pub uninterp spec fn json_string_list(raw: Seq<char>) -> Option<Seq<Seq<char>>>;

/// `serde_json::from_str::<Vec<String>>`: the contract names the parsed
/// list as a function of the text alone; which texts parse, and to what,
/// is left to serde_json.
#[verifier::external_body]
fn parse_json_string_list(raw: &str) -> (r: Option<Vec<String>>)
    ensures
        match r {
            Some(v) => json_string_list(raw@) == Some(views_of(v@)),
            None => json_string_list(raw@) is None,
        },
{
    serde_json::from_str::<Vec<String>>(raw).ok()
}

#[verifier::external_type_specification]
#[verifier::external_body]
pub struct ExSerdeJsonValue(serde_json::Value);

/// The document that a JSON text parses to, or `None` when the text is
/// not JSON.
pub uninterp spec fn json_document_of(text: Seq<char>) -> Option<JsonValue>;

/// Turns a `serde_json::Value` into the library's form, variant by
/// variant; numbers keep their text. Nothing is promised of the result.
#[verifier::external_body]
fn json_value_from(value: serde_json::Value) -> JsonValue {
    match value {
        serde_json::Value::Null => JsonValue::Null,
        serde_json::Value::Bool(flag) => JsonValue::Bool(flag),
        serde_json::Value::Number(number) => JsonValue::Number(number.to_string()),
        serde_json::Value::String(text) => JsonValue::Text(text),
        serde_json::Value::Array(items) => JsonValue::Array(items.into_iter().map(json_value_from).collect()),
        serde_json::Value::Object(members) => JsonValue::Object(
            members.into_iter().map(|(key, value)| JsonMember { key, value: json_value_from(value) }).collect(),
        ),
    }
}

/// `serde_json::from_str::<serde_json::Value>`: the contract names the
/// parsed document as a function of the text alone; which texts parse,
/// and to what, is left to serde_json.
#[verifier::external_body]
pub fn parse_json_document(text: &str) -> (r: Option<JsonValue>)
    ensures
        r == json_document_of(text@),
{
    serde_json::from_str::<serde_json::Value>(text).ok().map(json_value_from)
}

/// The modifiers of an artefact, stored as a JSON array of strings; none
/// when the text is not one.
pub open spec fn modifiers_of(raw: Seq<char>) -> Seq<Seq<char>> {
    match json_string_list(raw) {
        Some(v) => v,
        None => Seq::empty(),
    }
}

pub fn parse_modifiers(raw: &str) -> (r: Vec<String>)
    ensures
        views_of(r@) == modifiers_of(raw@),
{
    match parse_json_string_list(raw) {
        Some(v) => v,
        None => {
            let v: Vec<String> = Vec::new();
            assert(views_of(v@) =~= Seq::<Seq<char>>::empty());
            v
        },
    }
}

} // verus!
