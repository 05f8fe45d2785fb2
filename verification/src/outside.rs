//! What the library has from `serde_json`, `base64` and the standard library.

use crate::json::{plain_json, Json, JsonM};
use crate::table::Table;
use crate::text::Str;
use crate::value::told;
use base64::Engine;
use vstd::prelude::*;
use vstd::utf8::{decode_utf8, valid_utf8};

verus! {

#[verifier::external_type_specification]
#[verifier::external_body]
pub struct ExJsonValue(serde_json::Value);

/// What `serde_json::from_str` reads from a text: the document, or its message.
pub uninterp spec fn parsed_json(text: Str) -> Result<JsonM, Str>;

/// What `serde_json::to_string` writes for a document.
pub uninterp spec fn json_text(document: JsonM) -> Result<Str, Str>;

/// The nesting up to which a written document is sure to be read back.
pub const SAFE_JSON_DEPTH: usize = 100;

/// The library's form of a `serde_json::Value`, variant by variant. `Number::as_i64` tells the
/// integers apart; any other number keeps its own notation.
#[verifier::external_body]
fn import_json(value: serde_json::Value) -> Json {
    match value {
        serde_json::Value::Null => Json::Null,
        serde_json::Value::Bool(b) => Json::Bool(b),
        serde_json::Value::Number(n) => n.as_i64().map_or(Json::Real(n.to_string()), Json::Integer),
        serde_json::Value::String(s) => Json::Text(s),
        serde_json::Value::Array(items) => Json::Array(items.into_iter().map(import_json).collect()),
        serde_json::Value::Object(fields) => Json::Object(
            Table { entries: fields.into_iter().map(|(k, v)| (k, import_json(v))).collect() },
        ),
    }
}

/// The `serde_json::Value` of a document, variant by variant.
#[verifier::external_body]
fn export_json(document: &Json) -> serde_json::Value {
    match document {
        Json::Null => serde_json::Value::Null,
        Json::Bool(b) => serde_json::Value::Bool(*b),
        Json::Integer(n) => serde_json::Value::Number((*n).into()),
        Json::Real(s) => serde_json::from_str(s).unwrap_or(serde_json::Value::Null),
        Json::Text(s) => serde_json::Value::String(s.clone()),
        Json::Array(items) => serde_json::Value::Array(items.iter().map(export_json).collect()),
        Json::Object(table) => serde_json::Value::Object(
            table.entries.iter().map(|e| (e.0.clone(), export_json(&e.1))).collect(),
        ),
    }
}

/// `serde_json::from_str` reads a document from a text. The result depends on the text alone and
/// is named; an error is its message.
#[verifier::external_body]
pub(crate) fn parse_json(text: &str) -> (r: Result<Json, String>)
    ensures
        told(r) == parsed_json(text@),
{
    serde_json::from_str::<serde_json::Value>(text).map(import_json).map_err(|e| e.to_string())
}

/// Whether a written text is there and reads back as a document.
pub open spec fn reads_back(written: Result<String, String>, document: JsonM) -> bool {
    match written {
        Ok(text) => parsed_json(text@) == Ok::<JsonM, Str>(document),
        Err(_) => false,
    }
}

/// `serde_json::to_string` writes a document as text. The result depends on the document alone
/// and is named. The text of a document without reals, with ordered objects and a nesting within
/// the bound, is read back by `serde_json::from_str` as the same document.
#[verifier::external_body]
pub(crate) fn render_json(document: &Json) -> (r: Result<String, String>)
    ensures
        told(r) == json_text(document@),
        plain_json(document@, SAFE_JSON_DEPTH as nat) ==> reads_back(r, document@),
{
    serde_json::to_string(&export_json(document)).map_err(|e| e.to_string())
}

/// The standard base64 notation of a byte sequence, with padding.
pub uninterp spec fn base64_text(bytes: Seq<u8>) -> Str;

/// The bytes that a text in standard base64 notation denotes.
pub uninterp spec fn base64_bytes(text: Str) -> Option<Seq<u8>>;

pub open spec fn opt_bytes(r: Option<Vec<u8>>) -> Option<Seq<u8>> {
    match r {
        Some(bytes) => Some(bytes@),
        None => None,
    }
}

/// `Engine::encode` of the standard alphabet of `base64`, with padding. The result depends on
/// the bytes alone and is named; decoding it gives the bytes back.
#[verifier::external_body]
pub(crate) fn encode_base64(bytes: &Vec<u8>) -> (r: String)
    ensures
        r@ == base64_text(bytes@),
        base64_bytes(r@) == Some(bytes@),
{
    base64::engine::general_purpose::STANDARD.encode(bytes)
}

/// `Engine::decode` of the standard alphabet of `base64`. The result depends on the text alone
/// and is named; a text that is not in the notation gives nothing.
#[verifier::external_body]
pub(crate) fn decode_base64(text: &str) -> (r: Option<Vec<u8>>)
    ensures
        opt_bytes(r) == base64_bytes(text@),
{
    base64::engine::general_purpose::STANDARD.decode(text).ok()
}

/// `String::from_utf8` gives the text of a sequence of bytes if they are valid UTF-8, and only
/// then.
#[verifier::external_body]
pub(crate) fn text_from_bytes(bytes: Vec<u8>) -> (r: Option<String>)
    ensures
        match r {
            Some(text) => valid_utf8(bytes@) && text@ == decode_utf8(bytes@),
            None => !valid_utf8(bytes@),
        },
{
    String::from_utf8(bytes).ok()
}

/// A text in lower case, by the Unicode rules.
pub uninterp spec fn lower_text(text: Str) -> Str;

/// A text in upper case, by the Unicode rules.
pub uninterp spec fn upper_text(text: Str) -> Str;

/// `str::to_lowercase`. The result depends on the text alone and is named.
#[verifier::external_body]
pub(crate) fn lowercase(text: &str) -> (r: String)
    ensures
        r@ == lower_text(text@),
{
    text.to_lowercase()
}

/// `str::to_uppercase`. The result depends on the text alone and is named.
#[verifier::external_body]
pub(crate) fn uppercase(text: &str) -> (r: String)
    ensures
        r@ == upper_text(text@),
{
    text.to_uppercase()
}

} // verus!
