//! JSON text, read and written by `serde_json`.

use vstd::prelude::*;
use crate::json::{Json, JsonValue};

verus! {

/// `serde_json::Value`, which the documents pass through on their way from
/// and to text.
#[verifier::external_type_specification]
#[verifier::external_body]
pub struct ExValue(serde_json::Value);

/// `serde_json::Number`, in which a document keeps the numbers that are no
/// whole numbers from 0 to 2^64 - 1.
#[verifier::external_type_specification]
#[verifier::external_body]
pub struct ExNumber(serde_json::Number);

/// `Clone::clone` of `serde_json::Number`: the copy is the same number.
pub assume_specification[ <serde_json::Number as Clone>::clone ](
    n: &serde_json::Number,
) -> (copy: serde_json::Number)
    ensures
        copy == *n,
;

/// The document that `serde_json::from_str` reads from a text, or `None`
/// where it refuses the text.
pub uninterp spec fn parsed_json(text: Seq<char>) -> Option<JsonValue>;

/// The indented text that `serde_json::to_string_pretty` writes for a document.
pub uninterp spec fn pretty_json(doc: JsonValue) -> Seq<char>;

/// Moves a `serde_json::Value` into a `Json`, variant by variant. Among the
/// numbers, `Number::as_u64` tells the whole numbers from 0 to 2^64 - 1 from
/// the others. Nothing is claimed of the result.
#[verifier::external_body]
fn lift(value: serde_json::Value) -> Json {
    match value {
        serde_json::Value::Null => Json::Null,
        serde_json::Value::Bool(b) => Json::Bool(b),
        serde_json::Value::Number(n) => n.as_u64().map_or(Json::Number(n), Json::Uint),
        serde_json::Value::String(s) => Json::Str(s),
        serde_json::Value::Array(items) => Json::Array(items.into_iter().map(lift).collect()),
        serde_json::Value::Object(members) => Json::Object(
            members.into_iter().map(|(k, v)| (k, lift(v))).collect(),
        ),
    }
}

/// Builds the `serde_json::Value` that a `Json` stands for, variant by
/// variant. Nothing is claimed of the result.
#[verifier::external_body]
fn lower(doc: &Json) -> serde_json::Value {
    match doc {
        Json::Null => serde_json::Value::Null,
        Json::Bool(b) => serde_json::Value::Bool(*b),
        Json::Uint(n) => serde_json::Value::from(*n),
        Json::Number(n) => serde_json::Value::Number(n.clone()),
        Json::Str(s) => serde_json::Value::String(s.clone()),
        Json::Array(items) => serde_json::Value::Array(items.iter().map(lower).collect()),
        Json::Object(members) => serde_json::Value::Object(
            members.iter().map(|(k, v)| (k.clone(), lower(v))).collect(),
        ),
    }
}

/// Calls `serde_json::from_str` for a `serde_json::Value`. What it reads
/// depends on the text alone: the result is the document named by
/// `parsed_json`, and there is none where the text is refused.
#[verifier::external_body]
pub(crate) fn parse_json(text: &str) -> (doc: Option<Json>)
    ensures
        doc.is_some() == parsed_json(text@).is_some(),
        doc matches Some(j) ==> parsed_json(text@) == Some(j@),
{
    serde_json::from_str::<serde_json::Value>(text).ok().map(lift)
}

/// Calls `serde_json::to_string_pretty`, which does not fail on a
/// `serde_json::Value`. What it writes depends on the document alone: the
/// result is the text named by `pretty_json`.
#[verifier::external_body]
pub(crate) fn render_json(doc: &Json) -> (text: String)
    ensures
        text@ == pretty_json(doc@),
{
    serde_json::to_string_pretty(&lower(doc)).unwrap_or_default()
}

} // verus!
