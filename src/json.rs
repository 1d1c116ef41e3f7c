//! The JSON documents of the gateway, read and written through serde_json.

use vstd::prelude::*;

use crate::text::hex_digit;

verus! {

/// What `parse_batch` gives for a text.
pub uninterp spec fn json_batch(text: Seq<char>) -> Option<Seq<Option<Seq<Option<Seq<char>>>>>>;

/// Relies on serde_json::from_str to read `text` as a JSON array: `None` when
/// `text` is not one. Each item that is an array becomes its elements, and
/// any other item `None`. Each element becomes the text of its number (the
/// `arbitrary_precision` feature keeps the literal's digits; serde_json writes
/// an exponent mark as `e` with its sign, so `1E5` becomes `1e+5`), or `None`
/// for any other JSON value.
#[verifier::external_body]
pub(crate) fn parse_batch(text: &str) -> (r: Option<Vec<Option<Vec<Option<String>>>>>)
    ensures
        r.deep_view() == json_batch(text@),
{
    let items: Vec<serde_json::Value> = serde_json::from_str(text).ok()?;
    Some(
        items.iter().map(
            |item| item.as_array().map(|row| row.iter().map(|v| v.as_number().map(|n| n.to_string())).collect()),
        ).collect(),
    )
}

/// A JSON value as the envelope codec reads it: a number, by the text that
/// serde_json keeps for it; a string; or anything else.
#[derive(Debug, PartialEq, Eq)]
pub enum JsonScalar {
    Number(String),
    Text(String),
    Other,
}

/// The mathematical value of a [`JsonScalar`].
pub enum ScalarModel {
    Number(Seq<char>),
    Text(Seq<char>),
    Other,
}

impl DeepView for JsonScalar {
    type V = ScalarModel;

    open spec fn deep_view(&self) -> ScalarModel {
        match self {
            JsonScalar::Number(t) => ScalarModel::Number(t@),
            JsonScalar::Text(t) => ScalarModel::Text(t@),
            JsonScalar::Other => ScalarModel::Other,
        }
    }
}

/// What `parse_object` gives for a text.
pub uninterp spec fn json_object(text: Seq<char>) -> Option<Seq<(Seq<char>, ScalarModel)>>;

/// Relies on serde_json::from_str to read `text` as a JSON object: its fields,
/// each key with its value as a [`JsonScalar`], or `None` when `text` is not a
/// JSON object.
#[verifier::external_body]
pub(crate) fn parse_object(text: &str) -> (r: Option<Vec<(String, JsonScalar)>>)
    ensures
        r.deep_view() == json_object(text@),
{
    let fields: serde_json::Map<String, serde_json::Value> = serde_json::from_str(text).ok()?;
    Some(
        fields.into_iter().map(|(k, v)| match v {
            serde_json::Value::Number(n) => (k, JsonScalar::Number(n.to_string())),
            serde_json::Value::String(t) => (k, JsonScalar::Text(t)),
            _ => (k, JsonScalar::Other),
        }).collect(),
    )
}

/// How a JSON string literal writes `c`: `"` and `\` after a backslash,
/// the control characters backspace, tab, line feed, form feed and carriage
/// return as `\b \t \n \f \r`, the other control characters as `\u00XX` in
/// lowercase hexadecimal, and every other character as it is.
pub open spec fn escaped_char(c: char) -> Seq<char> {
    if c == '"' || c == '\\' {
        seq!['\\', c]
    } else if c == '\u{8}' {
        seq!['\\', 'b']
    } else if c == '\t' {
        seq!['\\', 't']
    } else if c == '\n' {
        seq!['\\', 'n']
    } else if c == '\u{c}' {
        seq!['\\', 'f']
    } else if c == '\r' {
        seq!['\\', 'r']
    } else if (c as u32) < 0x20 {
        seq!['\\', 'u', '0', '0', hex_digit((c as u32 / 16) as nat), hex_digit((c as u32 % 16) as nat)]
    } else {
        seq![c]
    }
}

/// The characters of `s`, each escaped as `escaped_char` says.
pub open spec fn escaped(s: Seq<char>) -> Seq<char>
    decreases s.len(),
{
    if s.len() == 0 {
        Seq::empty()
    } else {
        escaped(s.drop_last()) + escaped_char(s.last())
    }
}

/// The JSON string literal that writes `s`: `s` escaped, between quotes.
pub open spec fn json_string(s: Seq<char>) -> Seq<char> {
    seq!['"'] + escaped(s) + seq!['"']
}

/// Relies on serde_json::to_string on a `str`: the JSON string literal that
/// writes `s`, as `json_string` says (serde_json's default formatter escapes
/// by its table of the bytes below 0x20, `"` and `\`). Serializing a `str`
/// does not fail.
#[verifier::external_body]
pub(crate) fn quote(s: &str) -> (r: String)
    ensures
        r@ == json_string(s@),
{
    serde_json::to_string(s).unwrap_or_default()
}

} // verus!
