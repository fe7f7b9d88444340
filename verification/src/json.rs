//! JSON values as the library reads them, and the calls into `serde_json`
//! that parse and print them. The calls are taken on trust; each says what is
//! claimed of it.

use vstd::prelude::*;

verus! {

/// `serde_json::Value`, which only the conversions below look into.
#[verifier::external_type_specification]
#[verifier::external_body]
pub struct ExJsonValue(serde_json::Value);

/// `serde_json::Number`, carried as an opaque value.
#[verifier::external_type_specification]
#[verifier::external_body]
pub struct ExJsonNumber(serde_json::Number);

/// A JSON number: the number itself, and what the library asks of it.
#[derive(Debug)]
pub struct JsonNumber {
    /// The number as `serde_json` holds it.
    pub raw: serde_json::Number,
    /// Whether it is held as a floating-point value.
    pub is_f64: bool,
    /// Whether it is an integer between `i64::MIN` and `i64::MAX`.
    pub is_i64: bool,
    /// Its value as `i64`, if it has one.
    pub as_i64: Option<i64>,
}

/// A JSON value. An object keeps its members in the order in which
/// `serde_json` hands them out.
#[derive(Debug)]
pub enum Json {
    Null,
    Bool(bool),
    Number(JsonNumber),
    Text(String),
    Array(Vec<Json>),
    Object(Vec<(String, Json)>),
}

/// What parsing `text` as JSON gives: the value, or the words in which the
/// parser says why `text` is not JSON.
pub uninterp spec fn json_parsing(text: Seq<char>) -> Result<Json, Seq<char>>;

/// What parsing `text` as a JSON string literal gives: the string that the
/// literal denotes, or the words in which the parser says why `text` is no
/// such literal.
pub uninterp spec fn json_string_parsing(text: Seq<char>) -> Result<Seq<char>, Seq<char>>;

/// `value` printed without white space, or the words of the printer's error.
pub uninterp spec fn compact_text(value: Json) -> Result<Seq<char>, Seq<char>>;

/// `value` printed with line breaks and an indent of two spaces, or the words
/// of the printer's error.
pub uninterp spec fn pretty_text(value: Json) -> Result<Seq<char>, Seq<char>>;

/// `text` as a JSON string literal, quoted and escaped, or the words of the
/// printer's error.
pub uninterp spec fn string_literal(text: Seq<char>) -> Result<Seq<char>, Seq<char>>;

/// What a parser's answer stands for: the value, or the words of its error.
pub open spec fn value_view(answer: Result<Json, String>) -> Result<Json, Seq<char>> {
    match answer {
        Ok(value) => Ok(value),
        Err(why) => Err(why@),
    }
}

/// What an answer in text stands for: the text, or the words of the error.
pub open spec fn text_view(answer: Result<String, String>) -> Result<Seq<char>, Seq<char>> {
    match answer {
        Ok(text) => Ok(text@),
        Err(why) => Err(why@),
    }
}

/// Takes a `serde_json::Value` apart, variant by variant, and puts the same
/// data into a `Json`; of a number it keeps what `is_f64`, `is_i64` and
/// `as_i64` say. Nothing is claimed of the result.
#[verifier::external_body]
pub(crate) fn json_of_value(value: serde_json::Value) -> (json: Json) {
    match value {
        serde_json::Value::Null => Json::Null,
        serde_json::Value::Bool(b) => Json::Bool(b),
        serde_json::Value::Number(n) => Json::Number(
            JsonNumber { is_f64: n.is_f64(), is_i64: n.is_i64(), as_i64: n.as_i64(), raw: n },
        ),
        serde_json::Value::String(s) => Json::Text(s),
        serde_json::Value::Array(a) => Json::Array(a.into_iter().map(json_of_value).collect()),
        serde_json::Value::Object(m) => Json::Object(
            m.into_iter().map(|(k, v)| (k, json_of_value(v))).collect(),
        ),
    }
}

/// Builds the `serde_json::Value` that holds the data of a `Json`, variant by
/// variant. Nothing is claimed of the result.
#[verifier::external_body]
pub(crate) fn value_of_json(json: &Json) -> (value: serde_json::Value) {
    match json {
        Json::Null => serde_json::Value::Null,
        Json::Bool(b) => serde_json::Value::Bool(*b),
        Json::Number(n) => serde_json::Value::Number(n.raw.clone()),
        Json::Text(s) => serde_json::Value::String(s.clone()),
        Json::Array(a) => serde_json::Value::Array(a.iter().map(value_of_json).collect()),
        Json::Object(m) => serde_json::Value::Object(
            m.iter().map(|(k, v)| (k.clone(), value_of_json(v))).collect(),
        ),
    }
}

/// Calls `serde_json::from_str` for a `Value` and renders an error through
/// its `Display` impl. Trusted: value and error text depend on the text alone,
/// and `json_parsing` names them.
#[verifier::external_body]
pub(crate) fn parse_json(text: &str) -> (parsed: Result<Json, String>)
    ensures
        json_parsing(text@) == value_view(parsed),
{
    match serde_json::from_str::<serde_json::Value>(text) {
        Ok(value) => Ok(json_of_value(value)),
        Err(error) => Err(error.to_string()),
    }
}

/// Calls `serde_json::from_str` for a `String` and renders an error through
/// its `Display` impl. Trusted: string and error text depend on the text
/// alone, and `json_string_parsing` names them.
#[verifier::external_body]
pub(crate) fn parse_json_string(text: &str) -> (parsed: Result<String, String>)
    ensures
        json_string_parsing(text@) == text_view(parsed),
{
    match serde_json::from_str::<String>(text) {
        Ok(s) => Ok(s),
        Err(error) => Err(error.to_string()),
    }
}

/// Calls `serde_json::to_string` on a value and renders an error through its
/// `Display` impl. Trusted: the outcome depends on the value alone, and
/// `compact_text` names it.
#[verifier::external_body]
pub(crate) fn print_compact(value: &Json) -> (printed: Result<String, String>)
    ensures
        compact_text(*value) == text_view(printed),
{
    match serde_json::to_string(&value_of_json(value)) {
        Ok(s) => Ok(s),
        Err(error) => Err(error.to_string()),
    }
}

/// Calls `serde_json::to_string_pretty` on a value and renders an error
/// through its `Display` impl. Trusted: the outcome depends on the value
/// alone, and `pretty_text` names it.
#[verifier::external_body]
pub(crate) fn print_pretty(value: &Json) -> (printed: Result<String, String>)
    ensures
        pretty_text(*value) == text_view(printed),
{
    match serde_json::to_string_pretty(&value_of_json(value)) {
        Ok(s) => Ok(s),
        Err(error) => Err(error.to_string()),
    }
}

/// Calls `serde_json::to_string` on a string, which quotes and escapes it,
/// and renders an error through its `Display` impl. Trusted: the outcome
/// depends on the text alone, and `string_literal` names it.
#[verifier::external_body]
pub(crate) fn print_string_literal(text: &str) -> (printed: Result<String, String>)
    ensures
        string_literal(text@) == text_view(printed),
{
    match serde_json::to_string(text) {
        Ok(s) => Ok(s),
        Err(error) => Err(error.to_string()),
    }
}

} // verus!
