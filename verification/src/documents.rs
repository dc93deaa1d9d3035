//! JSON and YAML text read into `Json` values, and `Json` values written as
//! JSON text, through serde_json and serde_yaml.
use vstd::prelude::*;

use crate::json::{Json, JsonNumber, JsonV};

verus! {

#[verifier::external_type_specification]
#[verifier::external_body]
pub struct ExSerdeValue(serde_json::Value);

/// The value `serde_json::from_str` reads from a text (`None` where it
/// refuses the text).
pub uninterp spec fn json_text_value(text: Seq<char>) -> Option<JsonV>;

/// The message of the error `serde_json::from_str` gives for a text it refuses.
pub uninterp spec fn json_text_error(text: Seq<char>) -> Seq<char>;

/// The value `serde_yaml::from_str` reads from a text and
/// `serde_json::to_value` turns into JSON (`None` where either refuses).
pub uninterp spec fn yaml_text_value(text: Seq<char>) -> Option<JsonV>;

/// For a text refused as YAML: whether `serde_yaml::from_str` refused it
/// (else `serde_json::to_value` did), and the error's message.
pub uninterp spec fn yaml_text_error(text: Seq<char>) -> (bool, Seq<char>);

/// The text `serde_json::to_string_pretty` writes for a value (`None` where
/// it fails).
pub uninterp spec fn pretty_json_value(v: JsonV) -> Option<Seq<char>>;

/// The message of the error `serde_json::to_string_pretty` gives.
pub uninterp spec fn pretty_json_error(v: JsonV) -> Seq<char>;

/// A `serde_json::Value` as a `Json`, node for node.
#[verifier::external_body]
fn json_of_value(v: &serde_json::Value) -> Json {
    match v {
        serde_json::Value::Null => Json::Null,
        serde_json::Value::Bool(b) => Json::Bool(*b),
        serde_json::Value::Number(n) => Json::Number(
            JsonNumber { text: n.to_string(), is_i64: n.is_i64() },
        ),
        serde_json::Value::String(s) => Json::String(s.clone()),
        serde_json::Value::Array(a) => Json::Array(a.iter().map(json_of_value).collect()),
        serde_json::Value::Object(m) => Json::Object(
            m.iter().map(|(k, x)| (k.clone(), json_of_value(x))).collect(),
        ),
    }
}

/// A `Json` as a `serde_json::Value`, node for node. A number whose text
/// `serde_json::Number` does not read becomes `null`; the numbers that
/// `json_of_value` makes carry serde_json's own text and read back.
#[verifier::external_body]
fn value_of_json(j: &Json) -> serde_json::Value {
    match j {
        Json::Null => serde_json::Value::Null,
        Json::Bool(b) => serde_json::Value::Bool(*b),
        Json::Number(n) => n.text.parse::<serde_json::Number>().map(
            serde_json::Value::Number,
        ).unwrap_or(serde_json::Value::Null),
        Json::String(s) => serde_json::Value::String(s.clone()),
        Json::Array(a) => serde_json::Value::Array(a.iter().map(value_of_json).collect()),
        Json::Object(e) => serde_json::Value::Object(
            e.iter().map(|(k, x)| (k.clone(), value_of_json(x))).collect(),
        ),
    }
}

/// `serde_json::from_str` into a `serde_json::Value`: the value read, or the
/// error's message. What it reads is named, not stated.
#[verifier::external_body]
pub(crate) fn parse_json_text(text: &str) -> (r: Result<Json, String>)
    ensures
        match json_text_value(text@) {
            Some(v) => r matches Ok(j) && j@ == v,
            None => r matches Err(m) && m@ == json_text_error(text@),
        },
{
    match serde_json::from_str::<serde_json::Value>(text) {
        Ok(v) => Ok(json_of_value(&v)),
        Err(e) => Err(e.to_string()),
    }
}

/// `serde_yaml::from_str` into a `serde_yaml::Value`, then
/// `serde_json::to_value`: the value read, or which of the two refused the
/// text (`true` for the YAML parser) and its error's message. What it reads
/// is named, not stated.
#[verifier::external_body]
pub(crate) fn parse_yaml_text(text: &str) -> (r: Result<Json, (bool, String)>)
    ensures
        match yaml_text_value(text@) {
            Some(v) => r matches Ok(j) && j@ == v,
            None => r matches Err((syntax, m)) && (syntax, m@) == yaml_text_error(text@),
        },
{
    match serde_yaml::from_str::<serde_yaml::Value>(text) {
        Ok(y) => match serde_json::to_value(y) {
            Ok(v) => Ok(json_of_value(&v)),
            Err(e) => Err((false, e.to_string())),
        },
        Err(e) => Err((true, e.to_string())),
    }
}

/// `serde_json::to_string_pretty` of the value: its text, or the error's
/// message. What it writes is named, not stated; a number whose text serde_json
/// does not read is written as `null`.
#[verifier::external_body]
pub(crate) fn pretty_json(j: &Json) -> (r: Result<String, String>)
    ensures
        match pretty_json_value(j@) {
            Some(t) => r matches Ok(s) && s@ == t,
            None => r matches Err(m) && m@ == pretty_json_error(j@),
        },
{
    serde_json::to_string_pretty(&value_of_json(j)).map_err(|e| e.to_string())
}

/// Read a JSON text: the value, or the parser's message.
pub fn read_json(text: &str) -> (r: Result<Json, String>)
    ensures
        match json_text_value(text@) {
            Some(v) => r matches Ok(j) && j@ == v,
            None => r matches Err(m) && m@ == json_text_error(text@),
        },
{
    parse_json_text(text)
}

/// Read a YAML text (JSON is read too) into a JSON value: the value, or the
/// message of whichever step refused it.
pub fn read_yaml(text: &str) -> (r: Result<Json, String>)
    ensures
        match yaml_text_value(text@) {
            Some(v) => r matches Ok(j) && j@ == v,
            None => r matches Err(m) && m@ == yaml_text_error(text@).1,
        },
{
    match parse_yaml_text(text) {
        Ok(v) => Ok(v),
        Err((_, m)) => Err(m),
    }
}

/// A generated document as pretty JSON text, or the writer's message.
pub fn document_text(doc: &Json) -> (r: Result<String, String>)
    ensures
        match pretty_json_value(doc@) {
            Some(t) => r matches Ok(s) && s@ == t,
            None => r matches Err(m) && m@ == pretty_json_error(doc@),
        },
{
    pretty_json(doc)
}

/// Each text with the value it parses to as JSON (`None` where it does not).
pub open spec fn parse_table(texts: Seq<Seq<char>>) -> Seq<(Seq<char>, Option<JsonV>)> {
    Seq::new(texts.len(), |i: int| (texts[i], json_text_value(texts[i])))
}

/// The parse outcome of each text as JSON, as the Postman conversion reads them.
pub fn parse_texts(texts: &Vec<String>) -> (r: Vec<(String, Option<Json>)>)
    ensures
        crate::postman_body::parsed_view(r@) == parse_table(crate::openapi::strings_view(texts@)),
{
    let mut out: Vec<(String, Option<Json>)> = Vec::new();
    let mut i: usize = 0;
    while i < texts.len()
        invariant
            i <= texts.len(),
            out@.len() == i,
            forall|j: int|
                0 <= j < i ==> (#[trigger] out@[j]).0@ == texts@[j]@ && match json_text_value(
                    texts@[j]@,
                ) {
                    Some(v) => out@[j].1 matches Some(x) && x@ == v,
                    None => out@[j].1 is None,
                },
        decreases texts.len() - i,
    {
        let outcome = match parse_json_text(texts[i].as_str()) {
            Ok(v) => Some(v),
            Err(_) => None,
        };
        out.push((texts[i].clone(), outcome));
        i = i + 1;
    }
    assert(crate::postman_body::parsed_view(out@) =~= parse_table(
        crate::openapi::strings_view(texts@),
    ));
    out
}

} // verus!
