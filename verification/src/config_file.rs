//! Configuration files: reading a file's text as a TOML document, and
//! writing a document back as TOML text. The document is held as a `Json`
//! table, as the rest of the configuration code holds it.
use vstd::prelude::*;

use crate::config::{empty_object, empty_table, is_table};
use crate::json::Json;
use crate::text::{cat2, owned};

verus! {

/// The document a TOML text holds, as the `toml` crate reads a `Table`:
/// tables as objects, integers and floats as numbers in their TOML text,
/// dates as strings; `None` where the crate refuses the text.
pub uninterp spec fn toml_document(text: Seq<char>) -> Option<crate::json::JsonV>;

/// The TOML text the `toml` crate writes for a table document; `None`
/// where it refuses to write it.
pub uninterp spec fn toml_text(doc: crate::json::JsonV) -> Option<Seq<char>>;

#[verifier::external_type_specification]
#[verifier::external_body]
pub struct ExTomlValue(toml::Value);

/// The `Json` form of a `toml::Value`, variant by variant: integers and
/// floats keep the text `Display` gives them, dates become strings.
/// Nothing is stated of the result.
#[verifier::external_body]
fn json_of_toml(v: &toml::Value) -> Json {
    match v {
        toml::Value::String(t) => Json::Str(t.clone()),
        toml::Value::Boolean(b) => Json::Bool(*b),
        toml::Value::Datetime(d) => Json::Str(d.to_string()),
        toml::Value::Array(items) => Json::Array(items.iter().map(json_of_toml).collect()),
        toml::Value::Table(t) => Json::Object(t.keys().cloned().collect(), t.values().map(json_of_toml).collect()),
        other => Json::Number(other.to_string()),
    }
}

/// The `toml::Value` form of a `Json` value, variant by variant: a number's
/// text is read by `toml::Value`'s `FromStr` (a string where it refuses
/// it), and `null`, which TOML lacks, becomes an empty string. Nothing is
/// stated of the result.
#[verifier::external_body]
fn toml_of_json(j: &Json) -> toml::Value {
    match j {
        Json::Null => toml::Value::String(String::new()),
        Json::Bool(b) => toml::Value::Boolean(*b),
        Json::Number(t) => match t.parse::<toml::Value>() {
            Ok(v) => v,
            Err(_) => toml::Value::String(t.clone()),
        },
        Json::Str(t) => toml::Value::String(t.clone()),
        Json::Array(items) => toml::Value::Array(items.iter().map(toml_of_json).collect()),
        Json::Object(keys, values) => toml::Value::Table(keys.iter().cloned().zip(values.iter().map(toml_of_json)).collect()),
    }
}

/// `str::parse::<toml::Table>`: claimed to give `toml_document(text)`,
/// `None` on a parse error.
#[verifier::external_body]
pub fn parse_toml(text: &str) -> (r: Option<Json>)
    ensures
        match r {
            Some(d) => toml_document(text@) == Some(d@),
            None => toml_document(text@) is None,
        },
{
    match text.parse::<toml::Table>() {
        Ok(t) => Some(json_of_toml(&toml::Value::Table(t))),
        Err(_) => None,
    }
}

/// `toml::to_string` of the document's table: claimed to give
/// `toml_text(doc)`, `None` on a serialization error or when the document
/// is not a table.
#[verifier::external_body]
fn write_toml_text(doc: &Json) -> (r: Option<String>)
    ensures
        match r {
            Some(t) => toml_text(doc@) == Some(t@),
            None => toml_text(doc@) is None,
        },
{
    match toml_of_json(doc) {
        toml::Value::Table(t) => toml::to_string(&t).ok(),
        _ => None,
    }
}

/// The message for a configuration file that is not TOML.
pub open spec fn parse_failure(path: Seq<char>) -> Seq<char> {
    "Failed to parse config file at "@ + path
}

/// The document of a configuration file, from its text (`None` when the
/// file does not exist): a missing file is the empty table, a text the
/// `toml` crate reads gives its document, and any other text is refused.
pub fn config_document(contents: Option<&str>, path: &str) -> (r: Result<Json, String>)
    ensures
        match contents {
            None => r matches Ok(d) && d@ == empty_table(),
            Some(t) => match toml_document(t@) {
                Some(d) => r matches Ok(x) && x@ == d,
                None => r matches Err(m) && m@ == parse_failure(path@),
            },
        },
{
    match contents {
        None => Ok(empty_object()),
        Some(t) => match parse_toml(t) {
            Some(d) => Ok(d),
            None => Err(cat2("Failed to parse config file at ", path)),
        },
    }
}

/// The TOML text a configuration document is written as: the document must
/// be a table, and the `toml` crate must write it.
pub fn config_text(doc: &Json) -> (r: Result<String, String>)
    ensures
        !is_table(doc@) ==> (r matches Err(m) && m@ == "config root must be a table"@),
        is_table(doc@) ==> match toml_text(doc@) {
            Some(t) => r matches Ok(x) && x@ == t,
            None => r matches Err(m) && m@ == "failed to write the config as TOML"@,
        },
{
    if !doc.is_table() {
        return Err(owned("config root must be a table"));
    }
    match write_toml_text(doc) {
        Some(t) => Ok(t),
        None => Err(owned("failed to write the config as TOML")),
    }
}

} // verus!
