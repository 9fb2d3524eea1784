//! Reading a configuration document from its TOML text.
use vstd::prelude::*;
use crate::config::ConfigError;
use crate::document::{Doc, Document};

verus! {

#[verifier::external_type_specification]
#[verifier::external_body]
pub struct ExTomlValue(toml::Value);

/// The document that a TOML text denotes, when the text is valid TOML.
pub uninterp spec fn toml_document(text: Seq<char>) -> Option<Doc>;

/// Relies on toml's `Value` variants: moves a parsed value into a
/// `Document`, keeping floats and dates as their TOML text.
#[verifier::external_body]
fn document_of(v: toml::Value) -> Document {
    match v {
        toml::Value::String(s) => Document::Str(s),
        toml::Value::Integer(i) => Document::Int(i),
        toml::Value::Boolean(b) => Document::Bool(b),
        toml::Value::Array(xs) => Document::Array(xs.into_iter().map(document_of).collect()),
        toml::Value::Table(t) => Document::Table(
            t.into_iter().map(|(k, x)| (k, document_of(x))).collect(),
        ),
        other => Document::Other(other.to_string()),
    }
}

/// Relies on `toml::from_str` into a `toml::Table`: the result depends on
/// the text alone, and a table has distinct keys.
#[verifier::external_body]
fn toml_table(text: &str) -> (r: Result<Document, String>)
    ensures
        r is Ok <==> toml_document(text@) is Some,
        r matches Ok(d) ==> toml_document(text@) == Some(d@) && d@ is Table && d@.wf(),
{
    match toml::from_str::<toml::Table>(text) {
        Ok(t) => Ok(document_of(toml::Value::Table(t))),
        Err(e) => Err(e.to_string()),
    }
}

/// Parses the TOML text of the document found at `path`.
pub fn parse_document(text: &str, path: &str) -> (r: Result<Document, ConfigError>)
    ensures
        match r {
            Ok(d) => toml_document(text@) == Some(d@) && d@ is Table && d@.wf(),
            Err(e) => toml_document(text@) is None && e is Toml && e->Toml_0@ == path@,
        },
{
    match toml_table(text) {
        Ok(d) => Ok(d),
        Err(msg) => Err(ConfigError::Toml(path.to_owned(), msg)),
    }
}

} // verus!
