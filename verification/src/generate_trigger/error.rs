//! Errors of trigger generation.
use vstd::prelude::*;

use crate::text::concat_strs;

verus! {

/// Error type for trigger generation. Input/output, JSON, YAML and HTTP
/// failures carry the message of the underlying error.
#[derive(Debug)]
pub enum GenerateTriggerError {
    IoError(String),
    JsonError(String),
    YamlError(String),
    ReqwestError(String),
    OperationNotFound(String),
    TemplateError(String),
    SchemaError(String),
}

/// The model of a trigger generation error: its kind and message.
pub enum GenerateTriggerErrorV {
    IoError(Seq<char>),
    JsonError(Seq<char>),
    YamlError(Seq<char>),
    ReqwestError(Seq<char>),
    OperationNotFound(Seq<char>),
    TemplateError(Seq<char>),
    SchemaError(Seq<char>),
}

impl View for GenerateTriggerError {
    type V = GenerateTriggerErrorV;

    open spec fn view(&self) -> GenerateTriggerErrorV {
        match self {
            GenerateTriggerError::IoError(m) => GenerateTriggerErrorV::IoError(m@),
            GenerateTriggerError::JsonError(m) => GenerateTriggerErrorV::JsonError(m@),
            GenerateTriggerError::YamlError(m) => GenerateTriggerErrorV::YamlError(m@),
            GenerateTriggerError::ReqwestError(m) => GenerateTriggerErrorV::ReqwestError(m@),
            GenerateTriggerError::OperationNotFound(m) => GenerateTriggerErrorV::OperationNotFound(m@),
            GenerateTriggerError::TemplateError(m) => GenerateTriggerErrorV::TemplateError(m@),
            GenerateTriggerError::SchemaError(m) => GenerateTriggerErrorV::SchemaError(m@),
        }
    }
}

/// The message of an error: its kind, then what it carries.
pub open spec fn trigger_error_message(e: GenerateTriggerErrorV) -> Seq<char> {
    match e {
        GenerateTriggerErrorV::IoError(m) => "IO error: "@ + m,
        GenerateTriggerErrorV::JsonError(m) => "JSON error: "@ + m,
        GenerateTriggerErrorV::YamlError(m) => "YAML error: "@ + m,
        GenerateTriggerErrorV::ReqwestError(m) => "HTTP error: "@ + m,
        GenerateTriggerErrorV::OperationNotFound(op) => "Operation '"@ + op + "' not found in schema"@,
        GenerateTriggerErrorV::TemplateError(m) => "Template error: "@ + m,
        GenerateTriggerErrorV::SchemaError(m) => "Schema error: "@ + m,
    }
}

impl GenerateTriggerError {
    /// The message of this error, as it is shown to the user.
    pub fn to_message(&self) -> (r: String)
        ensures
            r@ == trigger_error_message(self@),
    {
        match self {
            GenerateTriggerError::IoError(m) => concat_strs("IO error: ", m.as_str()),
            GenerateTriggerError::JsonError(m) => concat_strs("JSON error: ", m.as_str()),
            GenerateTriggerError::YamlError(m) => concat_strs("YAML error: ", m.as_str()),
            GenerateTriggerError::ReqwestError(m) => concat_strs("HTTP error: ", m.as_str()),
            GenerateTriggerError::OperationNotFound(op) => {
                let a = concat_strs("Operation '", op.as_str());
                concat_strs(a.as_str(), "' not found in schema")
            },
            GenerateTriggerError::TemplateError(m) => concat_strs("Template error: ", m.as_str()),
            GenerateTriggerError::SchemaError(m) => concat_strs("Schema error: ", m.as_str()),
        }
    }
}

} // verus!
