//! Errors of action generation.
use vstd::prelude::*;

use crate::text::concat_strs;

verus! {

/// Error type for action generation. Input/output, JSON, YAML and HTTP
/// failures carry the message of the underlying error.
#[derive(Debug)]
pub enum GenerateActionError {
    IoError(String),
    JsonError(String),
    YamlError(String),
    ReqwestError(String),
    OperationNotFound(String),
    TemplateError(String),
    SchemaError(String),
}

/// The model of an action generation error: its kind and message.
pub enum GenerateActionErrorV {
    IoError(Seq<char>),
    JsonError(Seq<char>),
    YamlError(Seq<char>),
    ReqwestError(Seq<char>),
    OperationNotFound(Seq<char>),
    TemplateError(Seq<char>),
    SchemaError(Seq<char>),
}

impl View for GenerateActionError {
    type V = GenerateActionErrorV;

    open spec fn view(&self) -> GenerateActionErrorV {
        match self {
            GenerateActionError::IoError(m) => GenerateActionErrorV::IoError(m@),
            GenerateActionError::JsonError(m) => GenerateActionErrorV::JsonError(m@),
            GenerateActionError::YamlError(m) => GenerateActionErrorV::YamlError(m@),
            GenerateActionError::ReqwestError(m) => GenerateActionErrorV::ReqwestError(m@),
            GenerateActionError::OperationNotFound(m) => GenerateActionErrorV::OperationNotFound(m@),
            GenerateActionError::TemplateError(m) => GenerateActionErrorV::TemplateError(m@),
            GenerateActionError::SchemaError(m) => GenerateActionErrorV::SchemaError(m@),
        }
    }
}

/// The message of an error: its kind, then what it carries.
pub open spec fn action_error_message(e: GenerateActionErrorV) -> Seq<char> {
    match e {
        GenerateActionErrorV::IoError(m) => "IO error: "@ + m,
        GenerateActionErrorV::JsonError(m) => "JSON error: "@ + m,
        GenerateActionErrorV::YamlError(m) => "YAML error: "@ + m,
        GenerateActionErrorV::ReqwestError(m) => "HTTP error: "@ + m,
        GenerateActionErrorV::OperationNotFound(op) => "Operation '"@ + op + "' not found in schema"@,
        GenerateActionErrorV::TemplateError(m) => "Template error: "@ + m,
        GenerateActionErrorV::SchemaError(m) => "Schema error: "@ + m,
    }
}

impl GenerateActionError {
    /// The message of this error, as it is shown to the user.
    pub fn to_message(&self) -> (r: String)
        ensures
            r@ == action_error_message(self@),
    {
        match self {
            GenerateActionError::IoError(m) => concat_strs("IO error: ", m.as_str()),
            GenerateActionError::JsonError(m) => concat_strs("JSON error: ", m.as_str()),
            GenerateActionError::YamlError(m) => concat_strs("YAML error: ", m.as_str()),
            GenerateActionError::ReqwestError(m) => concat_strs("HTTP error: ", m.as_str()),
            GenerateActionError::OperationNotFound(op) => {
                let a = concat_strs("Operation '", op.as_str());
                concat_strs(a.as_str(), "' not found in schema")
            },
            GenerateActionError::TemplateError(m) => concat_strs("Template error: ", m.as_str()),
            GenerateActionError::SchemaError(m) => concat_strs("Schema error: ", m.as_str()),
        }
    }
}

} // verus!
