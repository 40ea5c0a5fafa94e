//! The library's error type.
use vstd::prelude::*;

verus! {

/// What can go wrong while loading schemas or checking a document; each variant carries
/// its human-readable detail.
#[derive(Debug, Clone)]
pub enum ForgepointError {
    Io(String),
    Json(String),
    Yaml(String),
    Schema(String),
    Parsing(String),
    Config(String),
    Validation(String),
    FileNotFound(String),
    InvalidDocumentType(String),
    InvalidIdFormat(String),
    Reference(String),
}

/// The label that introduces an error of each variant in its text.
pub open spec fn error_label(e: ForgepointError) -> Seq<char> {
    match e {
        ForgepointError::Io(_) => "IO error: "@,
        ForgepointError::Json(_) => "JSON error: "@,
        ForgepointError::Yaml(_) => "YAML error: "@,
        ForgepointError::Schema(_) => "Schema validation error: "@,
        ForgepointError::Parsing(_) => "Document parsing error: "@,
        ForgepointError::Config(_) => "Configuration error: "@,
        ForgepointError::Validation(_) => "Validation error: "@,
        ForgepointError::FileNotFound(_) => "File not found: "@,
        ForgepointError::InvalidDocumentType(_) => "Invalid document type: "@,
        ForgepointError::InvalidIdFormat(_) => "Invalid ID format: "@,
        ForgepointError::Reference(_) => "Reference error: "@,
    }
}

/// The detail that an error carries.
pub open spec fn error_detail(e: ForgepointError) -> Seq<char> {
    match e {
        ForgepointError::Io(m) => m@,
        ForgepointError::Json(m) => m@,
        ForgepointError::Yaml(m) => m@,
        ForgepointError::Schema(m) => m@,
        ForgepointError::Parsing(m) => m@,
        ForgepointError::Config(m) => m@,
        ForgepointError::Validation(m) => m@,
        ForgepointError::FileNotFound(m) => m@,
        ForgepointError::InvalidDocumentType(m) => m@,
        ForgepointError::InvalidIdFormat(m) => m@,
        ForgepointError::Reference(m) => m@,
    }
}

/// The full text of an error: its label, then its detail.
pub open spec fn error_text(e: ForgepointError) -> Seq<char> {
    error_label(e) + error_detail(e)
}

impl ForgepointError {
    /// The error's text, as it is shown to a user.
    pub fn message(&self) -> (r: String)
        ensures
            r@ == error_text(*self),
    {
        let (label, detail) = match self {
            ForgepointError::Io(m) => ("IO error: ", m),
            ForgepointError::Json(m) => ("JSON error: ", m),
            ForgepointError::Yaml(m) => ("YAML error: ", m),
            ForgepointError::Schema(m) => ("Schema validation error: ", m),
            ForgepointError::Parsing(m) => ("Document parsing error: ", m),
            ForgepointError::Config(m) => ("Configuration error: ", m),
            ForgepointError::Validation(m) => ("Validation error: ", m),
            ForgepointError::FileNotFound(m) => ("File not found: ", m),
            ForgepointError::InvalidDocumentType(m) => ("Invalid document type: ", m),
            ForgepointError::InvalidIdFormat(m) => ("Invalid ID format: ", m),
            ForgepointError::Reference(m) => ("Reference error: ", m),
        };
        String::from_str(label).concat(detail.as_str())
    }
}

} // verus!
