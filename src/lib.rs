//! Validation of structured planning documents: a line-oriented document model, its
//! parser, schema-driven checks and cross-document reference resolution.
use vstd::prelude::*;

pub mod config;
pub mod document;
pub mod error;
pub mod parser;
pub mod schema;
pub mod template;
pub mod text;
pub mod validator;

verus! {

} // verus!
