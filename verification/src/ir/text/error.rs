//! Errors of the SAIR text reader.

use vstd::prelude::*;

use crate::strings::{owned, push_str};

verus! {

/// Why a SAIR text could not be read.
#[derive(Debug, Clone)]
pub enum TextIrError {
    /// The text does not follow the grammar.
    Parse(String),
    /// The text parsed, but the module breaks a structural rule.
    Validation(String),
    /// The text declares a format version other than `0.1`.
    UnsupportedVersion(String),
}

/// The message of an error: its category, a colon and the detail.
pub open spec fn text_error_message(e: TextIrError) -> Seq<char> {
    match e {
        TextIrError::Parse(s) => "parse error: "@ + s@,
        TextIrError::Validation(s) => "validation error: "@ + s@,
        TextIrError::UnsupportedVersion(s) => "unsupported version: "@ + s@,
    }
}

impl TextIrError {
    /// The error's message.
    pub fn to_string(&self) -> (r: String)
        ensures
            r@ == text_error_message(*self),
    {
        match self {
            TextIrError::Parse(s) => {
                let mut r = owned("parse error: ");
                push_str(&mut r, s.as_str());
                r
            },
            TextIrError::Validation(s) => {
                let mut r = owned("validation error: ");
                push_str(&mut r, s.as_str());
                r
            },
            TextIrError::UnsupportedVersion(s) => {
                let mut r = owned("unsupported version: ");
                push_str(&mut r, s.as_str());
                r
            },
        }
    }
}

} // verus!
