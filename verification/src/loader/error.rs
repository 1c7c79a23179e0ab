//! Core error type for the loader.

use vstd::prelude::*;

use crate::strutil;

verus! {

/// Errors raised while loading and parsing a configuration.
#[derive(Debug)]
pub enum FmtError {
    /// Parsing error from a format implementation.
    ParseError(String),
    /// Resource not found.
    NotFound,
    /// Generic static error message.
    Custom(&'static str),
    /// Input/output error from a source, as text.
    Io(String),
    /// Sandbox violation in the file system source.
    SandboxViolation,
}

impl Clone for FmtError {
    fn clone(&self) -> (r: Self)
        ensures
            r == *self,
    {
        match self {
            FmtError::ParseError(s) => FmtError::ParseError(s.clone()),
            FmtError::NotFound => FmtError::NotFound,
            FmtError::Custom(s) => FmtError::Custom(s),
            FmtError::Io(s) => FmtError::Io(s.clone()),
            FmtError::SandboxViolation => FmtError::SandboxViolation,
        }
    }
}

impl FmtError {
    /// A human-readable description of the error.
    pub fn message(&self) -> (r: String)
        ensures
            match self {
                FmtError::ParseError(s) => r@ == "parse error: "@ + s@,
                FmtError::NotFound => r@ == "not found"@,
                FmtError::Custom(s) => r@ == "custom error: "@ + s@,
                FmtError::Io(s) => r@ == "io error: "@ + s@,
                FmtError::SandboxViolation => r@ == "sandbox violation"@,
            },
    {
        match self {
            FmtError::ParseError(s) => strutil::concat("parse error: ", s.as_str()),
            FmtError::NotFound => strutil::to_string("not found"),
            FmtError::Custom(s) => strutil::concat("custom error: ", s),
            FmtError::Io(s) => strutil::concat("io error: ", s.as_str()),
            FmtError::SandboxViolation => strutil::to_string("sandbox violation"),
        }
    }
}

} // verus!
