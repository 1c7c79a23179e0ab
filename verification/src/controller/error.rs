//! Errors surfaced by the controllers.

use vstd::prelude::*;

use crate::holder::HoldError;
use crate::loader::FmtError;
use crate::signal::SignalError;
use crate::strutil;

verus! {

/// Errors that can occur in the `Live` and `LiveDir` controllers.
#[derive(Debug)]
pub enum LiveError {
    /// A load failed.
    Load(FmtError),
    /// A store operation failed.
    Store(HoldError),
    /// Input/output error, as text.
    Io(String),
    /// The watch machinery failed.
    Signal(SignalError),
    /// The config was not loaded yet; load before watching.
    NotLoaded,
    /// A scan saw more entries than allowed.
    LimitExceeded(String),
    /// A required controller field is missing.
    Builder(String),
}

impl LiveError {
    /// A human-readable description of the error.
    pub fn message(&self) -> (r: String)
        ensures
            match self {
                LiveError::NotLoaded => r@
                    == "Config not loaded yet. Call load() before watch()."@,
                LiveError::LimitExceeded(s) => r@ == "Entry limit exceeded: "@ + s@,
                LiveError::Builder(s) => r@ == "Builder error: "@ + s@,
                _ => r@.len() > 0,
            },
    {
        match self {
            LiveError::Load(e) => {
                let r = strutil::concat("Load error: ", e.message().as_str());
                proof {
                    reveal_strlit("Load error: ");
                }
                r
            },
            LiveError::Store(e) => {
                let r = strutil::concat("Store error: ", e.message().as_str());
                proof {
                    reveal_strlit("Store error: ");
                }
                r
            },
            LiveError::Io(s) => {
                let r = strutil::concat("IO error: ", s.as_str());
                proof {
                    reveal_strlit("IO error: ");
                }
                r
            },
            LiveError::Signal(_) => {
                let r = strutil::to_string("Signal error");
                proof {
                    reveal_strlit("Signal error");
                }
                r
            },
            LiveError::NotLoaded => strutil::to_string(
                "Config not loaded yet. Call load() before watch().",
            ),
            LiveError::LimitExceeded(s) => strutil::concat("Entry limit exceeded: ", s.as_str()),
            LiveError::Builder(s) => strutil::concat("Builder error: ", s.as_str()),
        }
    }
}

} // verus!
