//! Errors raised by the store.

use vstd::prelude::*;

use crate::strutil;

verus! {

/// Errors raised by store operations.
#[derive(Debug)]
pub enum HoldError {
    /// Attempted to remove a config with `Persistent` policy.
    PersistentRemoval { key: String },
    /// The requested key was not found in the store.
    NotFound { key: String },
    /// The key was removed by another writer between check and removal.
    ///
    /// This differs from `NotFound` in that the key existed when the
    /// operation started, but was concurrently removed.
    ConcurrentlyRemoved { key: String },
}

impl Clone for HoldError {
    fn clone(&self) -> (r: Self)
        ensures
            r == *self,
    {
        match self {
            HoldError::PersistentRemoval { key } => HoldError::PersistentRemoval {
                key: key.clone(),
            },
            HoldError::NotFound { key } => HoldError::NotFound { key: key.clone() },
            HoldError::ConcurrentlyRemoved { key } => HoldError::ConcurrentlyRemoved {
                key: key.clone(),
            },
        }
    }
}

impl HoldError {
    /// The key the error speaks of.
    pub open spec fn spec_key(&self) -> Seq<char> {
        match self {
            HoldError::PersistentRemoval { key } => key@,
            HoldError::NotFound { key } => key@,
            HoldError::ConcurrentlyRemoved { key } => key@,
        }
    }

    /// A human-readable description of the error.
    pub fn message(&self) -> (r: String)
        ensures
            match self {
                HoldError::PersistentRemoval { key } => r@ == "cannot remove persistent config: "@
                    + key@,
                HoldError::NotFound { key } => r@ == "key not found: "@ + key@,
                HoldError::ConcurrentlyRemoved { key } => r@ == "key was concurrently removed: "@
                    + key@,
            },
    {
        match self {
            HoldError::PersistentRemoval { key } => strutil::concat(
                "cannot remove persistent config: ",
                key.as_str(),
            ),
            HoldError::NotFound { key } => strutil::concat("key not found: ", key.as_str()),
            HoldError::ConcurrentlyRemoved { key } => strutil::concat(
                "key was concurrently removed: ",
                key.as_str(),
            ),
        }
    }
}

} // verus!
