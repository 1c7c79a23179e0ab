//! Events recorded by the store on config changes.

use std::sync::Arc;
use vstd::prelude::*;

use super::entry::arc_clone;
use super::error::HoldError;
use super::meta::Meta;

verus! {

/// Events recorded by the store on config changes.
#[derive(Debug)]
pub enum HoldEvent<T> {
    /// A new config was loaded.
    Loaded { key: String, value: Arc<T>, meta: Meta },
    /// An existing config was updated.
    Updated { key: String, old: Arc<T>, new: Arc<T>, meta: Meta },
    /// A config was removed.
    Removed { key: String, value: Arc<T> },
    /// A removal was rejected due to `Persistent` policy.
    Retained { key: String, error: HoldError },
}

impl<T> Clone for HoldEvent<T> {
    fn clone(&self) -> (r: Self)
        ensures
            r == *self,
    {
        match self {
            HoldEvent::Loaded { key, value, meta } => HoldEvent::Loaded {
                key: key.clone(),
                value: arc_clone(value),
                meta: meta.clone(),
            },
            HoldEvent::Updated { key, old, new, meta } => HoldEvent::Updated {
                key: key.clone(),
                old: arc_clone(old),
                new: arc_clone(new),
                meta: meta.clone(),
            },
            HoldEvent::Removed { key, value } => HoldEvent::Removed {
                key: key.clone(),
                value: arc_clone(value),
            },
            HoldEvent::Retained { key, error } => HoldEvent::Retained {
                key: key.clone(),
                error: error.clone(),
            },
        }
    }
}

impl<T> HoldEvent<T> {
    /// The key the event speaks of.
    pub open spec fn spec_key(&self) -> Seq<char> {
        match self {
            HoldEvent::Loaded { key, .. } => key@,
            HoldEvent::Updated { key, .. } => key@,
            HoldEvent::Removed { key, .. } => key@,
            HoldEvent::Retained { key, .. } => key@,
        }
    }
}

} // verus!
