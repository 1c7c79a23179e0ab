//! Metadata attached to a stored entry.

use vstd::prelude::*;

use super::policy::UnloadPolicy;

verus! {

/// Metadata associated with a config entry.
#[derive(Debug)]
pub struct Meta {
    /// Source path the value was loaded from.
    pub source: String,
    /// Milliseconds since the Unix epoch when the value was loaded.
    pub loaded_at: u64,
    /// Version number, fresh on each change of the store.
    pub version: u64,
    /// Unload policy for this entry.
    pub policy: UnloadPolicy,
}

impl Clone for Meta {
    fn clone(&self) -> (r: Self)
        ensures
            r == *self,
    {
        Meta {
            source: self.source.clone(),
            loaded_at: self.loaded_at,
            version: self.version,
            policy: self.policy,
        }
    }
}

} // verus!
