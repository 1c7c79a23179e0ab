//! Retention policy of a stored entry.

use vstd::prelude::*;

verus! {

/// What happens to an entry when its source disappears.
#[derive(Debug, Clone, Copy, PartialEq, Eq, Structural)]
pub enum UnloadPolicy {
    /// The entry is removed from memory when its source file is deleted.
    Removable,
    /// The entry is retained in memory even if its source file is deleted.
    Persistent,
}

impl Default for UnloadPolicy {
    /// The default policy is `Removable`.
    fn default() -> (r: Self)
        ensures
            r == UnloadPolicy::Removable,
    {
        UnloadPolicy::Removable
    }
}

} // verus!
