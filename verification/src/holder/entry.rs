//! A stored entry: shared value plus metadata.

use std::sync::Arc;
use vstd::prelude::*;

use super::meta::Meta;

verus! {

/// Relies on `std::sync::Arc::clone`: the clone shares the same pointee,
/// so its abstract value equals the original's.
#[verifier::external_body]
pub fn arc_clone<T>(v: &Arc<T>) -> (r: Arc<T>)
    ensures
        r == *v,
{
    Arc::clone(v)
}

/// A config entry holding the value and its metadata.
#[derive(Debug)]
pub struct Entry<T> {
    /// The config value, shared so readers keep it alive.
    pub value: Arc<T>,
    /// Metadata about this entry.
    pub meta: Meta,
}

impl<T> Clone for Entry<T> {
    fn clone(&self) -> (r: Self)
        ensures
            r == *self,
    {
        Entry { value: arc_clone(&self.value), meta: self.meta.clone() }
    }
}

} // verus!
