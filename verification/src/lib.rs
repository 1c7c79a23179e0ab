//! Live-reloading, typed, in-process configuration.

use vstd::prelude::*;

pub mod controller;
pub mod holder;
pub mod keymap;
pub mod loader;
pub mod signal;
pub mod strutil;

verus! {

/// Default capacity used by event buffers.
pub const DEFAULT_EVENT_CAPACITY: usize = 100;

} // verus!
