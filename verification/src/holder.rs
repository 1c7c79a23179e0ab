//! Thread-safe, atomic configuration storage.
//!
//! The [`store::Store`] maps string keys to typed entries; every write is a
//! single atomic transition of its abstract map, and entries carry metadata
//! with a monotonically increasing version.

pub mod entry;
pub mod error;
pub mod event;
pub mod meta;
pub mod policy;
pub mod store;

pub use entry::Entry;
pub use error::HoldError;
pub use event::HoldEvent;
pub use meta::Meta;
pub use policy::UnloadPolicy;
pub use store::Store;

