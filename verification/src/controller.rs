//! The `Live` and `LiveDir` controllers for live-reloading configuration.
//!
//! They bind a [`crate::holder::Store`] to a loader, and the directory
//! controller reconciles a directory listing against the store.

pub mod dir;
pub mod error;
pub mod live;
pub mod pattern;

pub use dir::ListEntry;
pub use dir::LiveDir;
pub use dir::LiveDirBuilder;
pub use error::LiveError;
pub use live::Live;
pub use live::LiveBuilder;
pub use pattern::KeyExtractor;
pub use pattern::KeyPattern;
pub use pattern::ScanMode;
pub use pattern::ScanResult;
