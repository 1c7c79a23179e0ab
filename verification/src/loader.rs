//! Format-agnostic loading of typed values from pluggable byte sources.
//!
//! A [`Source`] hands out raw bytes by key; a format parses them; optional
//! hooks normalize and validate the parsed value. The [`impls::DynLoader`]
//! probes registered formats by file extension.

pub mod error;
pub mod format;
pub mod impls;
pub mod source;

pub use error::FmtError;
pub use format::AnyFormat;
pub use format::Json;
pub use format::Postcard;
pub use format::Toml;
pub use format::Yaml;
pub use impls::DynLoader;
pub use impls::DynLoaderBuilder;
pub use impls::StaticLoader;
pub use source::FileSource;
pub use source::MemorySource;

use vstd::prelude::*;

verus! {

/// Where a loaded value came from.
#[derive(Debug)]
pub struct LoadInfo {
    /// The origin of the bytes: the canonical path the source captured
    /// for the key that was read, or that key itself when none was.
    pub path: String,
    /// The tag of the format that parsed them: its first extension.
    pub format: &'static str,
}

/// Result of a loading operation.
#[derive(Debug)]
pub enum LoadResult<T> {
    /// Successfully loaded and parsed.
    Loaded { value: T, info: LoadInfo },
    /// Resource not found at the given key.
    NotFound,
    /// Resource exists but is invalid.
    Invalid(FmtError),
}

/// A hook to process data after parsing but before validation.
pub trait PreProcess {
    /// Performs data normalization.
    fn pre_process(&mut self) {
    }

    /// Receives context information, such as the key loaded from.
    fn set_context(&mut self, ctx: &str) {
    }
}

/// An optional validation hook over a parsed value.
///
/// A failed validation reports its own error, never `NotFound`: that
/// error is reserved for a missing resource, which validation of a
/// parsed value cannot observe.
pub trait ValidateConfig {
    /// Accepts or rejects the value; the default accepts everything.
    fn validate_config(&self) -> (r: Result<(), FmtError>)
        ensures
            r matches Err(e) ==> !(e is NotFound),
    {
        Ok(())
    }
}

/// The origin a load under `key` reports: the canonical origin the
/// source captured for the key, or the key itself when none was.
pub open spec fn resolved_origin<S: Source>(s: S, key: Seq<char>) -> Seq<char> {
    if s.origins().contains_key(key) {
        s.origins()[key]
    } else {
        key
    }
}

/// Abstract data source that retrieves raw bytes by key.
///
/// A source is modelled by its abstract contents, a map from keys to byte
/// strings; reads answer exactly from it, so the only read error is
/// `NotFound`. This is narrower than the error taxonomy of a raw
/// filesystem: whoever fills a source from files surfaces input/output
/// and sandbox errors while reading them, before the loader asks.
/// A source may also record, per key, the canonical path the bytes were
/// captured from; loads report it as the entry's origin.
pub trait Source {
    /// The source's internal invariant; constructors establish it and
    /// mutators preserve it.
    spec fn inv(&self) -> bool;

    /// The abstract key-to-bytes mapping the source holds.
    spec fn contents(&self) -> Map<Seq<char>, Seq<u8>>;

    /// The canonical origins recorded for keys, where captured.
    spec fn origins(&self) -> Map<Seq<char>, Seq<char>>;

    /// Hands out the canonical origin recorded for a key, if any.
    fn origin_of(&self, key: &str) -> (r: Option<String>)
        requires
            self.inv(),
        ensures
            match r {
                Some(p) => self.origins().contains_key(key@) && p@ == self.origins()[key@],
                None => !self.origins().contains_key(key@),
            },
    ;

    /// Reads raw data as a vector of bytes.
    fn read(&self, key: &str) -> (r: Result<Vec<u8>, FmtError>)
        requires
            self.inv(),
        ensures
            match r {
                Ok(b) => self.contents().contains_key(key@) && b@ == self.contents()[key@],
                Err(e) => !self.contents().contains_key(key@) && e is NotFound,
            },
    ;

    /// Checks if the resource exists at the given key.
    fn has_key(&self, key: &str) -> (r: bool)
        requires
            self.inv(),
        ensures
            r == self.contents().contains_key(key@),
    ;
}

} // verus!
