//! The single-entry controller: one key, one loader, one store slot.

use std::sync::Arc;
use vstd::prelude::*;

use crate::holder::store::Store;
use crate::holder::UnloadPolicy;
use crate::loader::impls::probe_candidates;
use crate::loader::impls::spec_probe;
use crate::loader::resolved_origin;
use crate::loader::DynLoader;
use crate::loader::FmtError;
use crate::loader::LoadResult;
use crate::loader::PreProcess;
use crate::loader::Source;
use crate::loader::ValidateConfig;
use crate::strutil;

use super::error::LiveError;

verus! {

/// A controller for a single live-reloading configuration value.
///
/// It owns the store slot and the loader; watching the origin file for
/// changes is the caller's loop, which re-invokes [`Live::reload`] on
/// every event.
pub struct Live<T, S> {
    store: Store<T>,
    loader: DynLoader<S>,
    key: String,
}

/// Builder for the [`Live`] controller.
pub struct LiveBuilder<T, S> {
    store: Option<Store<T>>,
    loader: Option<DynLoader<S>>,
    key: Option<String>,
}

impl<T, S: Source> LiveBuilder<T, S> {
    /// The store chosen so far.
    pub closed spec fn spec_store(&self) -> Option<Store<T>> {
        self.store
    }

    /// The loader chosen so far.
    pub closed spec fn spec_loader(&self) -> Option<DynLoader<S>> {
        self.loader
    }

    /// The key chosen so far.
    pub closed spec fn spec_key(&self) -> Option<String> {
        self.key
    }

    /// Creates an empty builder.
    pub fn new() -> (r: Self)
        ensures
            r.spec_store() is None,
            r.spec_loader() is None,
            r.spec_key() is None,
    {
        LiveBuilder { store: None, loader: None, key: None }
    }

    /// Sets the store.
    pub fn store(self, store: Store<T>) -> (r: Self)
        ensures
            r.spec_store() == Some(store),
            r.spec_loader() == self.spec_loader(),
            r.spec_key() == self.spec_key(),
    {
        LiveBuilder { store: Some(store), loader: self.loader, key: self.key }
    }

    /// Sets the loader.
    pub fn loader(self, loader: DynLoader<S>) -> (r: Self)
        ensures
            r.spec_loader() == Some(loader),
            r.spec_store() == self.spec_store(),
            r.spec_key() == self.spec_key(),
    {
        LiveBuilder { store: self.store, loader: Some(loader), key: self.key }
    }

    /// Sets the key.
    pub fn key(self, key: &str) -> (r: Self)
        ensures
            r.spec_key() matches Some(k) && k@ == key@,
            r.spec_store() == self.spec_store(),
            r.spec_loader() == self.spec_loader(),
    {
        LiveBuilder { store: self.store, loader: self.loader, key: Some(strutil::to_string(key)) }
    }

    /// Builds the controller; store, loader and key are all required.
    pub fn build(self) -> (r: Result<Live<T, S>, LiveError>)
        ensures
            match r {
                Ok(l) => (self.spec_store() matches Some(st) && l.spec_store() == st) && (
                self.spec_loader() matches Some(ld) && l.spec_loader() == ld) && (
                self.spec_key() matches Some(k) && l.spec_key() == k@),
                Err(e) => e is Builder && (self.spec_store() is None || self.spec_loader() is None
                    || self.spec_key() is None),
            },
    {
        let store = match self.store {
            Some(s) => s,
            None => {
                return Err(LiveError::Builder(strutil::to_string("store is required")));
            },
        };
        let loader = match self.loader {
            Some(l) => l,
            None => {
                return Err(LiveError::Builder(strutil::to_string("loader is required")));
            },
        };
        let key = match self.key {
            Some(k) => k,
            None => {
                return Err(LiveError::Builder(strutil::to_string("key is required")));
            },
        };
        Ok(Live { store, loader, key })
    }
}

impl<T, S: Source> Live<T, S> {
    /// The owned store.
    pub closed spec fn spec_store(&self) -> Store<T> {
        self.store
    }

    /// The owned loader.
    pub closed spec fn spec_loader(&self) -> DynLoader<S> {
        self.loader
    }

    /// The managed key.
    pub closed spec fn spec_key(&self) -> Seq<char> {
        self.key@
    }

    /// Well-formedness of the store and the loader's source.
    pub open spec fn wf(&self) -> bool {
        &&& self.spec_store().wf()
        &&& self.spec_loader().inv()
    }

    /// Creates a controller over a store, a loader and a key.
    pub fn new(store: Store<T>, loader: DynLoader<S>, key: &str) -> (r: Self)
        ensures
            r.spec_store() == store,
            r.spec_loader() == loader,
            r.spec_key() == key@,
    {
        Live { store, loader, key: strutil::to_string(key) }
    }

    /// Creates an empty builder.
    pub fn builder() -> (r: LiveBuilder<T, S>)
        ensures
            r.spec_store() is None,
            r.spec_loader() is None,
            r.spec_key() is None,
    {
        LiveBuilder::new()
    }

    /// Performs an immediate load from the source.
    ///
    /// On success the value is installed in the store under the managed
    /// key with a fresh version, the default policy, and the canonical
    /// origin the source captured for the chosen probe key (the key
    /// itself when none was captured). A `NotFound` load error occurs
    /// exactly when no probe candidate exists; on any failure the store
    /// is untouched.
    pub fn load(&mut self) -> (r: Result<(), LiveError>)
        where T: serde::de::DeserializeOwned + PreProcess + ValidateConfig
        requires
            old(self).wf(),
            old(self).spec_store().spec_version() < u64::MAX,
        ensures
            final(self).wf(),
            final(self).spec_key() == old(self).spec_key(),
            final(self).spec_loader() == old(self).spec_loader(),
            spec_probe(
                probe_candidates(old(self).spec_key(), old(self).spec_loader().spec_formats()),
                old(self).spec_loader().contents(),
            ) is None <==> (r matches Err(e) && e matches LiveError::Load(f) && f is NotFound),
            r is Err ==> final(self).spec_store() == old(self).spec_store(),
            r is Ok ==> ({
                let st = final(self).spec_store();
                let prev = old(self).spec_store();
                let k = old(self).spec_key();
                &&& st.spec_version() == prev.spec_version() + 1
                &&& st.contents().contains_key(k)
                &&& st.contents()[k].meta.version == prev.spec_version() + 1
                &&& st.contents()[k].meta.policy == UnloadPolicy::Removable
                &&& (spec_probe(
                    probe_candidates(k, old(self).spec_loader().spec_formats()),
                    old(self).spec_loader().contents(),
                ) matches Some(found) && st.contents()[k].meta.source@ == resolved_origin(
                    old(self).spec_loader().spec_source(),
                    found.0,
                ))
                &&& forall|k2: Seq<char>| #![auto]
                    k2 != k ==> st.contents().contains_key(k2) == prev.contents().contains_key(k2)
                &&& forall|k2: Seq<char>| #![auto]
                    k2 != k && prev.contents().contains_key(k2) ==> st.contents()[k2]
                        == prev.contents()[k2]
            }),
    {
        match self.loader.load::<T>(self.key.as_str()) {
            LoadResult::Loaded { value, info } => {
                self.store.insert(self.key.clone(), value, info.path, UnloadPolicy::default());
                Ok(())
            },
            LoadResult::NotFound => Err(LiveError::Load(FmtError::NotFound)),
            LoadResult::Invalid(e) => Err(LiveError::Load(e)),
        }
    }

    /// Manually reloads the configuration.
    pub fn reload(&mut self) -> (r: Result<(), LiveError>)
        where T: serde::de::DeserializeOwned + PreProcess + ValidateConfig
        requires
            old(self).wf(),
            old(self).spec_store().spec_version() < u64::MAX,
        ensures
            final(self).wf(),
            final(self).spec_key() == old(self).spec_key(),
            r is Err ==> final(self).spec_store() == old(self).spec_store(),
    {
        self.load()
    }

    /// Returns the current configuration value.
    pub fn get(&self) -> (r: Option<Arc<T>>)
        requires
            self.wf(),
        ensures
            match r {
                Some(v) => self.spec_store().contents().contains_key(self.spec_key()) && v
                    == self.spec_store().contents()[self.spec_key()].value,
                None => !self.spec_store().contents().contains_key(self.spec_key()),
            },
    {
        self.store.get(self.key.as_str())
    }

    /// The version of the currently stored value, if any.
    pub fn version(&self) -> (r: Option<u64>)
        requires
            self.wf(),
        ensures
            match r {
                Some(v) => self.spec_store().contents().contains_key(self.spec_key()) && v
                    == self.spec_store().contents()[self.spec_key()].meta.version,
                None => !self.spec_store().contents().contains_key(self.spec_key()),
            },
    {
        match self.store.get_meta(self.key.as_str()) {
            Some(m) => Some(m.version),
            None => None,
        }
    }

    /// The origin path of the currently stored value, if any.
    pub fn origin(&self) -> (r: Option<String>)
        requires
            self.wf(),
        ensures
            match r {
                Some(p) => self.spec_store().contents().contains_key(self.spec_key()) && p@
                    == self.spec_store().contents()[self.spec_key()].meta.source@,
                None => !self.spec_store().contents().contains_key(self.spec_key()),
            },
    {
        match self.store.get_meta(self.key.as_str()) {
            Some(m) => Some(m.source),
            None => None,
        }
    }

    /// Swaps the loader for a new one, returning the old; the next load
    /// reads through the new loader.
    pub fn replace_loader(&mut self, loader: DynLoader<S>) -> (r: DynLoader<S>)
        requires
            old(self).wf(),
            loader.inv(),
        ensures
            final(self).wf(),
            r == old(self).spec_loader(),
            final(self).spec_loader() == loader,
            final(self).spec_store() == old(self).spec_store(),
            final(self).spec_key() == old(self).spec_key(),
    {
        let mut loader = loader;
        core::mem::swap(&mut loader, &mut self.loader);
        loader
    }

    /// Hands out the store's recorded events and clears the record.
    pub fn take_events(&mut self) -> (r: Vec<crate::holder::HoldEvent<T>>)
        requires
            old(self).wf(),
        ensures
            final(self).wf(),
            r@ == old(self).spec_store().spec_events(),
            final(self).spec_store().contents() == old(self).spec_store().contents(),
            final(self).spec_key() == old(self).spec_key(),
            final(self).spec_loader() == old(self).spec_loader(),
    {
        self.store.take_events()
    }
}

} // verus!
