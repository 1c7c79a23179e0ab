//! The atomic configuration store.
//!
//! The store maps string keys to entries (shared value plus metadata).
//! Each write is one atomic transition of the abstract map `contents()`;
//! readers observe either the pre- or the post-state of a write, never a
//! torn mix. A global version counter tags every mutation, and entries
//! with `Persistent` policy survive removal and replacement.

use std::sync::Arc;
use vstd::prelude::*;

use crate::keymap::KeyMap;

use super::entry::arc_clone;
use super::entry::Entry;
use super::error::HoldError;
use super::event::HoldEvent;
use super::meta::Meta;
use super::policy::UnloadPolicy;

verus! {

/// Relies on `std::time::SystemTime::now`: milliseconds since the Unix
/// epoch, or zero if the clock reads earlier than the epoch. The result
/// depends on the clock, so nothing is promised of it.
#[verifier::external_body]
fn now_millis() -> u64 {
    match std::time::SystemTime::now().duration_since(std::time::SystemTime::UNIX_EPOCH) {
        Ok(d) => d.as_millis() as u64,
        Err(_) => 0,
    }
}

/// Result of a sync operation.
#[derive(Debug)]
pub struct SyncResult<E> {
    /// Keys that were newly added.
    pub added: Vec<String>,
    /// Keys that failed to load.
    pub failed: Vec<(String, E)>,
    /// Keys that were removed.
    pub removed: Vec<String>,
    /// Keys that were retained due to `Persistent` policy.
    pub retained: Vec<String>,
}

impl<E> Default for SyncResult<E> {
    /// An empty result.
    fn default() -> (r: Self)
        ensures
            r.added@.len() == 0,
            r.failed@.len() == 0,
            r.removed@.len() == 0,
            r.retained@.len() == 0,
    {
        SyncResult { added: Vec::new(), failed: Vec::new(), removed: Vec::new(), retained: Vec::new() }
    }
}

/// True if some element of `keys` reads `k`.
pub open spec fn key_listed(keys: Seq<String>, k: Seq<char>) -> bool {
    exists|i: int| 0 <= i < keys.len() && (#[trigger] keys[i])@ == k
}

/// The entry under `k` is one the loader closure could have produced for
/// the key: some accepted argument-result pair of the closure supplies
/// exactly the stored value, origin and policy.
pub open spec fn entry_from_loader<T, F: Fn(&str) -> Result<(T, String, UnloadPolicy), E>, E>(
    m: Map<Seq<char>, Entry<T>>,
    loader: F,
    k: Seq<char>,
) -> bool {
    exists|s2: &str, tup: (T, String, UnloadPolicy)|
        s2@ == k && #[trigger] call_ensures(loader, (s2,), Ok::<
            (T, String, UnloadPolicy),
            E,
        >(tup)) && m.contains_key(k) && m[k].value == tup.0 && m[k].meta.source@ == tup.1@
            && m[k].meta.policy == tup.2
}

/// Every entry's version is positive and no newer than the counter.
pub open spec fn entries_wf<T>(m: Map<Seq<char>, Entry<T>>, version: u64) -> bool {
    forall|k: Seq<char>| m.contains_key(k) ==> 1 <= (#[trigger] m[k]).meta.version <= version
}

/// Thread-safe config store with atomic replacement support.
///
/// A value of this type is one published snapshot of the mapping; writers
/// hold it exclusively while readers may share it. Every mutation is a
/// single transition of [`Store::contents`].
pub struct Store<T> {
    inner: KeyMap<Entry<T>>,
    version: u64,
    events: Vec<HoldEvent<T>>,
}

impl<T> Store<T> {
    /// The abstract key-to-entry mapping.
    pub closed spec fn contents(&self) -> Map<Seq<char>, Entry<T>> {
        self.inner@
    }

    /// The global version counter.
    pub closed spec fn spec_version(&self) -> u64 {
        self.version
    }

    /// The events recorded so far, oldest first.
    pub closed spec fn spec_events(&self) -> Seq<HoldEvent<T>> {
        self.events@
    }

    /// Well-formedness: distinct keys, and versions bounded by the counter.
    pub closed spec fn wf(&self) -> bool {
        &&& self.inner.wf()
        &&& entries_wf(self.inner@, self.version)
    }

    /// In a well-formed store every entry's version is positive and at most
    /// the counter's value.
    pub proof fn lemma_wf_versions(&self)
        requires
            self.wf(),
        ensures
            forall|k: Seq<char>| self.contents().contains_key(k) ==> 1 <= (
            #[trigger] self.contents()[k]).meta.version <= self.spec_version(),
    {
    }

    /// The domain of the contents is finite.
    pub proof fn lemma_contents_finite(&self)
        requires
            self.wf(),
        ensures
            self.contents().dom().finite(),
    {
        self.inner.lemma_dom_len();
    }

    /// Creates a new empty store.
    pub fn new() -> (r: Store<T>)
        ensures
            r.wf(),
            r.contents() == Map::<Seq<char>, Entry<T>>::empty(),
            r.spec_version() == 0,
            r.spec_events() == Seq::<HoldEvent<T>>::empty(),
    {
        Store { inner: KeyMap::new(), version: 0, events: Vec::new() }
    }

    /// Gets a config value by key.
    pub fn get(&self, key: &str) -> (r: Option<Arc<T>>)
        requires
            self.wf(),
        ensures
            match r {
                Some(v) => self.contents().contains_key(key@) && v == self.contents()[key@].value,
                None => !self.contents().contains_key(key@),
            },
    {
        match self.inner.get(key) {
            Some(entry) => Some(arc_clone(&entry.value)),
            None => None,
        }
    }

    /// Gets metadata for a config by key.
    pub fn get_meta(&self, key: &str) -> (r: Option<Meta>)
        requires
            self.wf(),
        ensures
            match r {
                Some(m) => self.contents().contains_key(key@) && m == self.contents()[key@].meta,
                None => !self.contents().contains_key(key@),
            },
    {
        match self.inner.get(key) {
            Some(entry) => Some(entry.meta.clone()),
            None => None,
        }
    }

    /// Gets the full entry (value plus metadata) by key.
    pub fn get_entry(&self, key: &str) -> (r: Option<Entry<T>>)
        requires
            self.wf(),
        ensures
            match r {
                Some(e) => self.contents().contains_key(key@) && e == self.contents()[key@],
                None => !self.contents().contains_key(key@),
            },
    {
        match self.inner.get(key) {
            Some(entry) => Some(entry.clone()),
            None => None,
        }
    }

    /// Returns all keys in the store.
    pub fn keys(&self) -> (r: Vec<String>)
        requires
            self.wf(),
        ensures
            r@.len() == self.contents().dom().len(),
            forall|i: int| 0 <= i < r@.len() ==> self.contents().contains_key(#[trigger] r@[i]@),
            forall|i: int, j: int| 0 <= i < j < r@.len() ==> r@[i]@ != r@[j]@,
            forall|k: Seq<char>| self.contents().contains_key(k) ==> exists|i: int|
                0 <= i < r@.len() && #[trigger] r@[i]@ == k,
    {
        let r = self.inner.keys();
        proof {
            self.inner.lemma_dom_len();
            assert forall|k: Seq<char>| self.contents().contains_key(k) implies exists|i: int|
                0 <= i < r@.len() && #[trigger] r@[i]@ == k by {
                self.inner.lemma_view_in_pairs(k);
                let i = choose|i: int|
                    0 <= i < self.inner.spec_pairs().len() && self.inner.spec_pairs()[i].0@ == k;
                assert(r@[i]@ == k);
            }
        }
        r
    }

    /// Returns the number of entries.
    pub fn len(&self) -> (r: usize)
        requires
            self.wf(),
        ensures
            r == self.contents().dom().len(),
    {
        self.inner.len()
    }

    /// Returns true if the store is empty.
    pub fn is_empty(&self) -> (r: bool)
        requires
            self.wf(),
        ensures
            r == (self.contents().dom().len() == 0),
    {
        self.inner.is_empty()
    }

    /// Hands out the events recorded so far and clears the record.
    pub fn take_events(&mut self) -> (r: Vec<HoldEvent<T>>)
        requires
            old(self).wf(),
        ensures
            final(self).wf(),
            r@ == old(self).spec_events(),
            final(self).spec_events() == Seq::<HoldEvent<T>>::empty(),
            final(self).contents() == old(self).contents(),
            final(self).spec_version() == old(self).spec_version(),
    {
        let mut out: Vec<HoldEvent<T>> = Vec::new();
        core::mem::swap(&mut out, &mut self.events);
        out
    }

    /// Returns an atomic snapshot of all entries.
    pub fn snapshot(&self) -> (r: KeyMap<Entry<T>>)
        requires
            self.wf(),
        ensures
            r.wf(),
            r@ == self.contents(),
    {
        let n = self.inner.pair_count();
        let mut out: KeyMap<Entry<T>> = KeyMap::new();
        let mut i: usize = 0;
        while i < n
            invariant
                self.wf(),
                n == self.inner.spec_pairs().len(),
                0 <= i <= n,
                out.wf(),
                out@ == crate::keymap::pairs_to_map(self.inner.spec_pairs().take(i as int)),
            decreases n - i,
        {
            let pair = self.inner.pair_at(i);
            let key = pair.0.clone();
            let entry = pair.1.clone();
            out.insert(key, entry);
            proof {
                assert(self.inner.spec_pairs().take(i + 1 as int).drop_last() =~= self
                    .inner
                    .spec_pairs()
                    .take(i as int));
                assert(self.inner.spec_pairs().take(i + 1 as int).last() == self
                    .inner
                    .spec_pairs()[i as int]);
            }
            i = i + 1;
        }
        proof {
            assert(self.inner.spec_pairs().take(n as int) =~= self.inner.spec_pairs());
            self.inner.lemma_view_is_pairs();
        }
        out
    }

    /// Removes a config entry by key.
    ///
    /// Fails with `NotFound` when the key is absent and with
    /// `PersistentRemoval` when the entry's policy forbids removal; the
    /// latter also records a `Retained` event. On success the entry is
    /// gone, a `Removed` event is recorded, and the removed shared value
    /// is returned.
    pub fn remove(&mut self, key: &str) -> (r: Result<Arc<T>, HoldError>)
        requires
            old(self).wf(),
        ensures
            final(self).wf(),
            final(self).spec_version() == old(self).spec_version(),
            (r matches Ok(v) && v == old(self).contents()[key@].value) <==> (old(self).contents().contains_key(key@) && old(self).contents()[key@].meta.policy
                == UnloadPolicy::Removable),
            r matches Ok(v) ==> final(self).contents() == old(self).contents().remove(key@)
                && final(self).spec_events() == old(self).spec_events().push(
                final(self).spec_events().last(),
            ) && (final(self).spec_events().last() matches HoldEvent::Removed {
                key: k,
                value: v2,
            } && k@ == key@ && v2 == v),
            (r matches Err(e) && e matches HoldError::NotFound { key: k } && k@ == key@) <==> !old(self).contents().contains_key(key@),
            (r matches Err(e) && e matches HoldError::PersistentRemoval { key: k } && k@ == key@)
                <==> (old(self).contents().contains_key(key@) && old(self).contents()[key@].meta.policy == UnloadPolicy::Persistent),
            r matches Err(e) ==> final(self).contents() == old(self).contents() && !(
            e matches HoldError::ConcurrentlyRemoved { .. }),
            (r matches Err(e) && e matches HoldError::NotFound { .. }) ==> final(self).spec_events() == old(self).spec_events(),
            (r matches Err(e) && e matches HoldError::PersistentRemoval { .. }) ==> final(self).spec_events() == old(self).spec_events().push(final(self).spec_events().last()) && (
            final(self).spec_events().last() matches HoldEvent::Retained { key: k, error: e2 } && k@
                == key@ && (e2 matches HoldError::PersistentRemoval { key: k2 } && k2@ == key@)),
    {
        let present_persistent: bool;
        match self.inner.get(key) {
            None => {
                return Err(HoldError::NotFound { key: crate::strutil::to_string(key) });
            },
            Some(entry) => {
                present_persistent = entry.meta.policy == UnloadPolicy::Persistent;
            },
        }
        if present_persistent {
            let error = HoldError::PersistentRemoval { key: crate::strutil::to_string(key) };
            self.events.push(
                HoldEvent::Retained { key: crate::strutil::to_string(key), error: error.clone() },
            );
            return Err(error);
        }
        match self.inner.remove(key) {
            Some(entry) => {
                self.events.push(
                    HoldEvent::Removed {
                        key: crate::strutil::to_string(key),
                        value: arc_clone(&entry.value),
                    },
                );
                Ok(entry.value)
            },
            // The entry was observed above, so this arm cannot be reached;
            // a concurrent wrapper would report the race here.
            None => Err(HoldError::ConcurrentlyRemoved { key: crate::strutil::to_string(key) }),
        }
    }

    /// Inserts or updates a config entry.
    ///
    /// Allocates a fresh version, strictly greater than every version in
    /// the store. Records an `Updated` event when the key existed and a
    /// `Loaded` event otherwise. Returns the installed shared value.
    pub fn insert(&mut self, key: String, value: T, source: String, policy: UnloadPolicy) -> (r:
        Arc<T>)
        requires
            old(self).wf(),
            old(self).spec_version() < u64::MAX,
        ensures
            final(self).wf(),
            final(self).spec_version() == old(self).spec_version() + 1,
            r == value,
            final(self).contents().contains_key(key@),
            ({
                let e = final(self).contents()[key@];
                &&& e.value == value
                &&& e.meta.version == old(self).spec_version() + 1
                &&& e.meta.policy == policy
                &&& e.meta.source@ == source@
            }),
            forall|k: Seq<char>| #![auto]
                k != key@ ==> final(self).contents().contains_key(k)
                    == old(self).contents().contains_key(k),
            forall|k: Seq<char>| #![auto]
                k != key@ && old(self).contents().contains_key(k) ==> final(self).contents()[k]
                    == old(self).contents()[k],
            forall|k: Seq<char>|
                old(self).contents().contains_key(k) ==> final(self).contents()[key@].meta.version
                    > (#[trigger] old(self).contents()[k]).meta.version,
            final(self).spec_events().len() == old(self).spec_events().len() + 1,
            final(self).spec_events() == old(self).spec_events().push(
                final(self).spec_events().last(),
            ),
            ({
                let ev = final(self).spec_events().last();
                if old(self).contents().contains_key(key@) {
                    ev matches HoldEvent::Updated { key: k, old: o, new: n, meta: m }
                        && k@ == key@ && o == old(self).contents()[key@].value && n == value
                        && m == final(self).contents()[key@].meta
                } else {
                    ev matches HoldEvent::Loaded { key: k, value: v, meta: m }
                        && k@ == key@ && v == value
                        && m == final(self).contents()[key@].meta
                }
            }),
    {
        let version = self.version + 1;
        self.version = version;
        let value = Arc::new(value);
        let meta = Meta { source, loaded_at: now_millis(), version, policy };
        let entry = Entry { value: arc_clone(&value), meta: meta.clone() };
        let old_entry = self.inner.insert(key.clone(), entry);
        let event = match old_entry {
            Some(prev) => HoldEvent::Updated {
                key,
                old: prev.value,
                new: arc_clone(&value),
                meta,
            },
            None => HoldEvent::Loaded { key, value: arc_clone(&value), meta },
        };
        self.events.push(event);
        value
    }

    /// Atomically replaces all entries. `Persistent` entries absent from
    /// the request are retained; every other absent entry is dropped.
    ///
    /// After the call a key is present exactly when it was requested or
    /// when it was already present with `Persistent` policy. Each requested
    /// entry is installed with a fresh version, allocated in request order.
    /// A `Loaded` or `Updated` event is recorded per requested entry, then
    /// a `Removed` or `Retained` event per dropped or retained old key.
    pub fn replace_all(&mut self, entries: KeyMap<(T, String, UnloadPolicy)>)
        requires
            old(self).wf(),
            entries.wf(),
            old(self).spec_version() + entries.spec_pairs().len() <= u64::MAX,
        ensures
            final(self).wf(),
            final(self).spec_version() == old(self).spec_version() + entries.spec_pairs().len(),
            forall|k: Seq<char>|
                final(self).contents().contains_key(k) <==> (entries@.contains_key(k) || (old(self).contents().contains_key(k) && (#[trigger] old(self).contents()[k]).meta.policy
                    == UnloadPolicy::Persistent)),
            forall|i: int|
                #![trigger entries.spec_pairs()[i]]
                0 <= i < entries.spec_pairs().len() ==> ({
                    let k = entries.spec_pairs()[i].0@;
                    let tup = entries.spec_pairs()[i].1;
                    &&& final(self).contents().contains_key(k)
                    &&& final(self).contents()[k].value == tup.0
                    &&& final(self).contents()[k].meta.source@ == tup.1@
                    &&& final(self).contents()[k].meta.policy == tup.2
                    &&& final(self).contents()[k].meta.version == old(self).spec_version() + 1 + i
                }),
            forall|k: Seq<char>|
                !entries@.contains_key(k) && old(self).contents().contains_key(k) && (
                #[trigger] old(self).contents()[k]).meta.policy == UnloadPolicy::Persistent ==>
                    final(self).contents()[k] == old(self).contents()[k],
            old(self).spec_events().is_prefix_of(final(self).spec_events()),
            final(self).spec_events().len() >= old(self).spec_events().len()
                + entries.spec_pairs().len(),
            forall|i: int|
                #![trigger entries.spec_pairs()[i]]
                0 <= i < entries.spec_pairs().len() ==> ({
                    let k = entries.spec_pairs()[i].0@;
                    let tup = entries.spec_pairs()[i].1;
                    let ev = final(self).spec_events()[old(self).spec_events().len() + i];
                    if old(self).contents().contains_key(k) {
                        ev matches HoldEvent::Updated { key: k2, old: o, new: n, .. } && k2@ == k
                            && o == old(self).contents()[k].value && n == tup.0
                    } else {
                        ev matches HoldEvent::Loaded { key: k2, value: v, .. } && k2@ == k && v
                            == tup.0
                    }
                }),
            forall|p: int|
                old(self).spec_events().len() + entries.spec_pairs().len() <= p < final(self).spec_events().len() ==> ({
                    let ev = #[trigger] final(self).spec_events()[p];
                    let k = ev.spec_key();
                    &&& old(self).contents().contains_key(k)
                    &&& !entries@.contains_key(k)
                    &&& if old(self).contents()[k].meta.policy == UnloadPolicy::Persistent {
                        ev matches HoldEvent::Retained { .. }
                    } else {
                        ev matches HoldEvent::Removed { key: k2, value: v } && v == old(self).contents()[k].value
                    }
                }),
            forall|k: Seq<char>|
                old(self).contents().contains_key(k) && !entries@.contains_key(k) ==> exists|p: int|
                    old(self).spec_events().len() + entries.spec_pairs().len() <= p < final(self).spec_events().len() && (#[trigger] final(self).spec_events()[p]).spec_key()
                        == k,
    {
        let ghost eseq = entries.spec_pairs();
        let ghost entries_view = entries@;
        let ghost base = self.spec_version();
        proof {
            assert forall|i: int| 0 <= i < eseq.len() implies entries_view.contains_key(
                #[trigger] eseq[i].0@,
            ) && entries_view[eseq[i].0@] == eseq[i].1 by {
                entries.lemma_pair_in_view(i);
            }
            assert forall|k: Seq<char>| entries_view.contains_key(k) implies exists|i: int|
                0 <= i < eseq.len() && #[trigger] eseq[i].0@ == k by {
                entries.lemma_view_in_pairs(k);
            }
        }
        let n = entries.pair_count();
        let mut pairs = entries.into_pairs();
        let mut new_inner: KeyMap<Entry<T>> = KeyMap::new();
        let mut new_events: Vec<HoldEvent<T>> = Vec::new();
        let mut version = self.version;
        let mut i: usize = 0;
        while i < n
            invariant
                *self == *old(self),
                self.wf(),
                crate::keymap::distinct_keys(eseq),
                forall|ii: int| #![auto]
                    0 <= ii < eseq.len() ==> entries_view.contains_key(eseq[ii].0@),
                n == eseq.len(),
                base == self.spec_version(),
                base + n <= u64::MAX,
                0 <= i <= n,
                pairs@ == eseq.skip(i as int),
                version == base + i,
                new_inner.wf(),
                forall|k: Seq<char>|
                    #[trigger] new_inner@.contains_key(k) <==> exists|j: int|
                        0 <= j < i && #[trigger] eseq[j].0@ == k,
                forall|j: int|
                    #![trigger eseq[j]]
                    0 <= j < i ==> ({
                        let k = eseq[j].0@;
                        let tup = eseq[j].1;
                        &&& new_inner@.contains_key(k)
                        &&& new_inner@[k].value == tup.0
                        &&& new_inner@[k].meta.source@ == tup.1@
                        &&& new_inner@[k].meta.policy == tup.2
                        &&& new_inner@[k].meta.version == base + 1 + j
                    }),
                new_events@.len() == i,
                forall|j: int|
                    #![trigger new_events@[j]]
                    0 <= j < i ==> ({
                        let k = eseq[j].0@;
                        let tup = eseq[j].1;
                        let ev = new_events@[j];
                        if self.contents().contains_key(k) {
                            ev matches HoldEvent::Updated { key: k2, old: o, new: nv, .. } && k2@
                                == k && o == self.contents()[k].value && nv == tup.0
                        } else {
                            ev matches HoldEvent::Loaded { key: k2, value: v, .. } && k2@ == k && v
                                == tup.0
                        }
                    }),
            decreases n - i,
        {
            let (key, tup) = pairs.remove(0);
            let (value, source, policy) = tup;
            proof {
                assert(pairs@ =~= eseq.skip(i + 1 as int));
                assert(eseq.skip(i as int)[0] == eseq[i as int]);
            }
            version = version + 1;
            let value = Arc::new(value);
            let meta = Meta { source, loaded_at: now_millis(), version, policy };
            let ev = match self.inner.get(key.as_str()) {
                Some(old_e) => HoldEvent::Updated {
                    key: key.clone(),
                    old: arc_clone(&old_e.value),
                    new: arc_clone(&value),
                    meta: meta.clone(),
                },
                None => HoldEvent::Loaded {
                    key: key.clone(),
                    value: arc_clone(&value),
                    meta: meta.clone(),
                },
            };
            new_events.push(ev);
            new_inner.insert(key, Entry { value, meta });
            i = i + 1;
        }
        let m = self.inner.pair_count();
        let ghost oseq = self.inner.spec_pairs();
        proof {
            assert forall|jj: int| 0 <= jj < oseq.len() implies self.contents().contains_key(
                #[trigger] oseq[jj].0@,
            ) && self.contents()[oseq[jj].0@] == oseq[jj].1 by {
                self.inner.lemma_pair_in_view(jj);
            }
            assert forall|k: Seq<char>| self.contents().contains_key(k) implies exists|jj: int|
                0 <= jj < oseq.len() && #[trigger] oseq[jj].0@ == k by {
                self.inner.lemma_view_in_pairs(k);
            }
        }
        let mut j: usize = 0;
        while j < m
            invariant
                *self == *old(self),
                self.wf(),
                crate::keymap::distinct_keys(eseq),
                crate::keymap::distinct_keys(oseq),
                m == oseq.len(),
                oseq == self.inner.spec_pairs(),
                forall|ii: int| #![auto]
                    0 <= ii < eseq.len() ==> entries_view.contains_key(eseq[ii].0@),
                forall|k: Seq<char>|
                    #[trigger] entries_view.contains_key(k) ==> exists|ii: int|
                        0 <= ii < eseq.len() && #[trigger] eseq[ii].0@ == k,
                forall|jj: int| #![auto]
                    0 <= jj < oseq.len() ==> self.contents().contains_key(oseq[jj].0@)
                        && self.contents()[oseq[jj].0@] == oseq[jj].1,
                forall|k: Seq<char>|
                    #[trigger] self.contents().contains_key(k) ==> exists|jj: int|
                        0 <= jj < oseq.len() && #[trigger] oseq[jj].0@ == k,
                n == eseq.len(),
                base == self.spec_version(),
                base + n <= u64::MAX,
                version == base + n,
                0 <= j <= m,
                new_inner.wf(),
                forall|k: Seq<char>|
                    #[trigger] new_inner@.contains_key(k) <==> (entries_view.contains_key(k)
                        || exists|jj: int|
                        0 <= jj < j && #[trigger] oseq[jj].0@ == k && oseq[jj].1.meta.policy
                            == UnloadPolicy::Persistent && !entries_view.contains_key(k)),
                forall|ii: int|
                    #![trigger eseq[ii]]
                    0 <= ii < n ==> ({
                        let k = eseq[ii].0@;
                        let tup = eseq[ii].1;
                        &&& new_inner@.contains_key(k)
                        &&& new_inner@[k].value == tup.0
                        &&& new_inner@[k].meta.source@ == tup.1@
                        &&& new_inner@[k].meta.policy == tup.2
                        &&& new_inner@[k].meta.version == base + 1 + ii
                    }),
                forall|jj: int|
                    #![trigger oseq[jj]]
                    0 <= jj < j && !entries_view.contains_key(oseq[jj].0@)
                        && oseq[jj].1.meta.policy == UnloadPolicy::Persistent ==> new_inner@[oseq[jj].0@]
                        == oseq[jj].1,
                new_events@.len() >= n,
                forall|ii: int|
                    #![trigger eseq[ii]]
                    0 <= ii < n ==> ({
                        let k = eseq[ii].0@;
                        let tup = eseq[ii].1;
                        let ev = new_events@[ii];
                        if self.contents().contains_key(k) {
                            ev matches HoldEvent::Updated { key: k2, old: o, new: nv, .. } && k2@
                                == k && o == self.contents()[k].value && nv == tup.0
                        } else {
                            ev matches HoldEvent::Loaded { key: k2, value: v, .. } && k2@ == k && v
                                == tup.0
                        }
                    }),
                forall|p: int|
                    n <= p < new_events@.len() ==> ({
                        let ev = #[trigger] new_events@[p];
                        let k = ev.spec_key();
                        &&& self.contents().contains_key(k)
                        &&& !entries_view.contains_key(k)
                        &&& if self.contents()[k].meta.policy == UnloadPolicy::Persistent {
                            ev matches HoldEvent::Retained { .. }
                        } else {
                            ev matches HoldEvent::Removed { key: k2, value: v } && v
                                == self.contents()[k].value
                        }
                    }),
                forall|jj: int|
                    #![trigger oseq[jj]]
                    0 <= jj < j && !entries_view.contains_key(oseq[jj].0@) ==> exists|p: int|
                        n <= p < new_events@.len() && (#[trigger] new_events@[p]).spec_key()
                            == oseq[jj].0@,
            decreases m - j,
        {
            let pair = self.inner.pair_at(j);
            let ghost events0 = new_events@;
            proof {
                self.inner.lemma_pair_in_view(j as int);
            }
            if !new_inner.contains_key(pair.0.as_str()) {
                if pair.1.meta.policy == UnloadPolicy::Persistent {
                    new_events.push(
                        HoldEvent::Retained {
                            key: pair.0.clone(),
                            error: HoldError::PersistentRemoval { key: pair.0.clone() },
                        },
                    );
                    new_inner.insert(pair.0.clone(), pair.1.clone());
                } else {
                    new_events.push(
                        HoldEvent::Removed { key: pair.0.clone(), value: arc_clone(&pair.1.value) },
                    );
                }
                proof {
                    let p = new_events@.len() - 1;
                    assert(new_events@[p].spec_key() == oseq[j as int].0@);
                }
            } else {
                proof {
                    if !entries_view.contains_key(oseq[j as int].0@) {
                        let jj = choose|jj: int|
                            0 <= jj < j && #[trigger] oseq[jj].0@ == oseq[j as int].0@
                                && oseq[jj].1.meta.policy == UnloadPolicy::Persistent
                                && !entries_view.contains_key(oseq[j as int].0@);
                        assert(false);
                    }
                }
            }
            proof {
                assert forall|jj: int|
                    #![trigger oseq[jj]]
                    0 <= jj <= j && !entries_view.contains_key(oseq[jj].0@) implies exists|p: int|
                    n <= p < new_events@.len() && (#[trigger] new_events@[p]).spec_key()
                        == oseq[jj].0@ by {
                    if jj < j {
                        let p = choose|p: int|
                            n <= p < events0.len() && (#[trigger] events0[p]).spec_key()
                                == oseq[jj].0@;
                        assert((new_events@[p]).spec_key() == oseq[jj].0@);
                    } else {
                        let p = events0.len() as int;
                        assert((new_events@[p]).spec_key() == oseq[jj].0@);
                    }
                }
            }
            j = j + 1;
        }
        self.inner = new_inner;
        self.version = version;
        let ghost tail = new_events@;
        self.events.append(&mut new_events);
        proof {
            assert(self.spec_events() =~= old(self).spec_events() + tail);
            assert forall|k: Seq<char>|
                old(self).contents().contains_key(k) && !entries_view.contains_key(
                    k,
                ) implies exists|p: int|
                old(self).spec_events().len() + n <= p < self.spec_events().len() && (
                #[trigger] self.spec_events()[p]).spec_key() == k by {
                let jj = choose|jj: int| 0 <= jj < oseq.len() && #[trigger] oseq[jj].0@ == k;
                let p0 = choose|p0: int|
                    n <= p0 < tail.len() && (#[trigger] tail[p0]).spec_key() == oseq[jj].0@;
                let p = old(self).spec_events().len() + p0;
                assert(self.spec_events()[p] == tail[p0]);
            }
        }
    }

    /// Syncs the store with a set of keys seen on the filesystem.
    ///
    /// Loads every key of `fs_keys` that the store lacks, and removes every
    /// stored key absent from `fs_keys`, respecting the unload policy.
    /// Individual inserts and removes are atomic, but the sync as a whole
    /// is not: use [`Store::replace_all`] where atomicity is required.
    #[verifier::rlimit(60)]
    pub fn sync_with<F, E>(&mut self, fs_keys: Vec<String>, loader: F) -> (r: SyncResult<E>) where
        F: Fn(&str) -> Result<(T, String, UnloadPolicy), E>,

        requires
            old(self).wf(),
            forall|i: int, j: int| 0 <= i < j < fs_keys@.len() ==> fs_keys@[i]@ != fs_keys@[j]@,
            old(self).spec_version() + fs_keys@.len() <= u64::MAX,
            forall|s: &str| #[trigger] loader.requires((s,)),
        ensures
            final(self).wf(),
            final(self).spec_version() == old(self).spec_version() + r.added@.len(),
            forall|p: int|
                0 <= p < r.added@.len() ==> ({
                    let k = (#[trigger] r.added@[p])@;
                    &&& key_listed(fs_keys@, k)
                    &&& !old(self).contents().contains_key(k)
                    &&& final(self).contents().contains_key(k)
                    &&& entry_from_loader(final(self).contents(), loader, k)
                }),
            forall|p: int|
                0 <= p < r.failed@.len() ==> ({
                    let k = (#[trigger] r.failed@[p]).0@;
                    &&& key_listed(fs_keys@, k)
                    &&& !old(self).contents().contains_key(k)
                    &&& !final(self).contents().contains_key(k)
                }),
            forall|p: int|
                0 <= p < r.removed@.len() ==> ({
                    let k = (#[trigger] r.removed@[p])@;
                    &&& old(self).contents().contains_key(k)
                    &&& old(self).contents()[k].meta.policy == UnloadPolicy::Removable
                    &&& !key_listed(fs_keys@, k)
                    &&& !final(self).contents().contains_key(k)
                }),
            forall|p: int|
                0 <= p < r.retained@.len() ==> ({
                    let k = (#[trigger] r.retained@[p])@;
                    &&& old(self).contents().contains_key(k)
                    &&& old(self).contents()[k].meta.policy == UnloadPolicy::Persistent
                    &&& !key_listed(fs_keys@, k)
                    &&& final(self).contents().contains_key(k)
                    &&& final(self).contents()[k] == old(self).contents()[k]
                }),
            forall|i: int|
                0 <= i < fs_keys@.len() && !old(self).contents().contains_key(
                    (#[trigger] fs_keys@[i])@,
                ) ==> (exists|p: int|
                    0 <= p < r.added@.len() && (#[trigger] r.added@[p])@ == fs_keys@[i]@) || (
                exists|p: int|
                    0 <= p < r.failed@.len() && (#[trigger] r.failed@[p]).0@ == fs_keys@[i]@),
            forall|k: Seq<char>|
                old(self).contents().contains_key(k) && !key_listed(fs_keys@, k) ==> if (
                #[trigger] old(self).contents()[k]).meta.policy == UnloadPolicy::Persistent {
                    exists|p: int|
                        0 <= p < r.retained@.len() && (#[trigger] r.retained@[p])@ == k
                } else {
                    exists|p: int| 0 <= p < r.removed@.len() && (#[trigger] r.removed@[p])@ == k
                },
            forall|k: Seq<char>|
                old(self).contents().contains_key(k) && key_listed(fs_keys@, k)
                    ==> final(self).contents().contains_key(k) && final(self).contents()[k] == old(
                    self,
                ).contents()[k],
    {
        let mut result: SyncResult<E> = SyncResult::default();
        let current_keys = self.keys();
        let ghost old_contents = self.contents();
        let n = fs_keys.len();
        let mut i: usize = 0;
        while i < n
            invariant
                self.wf(),
                0 <= i <= n,
                n == fs_keys@.len(),
                forall|a: int, b: int| 0 <= a < b < fs_keys@.len() ==> fs_keys@[a]@ != fs_keys@[b]@,
                forall|s: &str| #[trigger] loader.requires((s,)),
                old_contents == old(self).contents(),
                old(self).spec_version() + n <= u64::MAX,
                self.spec_version() == old(self).spec_version() + result.added@.len(),
                result.added@.len() + result.failed@.len() <= i,
                result.removed@.len() == 0,
                result.retained@.len() == 0,
                forall|k: Seq<char>|
                    #[trigger] self.contents().contains_key(k) <==> (old_contents.contains_key(k)
                        || exists|p: int|
                        0 <= p < result.added@.len() && (#[trigger] result.added@[p])@ == k),
                forall|k: Seq<char>|
                    old_contents.contains_key(k) ==> #[trigger] self.contents()[k]
                        == old_contents[k],
                forall|p: int|
                    0 <= p < result.added@.len() ==> ({
                        let k = (#[trigger] result.added@[p])@;
                        &&& exists|ii: int| 0 <= ii < i && (#[trigger] fs_keys@[ii])@ == k
                        &&& !old_contents.contains_key(k)
                        &&& self.contents().contains_key(k)
                        &&& entry_from_loader(self.contents(), loader, k)
                    }),
                forall|p: int|
                    0 <= p < result.failed@.len() ==> ({
                        let k = (#[trigger] result.failed@[p]).0@;
                        &&& exists|ii: int| 0 <= ii < i && (#[trigger] fs_keys@[ii])@ == k
                        &&& !old_contents.contains_key(k)
                        &&& !self.contents().contains_key(k)
                    }),
                forall|ii: int|
                    0 <= ii < i && !old_contents.contains_key((#[trigger] fs_keys@[ii])@) ==> (
                    exists|p: int|
                        0 <= p < result.added@.len() && (#[trigger] result.added@[p])@
                            == fs_keys@[ii]@) || (exists|p: int|
                        0 <= p < result.failed@.len() && (#[trigger] result.failed@[p]).0@
                            == fs_keys@[ii]@),
            decreases n - i,
        {
            let ghost contents0 = self.contents();
            let ghost added0 = result.added@;
            let ghost failed0 = result.failed@;
            let key = &fs_keys[i];
            let is_new = self.get(key.as_str()).is_none();
            if is_new {
                let key_str = key.as_str();
                match loader(key_str) {
                    Ok(tup) => {
                        let ghost tupg = tup;
                        let (value, source, policy) = tup;
                        self.insert(key.clone(), value, source, policy);
                        result.added.push(key.clone());
                        proof {
                            assert(call_ensures(
                                loader,
                                (key_str,),
                                Ok::<(T, String, UnloadPolicy), E>(tupg),
                            ));
                            assert(entry_from_loader(self.contents(), loader, key@));
                        }
                    },
                    Err(e) => {
                        result.failed.push((key.clone(), e));
                    },
                }
            }
            proof {
                let iv = i as int;
                assert forall|k: Seq<char>| #[trigger] self.contents().contains_key(k) implies (
                old_contents.contains_key(k) || exists|p: int|
                    0 <= p < result.added@.len() && (#[trigger] result.added@[p])@ == k) by {
                    if contents0.contains_key(k) {
                        if !old_contents.contains_key(k) {
                            let p = choose|p: int|
                                0 <= p < added0.len() && (#[trigger] added0[p])@ == k;
                            assert((result.added@[p])@ == k);
                        }
                    } else {
                        assert(k == key@);
                        assert((result.added@[added0.len() as int])@ == k);
                    }
                }
                assert forall|k: Seq<char>|
                    (old_contents.contains_key(k) || exists|p: int|
                        0 <= p < result.added@.len() && (#[trigger] result.added@[p])@
                            == k) implies #[trigger] self.contents().contains_key(k) by {
                    if !old_contents.contains_key(k) {
                        let p = choose|p: int|
                            0 <= p < result.added@.len() && (#[trigger] result.added@[p])@ == k;
                        if p < added0.len() {
                            assert(added0[p] == result.added@[p]);
                            assert(contents0.contains_key(k));
                        }
                    }
                }
                assert forall|p: int| 0 <= p < result.failed@.len() implies !(
                #[trigger] self.contents().contains_key((result.failed@[p]).0@)) by {
                    let k = (result.failed@[p]).0@;
                    let ii = choose|ii: int| 0 <= ii <= iv && (#[trigger] fs_keys@[ii])@ == k;
                    if self.contents().contains_key(k) && !contents0.contains_key(k) {
                        assert(k == key@);
                    }
                }
                assert forall|ii: int|
                    0 <= ii <= iv && !old_contents.contains_key(
                        (#[trigger] fs_keys@[ii])@,
                    ) implies (exists|p: int|
                    0 <= p < result.added@.len() && (#[trigger] result.added@[p])@
                        == fs_keys@[ii]@) || (exists|p: int|
                    0 <= p < result.failed@.len() && (#[trigger] result.failed@[p]).0@
                        == fs_keys@[ii]@) by {
                    let k = fs_keys@[ii]@;
                    if ii < iv {
                        if exists|p: int| 0 <= p < added0.len() && (#[trigger] added0[p])@ == k {
                            let p = choose|p: int|
                                0 <= p < added0.len() && (#[trigger] added0[p])@ == k;
                            assert((result.added@[p])@ == k);
                        } else {
                            let p = choose|p: int|
                                0 <= p < failed0.len() && (#[trigger] failed0[p]).0@ == k;
                            assert((result.failed@[p]).0@ == k);
                        }
                    } else {
                        if !contents0.contains_key(k) {
                            if result.added@.len() == added0.len() + 1 {
                                assert((result.added@[added0.len() as int])@ == k);
                            } else {
                                assert((result.failed@[failed0.len() as int]).0@ == k);
                            }
                        } else {
                            let p = choose|p: int|
                                0 <= p < added0.len() && (#[trigger] added0[p])@ == k;
                            assert((result.added@[p])@ == k);
                        }
                    }
                }
            }
            i = i + 1;
        }
        let m = current_keys.len();
        let ghost start2 = self.contents();
        let ghost added_fin = result.added@;
        let ghost failed_fin = result.failed@;
        let mut q: usize = 0;
        while q < m
            invariant
                self.wf(),
                0 <= q <= m,
                m == current_keys@.len(),
                old_contents == old(self).contents(),
                n == fs_keys@.len(),
                added_fin == result.added@,
                failed_fin == result.failed@,
                self.spec_version() == old(self).spec_version() + result.added@.len(),
                forall|p: int|
                    0 <= p < m ==> old_contents.contains_key((#[trigger] current_keys@[p])@),
                forall|a: int, b: int| 0 <= a < b < m ==> current_keys@[a]@ != current_keys@[b]@,
                forall|k: Seq<char>|
                    old_contents.contains_key(k) ==> exists|p: int|
                        0 <= p < m && (#[trigger] current_keys@[p])@ == k,
                // facts about the state at the start of the removal phase
                forall|k: Seq<char>|
                    #[trigger] start2.contains_key(k) <==> (old_contents.contains_key(k) || exists|
                        p: int,
                    |
                        0 <= p < added_fin.len() && (#[trigger] added_fin[p])@ == k),
                forall|k: Seq<char>|
                    old_contents.contains_key(k) ==> #[trigger] start2[k] == old_contents[k],
                forall|p: int|
                    0 <= p < added_fin.len() ==> ({
                        let k = (#[trigger] added_fin[p])@;
                        &&& key_listed(fs_keys@, k)
                        &&& !old_contents.contains_key(k)
                    }),
                forall|p: int|
                    0 <= p < failed_fin.len() ==> ({
                        let k = (#[trigger] failed_fin[p]).0@;
                        &&& key_listed(fs_keys@, k)
                        &&& !old_contents.contains_key(k)
                        &&& !start2.contains_key(k)
                    }),
                forall|ii: int|
                    0 <= ii < n && !old_contents.contains_key((#[trigger] fs_keys@[ii])@) ==> (
                    exists|p: int|
                        0 <= p < added_fin.len() && (#[trigger] added_fin[p])@ == fs_keys@[ii]@)
                        || (exists|p: int|
                        0 <= p < failed_fin.len() && (#[trigger] failed_fin[p]).0@
                            == fs_keys@[ii]@),
                // the current state differs from the phase-start state by the
                // removals recorded so far
                forall|k: Seq<char>|
                    #[trigger] self.contents().contains_key(k) <==> (start2.contains_key(k) && !(
                    exists|p: int|
                        0 <= p < result.removed@.len() && (#[trigger] result.removed@[p])@ == k)),
                forall|k: Seq<char>|
                    #[trigger] self.contents().contains_key(k) ==> self.contents()[k] == start2[k],
                forall|p: int|
                    0 <= p < result.removed@.len() ==> ({
                        let k = (#[trigger] result.removed@[p])@;
                        &&& old_contents.contains_key(k)
                        &&& old_contents[k].meta.policy == UnloadPolicy::Removable
                        &&& !key_listed(fs_keys@, k)
                        &&& exists|pp: int| 0 <= pp < q && (#[trigger] current_keys@[pp])@ == k
                    }),
                forall|p: int|
                    0 <= p < result.retained@.len() ==> ({
                        let k = (#[trigger] result.retained@[p])@;
                        &&& old_contents.contains_key(k)
                        &&& old_contents[k].meta.policy == UnloadPolicy::Persistent
                        &&& !key_listed(fs_keys@, k)
                        &&& exists|pp: int| 0 <= pp < q && (#[trigger] current_keys@[pp])@ == k
                    }),
                forall|pp: int|
                    0 <= pp < q && !key_listed(fs_keys@, (#[trigger] current_keys@[pp])@) ==> ({
                        let k = current_keys@[pp]@;
                        if old_contents[k].meta.policy == UnloadPolicy::Persistent {
                            exists|p: int|
                                0 <= p < result.retained@.len() && (
                                #[trigger] result.retained@[p])@ == k
                        } else {
                            exists|p: int|
                                0 <= p < result.removed@.len() && (#[trigger] result.removed@[p])@
                                    == k
                        }
                    }),
            decreases m - q,
        {
            let ghost removed0 = result.removed@;
            let ghost retained0 = result.retained@;
            let key = &current_keys[q];
            if !crate::strutil::contains_str(&fs_keys, key.as_str()) {
                proof {
                    if exists|p: int|
                        0 <= p < result.removed@.len() && (#[trigger] result.removed@[p])@
                            == key@ {
                        let p = choose|p: int|
                            0 <= p < result.removed@.len() && (#[trigger] result.removed@[p])@
                                == key@;
                        let pp = choose|pp: int|
                            0 <= pp < q && (#[trigger] current_keys@[pp])@ == key@;
                        assert(false);
                    }
                    assert(self.contents().contains_key(key@));
                    assert(self.contents()[key@] == old_contents[key@]);
                }
                match self.remove(key.as_str()) {
                    Ok(_) => {
                        result.removed.push(key.clone());
                    },
                    Err(_) => {
                        result.retained.push(key.clone());
                    },
                }
                proof {
                    assert forall|k: Seq<char>| #[trigger] self.contents().contains_key(k) implies (
                    start2.contains_key(k) && !(exists|p: int|
                        0 <= p < result.removed@.len() && (#[trigger] result.removed@[p])@
                            == k)) by {
                        if exists|p: int|
                            0 <= p < result.removed@.len() && (#[trigger] result.removed@[p])@
                                == k {
                            let p = choose|p: int|
                                0 <= p < result.removed@.len() && (#[trigger] result.removed@[p])@
                                    == k;
                            if p < removed0.len() {
                                assert((removed0[p])@ == k);
                            } else {
                                assert(k == key@);
                            }
                            assert(false);
                        }
                    }
                    assert forall|k: Seq<char>|
                        (start2.contains_key(k) && !(exists|p: int|
                            0 <= p < result.removed@.len() && (#[trigger] result.removed@[p])@
                                == k)) implies #[trigger] self.contents().contains_key(k) by {
                        if result.removed@.len() > removed0.len() {
                            assert((result.removed@[removed0.len() as int])@ == key@);
                            assert(k != key@);
                        }
                        assert forall|p: int|
                            0 <= p < removed0.len() implies (#[trigger] removed0[p])@ != k by {
                            assert(result.removed@[p] == removed0[p]);
                        }
                    }
                }
            }
            proof {
                assert forall|pp: int|
                    0 <= pp <= q as int && !key_listed(
                        fs_keys@,
                        (#[trigger] current_keys@[pp])@,
                    ) implies ({
                    let k = current_keys@[pp]@;
                    if old_contents[k].meta.policy == UnloadPolicy::Persistent {
                        exists|p: int|
                            0 <= p < result.retained@.len() && (#[trigger] result.retained@[p])@
                                == k
                    } else {
                        exists|p: int|
                            0 <= p < result.removed@.len() && (#[trigger] result.removed@[p])@ == k
                    }
                }) by {
                    let k = current_keys@[pp]@;
                    if pp < q as int {
                        if old_contents[k].meta.policy == UnloadPolicy::Persistent {
                            let p = choose|p: int|
                                0 <= p < retained0.len() && (#[trigger] retained0[p])@ == k;
                            assert((result.retained@[p])@ == k);
                        } else {
                            let p = choose|p: int|
                                0 <= p < removed0.len() && (#[trigger] removed0[p])@ == k;
                            assert((result.removed@[p])@ == k);
                        }
                    } else {
                        if old_contents[k].meta.policy == UnloadPolicy::Persistent {
                            assert((result.retained@[retained0.len() as int])@ == k);
                        } else {
                            assert((result.removed@[removed0.len() as int])@ == k);
                        }
                    }
                }
            }
            q = q + 1;
        }
        proof {
            assert forall|k: Seq<char>|
                old_contents.contains_key(k) && !key_listed(fs_keys@, k) implies if (
            old_contents[k]).meta.policy == UnloadPolicy::Persistent {
                exists|p: int|
                    0 <= p < result.retained@.len() && (#[trigger] result.retained@[p])@ == k
            } else {
                exists|p: int|
                    0 <= p < result.removed@.len() && (#[trigger] result.removed@[p])@ == k
            } by {
                let pp = choose|pp: int| 0 <= pp < m && (#[trigger] current_keys@[pp])@ == k;
                assert(current_keys@[pp]@ == k);
            }
            assert forall|k: Seq<char>|
                old_contents.contains_key(k) && key_listed(
                    fs_keys@,
                    k,
                ) implies self.contents().contains_key(k) && self.contents()[k]
                == old_contents[k] by {
                if exists|p: int|
                    0 <= p < result.removed@.len() && (#[trigger] result.removed@[p])@ == k {
                    let p = choose|p: int|
                        0 <= p < result.removed@.len() && (#[trigger] result.removed@[p])@ == k;
                }
            }
            assert forall|p: int|
                0 <= p < result.retained@.len() implies self.contents().contains_key(
                (#[trigger] result.retained@[p])@,
            ) && self.contents()[(result.retained@[p])@] == old_contents[(
            result.retained@[p])@] by {
                let k = (result.retained@[p])@;
                if exists|pr: int|
                    0 <= pr < result.removed@.len() && (#[trigger] result.removed@[pr])@ == k {
                    let pr = choose|pr: int|
                        0 <= pr < result.removed@.len() && (#[trigger] result.removed@[pr])@ == k;
                    let pp1 = choose|pp1: int|
                        0 <= pp1 < q && (#[trigger] current_keys@[pp1])@ == k;
                    assert(false);
                }
            }
            assert forall|p: int|
                0 <= p < result.failed@.len() implies !self.contents().contains_key(
                (#[trigger] result.failed@[p]).0@,
            ) by {
            }
            assert forall|p: int|
                0 <= p < result.added@.len() implies self.contents().contains_key(
                (#[trigger] result.added@[p])@,
            ) by {
                let k = (result.added@[p])@;
                if exists|pr: int|
                    0 <= pr < result.removed@.len() && (#[trigger] result.removed@[pr])@ == k {
                    let pr = choose|pr: int|
                        0 <= pr < result.removed@.len() && (#[trigger] result.removed@[pr])@ == k;
                    assert(false);
                }
            }
        }
        result
    }
}

} // verus!
