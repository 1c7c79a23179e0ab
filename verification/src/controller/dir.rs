//! The directory controller: many store entries reconciled against a
//! directory listing.

use std::sync::Arc;
use vstd::prelude::*;

use crate::holder::store::key_listed;
use crate::holder::store::Store;
use crate::holder::Entry;
use crate::holder::UnloadPolicy;
use crate::keymap::KeyMap;
use crate::loader::DynLoader;
use crate::loader::LoadResult;
use crate::loader::PreProcess;
use crate::loader::Source;
use crate::loader::ValidateConfig;
use crate::strutil;

use super::error::LiveError;
use super::pattern::spec_pattern_extract;
use super::pattern::KeyPattern;
use super::pattern::ScanMode;
use super::pattern::ScanResult;

verus! {

/// One entry of a directory listing, as the caller saw it.
#[derive(Debug)]
pub struct ListEntry {
    /// The file or subdirectory name, without the directory.
    pub name: String,
    /// True for a regular file.
    pub is_file: bool,
    /// True for a subdirectory.
    pub is_dir: bool,
}

/// A controller reconciling a directory of configurations with a store.
///
/// The controller owns the store and tracks the keys it introduced; a
/// scan only ever removes keys it owns, so entries seeded from elsewhere
/// survive every rescan.
pub struct LiveDir<T, S> {
    store: Store<T>,
    loader: DynLoader<S>,
    path: String,
    pattern: KeyPattern,
    scan_mode: ScanMode,
    policy: UnloadPolicy,
    max_entries: Option<usize>,
    owned_keys: Vec<String>,
}

/// Builder for the [`LiveDir`] controller.
pub struct LiveDirBuilder<T, S> {
    store: Option<Store<T>>,
    loader: Option<DynLoader<S>>,
    path: Option<String>,
    pattern: KeyPattern,
    scan_mode: ScanMode,
    policy: UnloadPolicy,
    max_entries: Option<usize>,
}

impl<T, S: Source> LiveDirBuilder<T, S> {
    /// The store chosen so far.
    pub closed spec fn spec_store(&self) -> Option<Store<T>> {
        self.store
    }

    /// The loader chosen so far.
    pub closed spec fn spec_loader(&self) -> Option<DynLoader<S>> {
        self.loader
    }

    /// The path chosen so far.
    pub closed spec fn spec_path(&self) -> Option<String> {
        self.path
    }

    /// The policy chosen so far.
    pub closed spec fn spec_policy(&self) -> UnloadPolicy {
        self.policy
    }

    /// The key pattern chosen so far.
    pub closed spec fn spec_pattern(&self) -> KeyPattern {
        self.pattern
    }

    /// The scan mode chosen so far.
    pub closed spec fn spec_scan_mode(&self) -> ScanMode {
        self.scan_mode
    }

    /// The entry cap chosen so far.
    pub closed spec fn spec_max_entries(&self) -> Option<usize> {
        self.max_entries
    }

    /// Creates a builder with the default pattern, mode and policy.
    pub fn new() -> (r: Self)
        ensures
            r.spec_store() is None,
            r.spec_loader() is None,
            r.spec_path() is None,
            r.spec_policy() == UnloadPolicy::Removable,
            r.spec_pattern() is Identity,
            r.spec_scan_mode() is Files,
            r.spec_max_entries() is None,
    {
        LiveDirBuilder {
            store: None,
            loader: None,
            path: None,
            pattern: KeyPattern::default(),
            scan_mode: ScanMode::default(),
            policy: UnloadPolicy::default(),
            max_entries: None,
        }
    }

    /// Sets the store; it may already hold entries seeded elsewhere.
    pub fn store(self, store: Store<T>) -> (r: Self)
        ensures
            r.spec_store() == Some(store),
            r.spec_loader() == self.spec_loader(),
            r.spec_path() == self.spec_path(),
            r.spec_policy() == self.spec_policy(),
            r.spec_pattern() == self.spec_pattern(),
            r.spec_scan_mode() == self.spec_scan_mode(),
            r.spec_max_entries() == self.spec_max_entries(),
    {
        LiveDirBuilder { store: Some(store), ..self }
    }

    /// Sets the loader.
    pub fn loader(self, loader: DynLoader<S>) -> (r: Self)
        ensures
            r.spec_loader() == Some(loader),
            r.spec_store() == self.spec_store(),
            r.spec_path() == self.spec_path(),
            r.spec_policy() == self.spec_policy(),
            r.spec_pattern() == self.spec_pattern(),
            r.spec_scan_mode() == self.spec_scan_mode(),
            r.spec_max_entries() == self.spec_max_entries(),
    {
        LiveDirBuilder { loader: Some(loader), ..self }
    }

    /// Sets the directory path.
    pub fn path(self, path: &str) -> (r: Self)
        ensures
            r.spec_path() matches Some(p) && p@ == path@,
            r.spec_store() == self.spec_store(),
            r.spec_loader() == self.spec_loader(),
            r.spec_policy() == self.spec_policy(),
            r.spec_pattern() == self.spec_pattern(),
            r.spec_scan_mode() == self.spec_scan_mode(),
            r.spec_max_entries() == self.spec_max_entries(),
    {
        LiveDirBuilder { path: Some(strutil::to_string(path)), ..self }
    }

    /// Sets the key-extraction pattern.
    pub fn pattern(self, pattern: KeyPattern) -> (r: Self)
        ensures
            r.spec_pattern() == pattern,
            r.spec_store() == self.spec_store(),
            r.spec_loader() == self.spec_loader(),
            r.spec_path() == self.spec_path(),
            r.spec_policy() == self.spec_policy(),
            r.spec_scan_mode() == self.spec_scan_mode(),
            r.spec_max_entries() == self.spec_max_entries(),
    {
        LiveDirBuilder { pattern, ..self }
    }

    /// Sets the scan mode.
    pub fn scan_mode(self, mode: ScanMode) -> (r: Self)
        ensures
            r.spec_scan_mode() == mode,
            r.spec_store() == self.spec_store(),
            r.spec_loader() == self.spec_loader(),
            r.spec_path() == self.spec_path(),
            r.spec_policy() == self.spec_policy(),
            r.spec_pattern() == self.spec_pattern(),
            r.spec_max_entries() == self.spec_max_entries(),
    {
        LiveDirBuilder { scan_mode: mode, ..self }
    }

    /// Sets the retention policy applied to scanned entries.
    pub fn policy(self, policy: UnloadPolicy) -> (r: Self)
        ensures
            r.spec_policy() == policy,
            r.spec_store() == self.spec_store(),
            r.spec_loader() == self.spec_loader(),
            r.spec_path() == self.spec_path(),
            r.spec_pattern() == self.spec_pattern(),
            r.spec_scan_mode() == self.spec_scan_mode(),
            r.spec_max_entries() == self.spec_max_entries(),
    {
        LiveDirBuilder { policy, ..self }
    }

    /// Sets the maximum number of directory entries a scan accepts.
    pub fn max_entries(self, max: usize) -> (r: Self)
        ensures
            r.spec_max_entries() == Some(max),
            r.spec_store() == self.spec_store(),
            r.spec_loader() == self.spec_loader(),
            r.spec_path() == self.spec_path(),
            r.spec_policy() == self.spec_policy(),
            r.spec_pattern() == self.spec_pattern(),
            r.spec_scan_mode() == self.spec_scan_mode(),
    {
        LiveDirBuilder { max_entries: Some(max), ..self }
    }

    /// Builds the controller; store, loader and path are all required.
    pub fn build(self) -> (r: Result<LiveDir<T, S>, LiveError>)
        ensures
            match r {
                Ok(d) => (self.spec_store() matches Some(st) && d.spec_store() == st) && (
                self.spec_loader() matches Some(ld) && d.spec_loader() == ld) && (
                self.spec_path() matches Some(p) && d.spec_path() == p@) && d.spec_owned()
                    =~= Seq::<String>::empty() && d.spec_policy() == self.spec_policy()
                    && d.spec_pattern() == self.spec_pattern() && d.spec_scan_mode()
                    == self.spec_scan_mode() && d.spec_max_entries() == self.spec_max_entries()
                    && (d.spec_store().wf() && d.spec_loader().inv() ==> d.wf()),
                Err(e) => e is Builder && (self.spec_store() is None || self.spec_loader() is None
                    || self.spec_path() is None),
            },
    {
        let store = match self.store {
            Some(s) => s,
            None => {
                return Err(LiveError::Builder(strutil::to_string("store is required")));
            },
        };
        let loader = match self.loader {
            Some(l) => l,
            None => {
                return Err(LiveError::Builder(strutil::to_string("loader is required")));
            },
        };
        let path = match self.path {
            Some(p) => p,
            None => {
                return Err(LiveError::Builder(strutil::to_string("path is required")));
            },
        };
        Ok(
            LiveDir {
                store,
                loader,
                path,
                pattern: self.pattern,
                scan_mode: self.scan_mode,
                policy: self.policy,
                max_entries: self.max_entries,
                owned_keys: Vec::new(),
            },
        )
    }
}

impl<T, S: Source> LiveDir<T, S> {
    /// The owned store.
    pub closed spec fn spec_store(&self) -> Store<T> {
        self.store
    }

    /// The owned loader.
    pub closed spec fn spec_loader(&self) -> DynLoader<S> {
        self.loader
    }

    /// The keys this controller introduced, the only ones it may remove.
    pub closed spec fn spec_owned(&self) -> Seq<String> {
        self.owned_keys@
    }

    /// The retention policy applied to scanned entries.
    pub closed spec fn spec_policy(&self) -> UnloadPolicy {
        self.policy
    }

    /// The configured directory path.
    pub closed spec fn spec_path(&self) -> Seq<char> {
        self.path@
    }

    /// The configured key pattern.
    pub closed spec fn spec_pattern(&self) -> KeyPattern {
        self.pattern
    }

    /// The configured scan mode.
    pub closed spec fn spec_scan_mode(&self) -> ScanMode {
        self.scan_mode
    }

    /// The configured entry cap.
    pub closed spec fn spec_max_entries(&self) -> Option<usize> {
        self.max_entries
    }

    /// Well-formedness: the store and loader invariants hold, the owned
    /// keys are pairwise distinct, and each of them is in the store.
    pub open spec fn wf(&self) -> bool {
        &&& self.spec_store().wf()
        &&& self.spec_loader().inv()
        &&& forall|a: int, b: int|
            0 <= a < b < self.spec_owned().len() ==> self.spec_owned()[a]@
                != self.spec_owned()[b]@
        &&& forall|a: int|
            0 <= a < self.spec_owned().len() ==> self.spec_store().contents().contains_key(
                (#[trigger] self.spec_owned()[a])@,
            )
    }

    /// Creates a controller with the default pattern, mode and policy.
    pub fn new(store: Store<T>, loader: DynLoader<S>, path: &str) -> (r: Self)
        ensures
            r.spec_store() == store,
            r.spec_loader() == loader,
            r.spec_path() == path@,
            r.spec_owned() =~= Seq::<String>::empty(),
            r.spec_policy() == UnloadPolicy::Removable,
            r.spec_pattern() is Identity,
            r.spec_scan_mode() is Files,
            r.spec_max_entries() is None,
            store.wf() && loader.inv() ==> r.wf(),
    {
        let r = LiveDir {
            store,
            loader,
            path: strutil::to_string(path),
            pattern: KeyPattern::default(),
            scan_mode: ScanMode::default(),
            policy: UnloadPolicy::default(),
            max_entries: None,
            owned_keys: Vec::new(),
        };
        r
    }

    /// Creates an empty builder.
    pub fn builder() -> (r: LiveDirBuilder<T, S>)
        ensures
            r.spec_store() is None,
            r.spec_loader() is None,
            r.spec_path() is None,
            r.spec_policy() == UnloadPolicy::Removable,
    {
        LiveDirBuilder::new()
    }

    /// Gets a configuration by key, from anywhere in the store.
    pub fn get(&self, key: &str) -> (r: Option<Arc<T>>)
        requires
            self.wf(),
        ensures
            match r {
                Some(v) => self.spec_store().contents().contains_key(key@) && v
                    == self.spec_store().contents()[key@].value,
                None => !self.spec_store().contents().contains_key(key@),
            },
    {
        self.store.get(key)
    }

    /// All keys managed by this controller.
    pub fn keys(&self) -> (r: Vec<String>)
        requires
            self.wf(),
        ensures
            r@.len() == self.spec_owned().len(),
            forall|i: int| 0 <= i < r@.len() ==> (#[trigger] r@[i])@ == self.spec_owned()[i]@,
    {
        let n = self.owned_keys.len();
        let mut out: Vec<String> = Vec::new();
        let mut i: usize = 0;
        while i < n
            invariant
                n == self.spec_owned().len(),
                0 <= i <= n,
                out@.len() == i,
                forall|j: int| 0 <= j < i ==> (#[trigger] out@[j])@ == self.spec_owned()[j]@,
            decreases n - i,
        {
            out.push(self.owned_keys[i].clone());
            i = i + 1;
        }
        out
    }

    /// The number of configurations managed by this controller.
    pub fn len(&self) -> (r: usize)
        requires
            self.wf(),
        ensures
            r == self.spec_owned().len(),
    {
        self.owned_keys.len()
    }

    /// True if this controller manages no configuration.
    pub fn is_empty(&self) -> (r: bool)
        requires
            self.wf(),
        ensures
            r == (self.spec_owned().len() == 0),
    {
        self.owned_keys.len() == 0
    }

    /// A snapshot of the entries this controller manages.
    pub fn snapshot(&self) -> (r: KeyMap<Entry<T>>)
        requires
            self.wf(),
        ensures
            r.wf(),
            forall|k: Seq<char>|
                #[trigger] r@.contains_key(k) <==> key_listed(self.spec_owned(), k),
            forall|k: Seq<char>|
                r@.contains_key(k) ==> #[trigger] r@[k] == self.spec_store().contents()[k],
    {
        let n = self.owned_keys.len();
        let mut out: KeyMap<Entry<T>> = KeyMap::new();
        let mut i: usize = 0;
        while i < n
            invariant
                self.wf(),
                n == self.spec_owned().len(),
                0 <= i <= n,
                out.wf(),
                forall|k: Seq<char>|
                    #[trigger] out@.contains_key(k) <==> exists|j: int|
                        0 <= j < i && (#[trigger] self.spec_owned()[j])@ == k,
                forall|k: Seq<char>|
                    out@.contains_key(k) ==> #[trigger] out@[k]
                        == self.spec_store().contents()[k],
            decreases n - i,
        {
            let key = self.owned_keys[i].clone();
            match self.store.get_entry(key.as_str()) {
                Some(entry) => {
                    out.insert(key, entry);
                },
                None => {
                },
            }
            i = i + 1;
        }
        out
    }

    /// Swaps the loader for a new one, returning the old; the next scan
    /// reads through the new loader.
    pub fn replace_loader(&mut self, loader: DynLoader<S>) -> (r: DynLoader<S>)
        requires
            old(self).wf(),
            loader.inv(),
        ensures
            final(self).wf(),
            r == old(self).spec_loader(),
            final(self).spec_loader() == loader,
            final(self).spec_store() == old(self).spec_store(),
            final(self).spec_owned() == old(self).spec_owned(),
            final(self).spec_policy() == old(self).spec_policy(),
    {
        let mut loader = loader;
        core::mem::swap(&mut loader, &mut self.loader);
        proof {
            assert forall|a: int|
                0 <= a < self.spec_owned().len() implies self.spec_store().contents().contains_key(
                (#[trigger] self.spec_owned()[a])@,
            ) by {
                assert(old(self).spec_store().contents().contains_key(
                    old(self).spec_owned()[a]@,
                ));
            }
        }
        loader
    }

    /// Hands out the store's recorded events and clears the record.
    pub fn take_events(&mut self) -> (r: Vec<crate::holder::HoldEvent<T>>)
        requires
            old(self).wf(),
        ensures
            final(self).wf(),
            r@ == old(self).spec_store().spec_events(),
            final(self).spec_store().contents() == old(self).spec_store().contents(),
            final(self).spec_owned() == old(self).spec_owned(),
    {
        let r = self.store.take_events();
        proof {
            assert(self.spec_owned() == old(self).spec_owned());
            assert forall|a: int|
                0 <= a < self.spec_owned().len() implies self.spec_store().contents().contains_key(
                (#[trigger] self.spec_owned()[a])@,
            ) by {
                assert(old(self).spec_store().contents().contains_key(
                    old(self).spec_owned()[a]@,
                ));
            }
        }
        r
    }
}


/// True if some pair of `failed` names the key `k`.
pub open spec fn failed_listed(failed: Seq<(String, String)>, k: Seq<char>) -> bool {
    exists|p: int| 0 <= p < failed.len() && (#[trigger] failed[p]).0@ == k
}

/// True when a listing entry is of the kind the scan mode looks at and
/// its name is not hidden.
pub open spec fn entry_eligible(e: ListEntry, mode: ScanMode) -> bool {
    &&& !(e.name@.len() > 0 && e.name@[0] == '.')
    &&& (match mode {
        ScanMode::Files => e.is_file,
        ScanMode::Subdirs { .. } => e.is_dir,
    })
}

/// The number of eligible entries in a listing.
pub open spec fn eligible_count(listing: Seq<ListEntry>, mode: ScanMode) -> int
    decreases listing.len(),
{
    if listing.len() == 0 {
        0
    } else {
        eligible_count(listing.drop_last(), mode) + if entry_eligible(listing.last(), mode) {
            1int
        } else {
            0int
        }
    }
}

/// A listing prefix has no more eligible entries than the whole listing.
proof fn lemma_eligible_count_take(listing: Seq<ListEntry>, mode: ScanMode, e: int)
    requires
        0 <= e <= listing.len(),
    ensures
        eligible_count(listing.take(e), mode) <= eligible_count(listing, mode),
    decreases listing.len() - e,
{
    if e == listing.len() {
        assert(listing.take(e) =~= listing);
    } else {
        assert(listing.take(e + 1).drop_last() =~= listing.take(e));
        assert(listing.take(e + 1).last() == listing[e]);
        lemma_eligible_count_take(listing, mode, e + 1);
    }
}

/// The set of keys a scan collects from a listing; exact for the
/// structural key patterns (a custom extractor is unspecified).
pub open spec fn spec_fs_keys(listing: Seq<ListEntry>, p: KeyPattern, mode: ScanMode) -> Set<
    Seq<char>,
>
    decreases listing.len(),
{
    if listing.len() == 0 {
        Set::empty()
    } else {
        let prev = spec_fs_keys(listing.drop_last(), p, mode);
        let e = listing.last();
        if entry_eligible(e, mode) {
            match spec_pattern_extract(p, e.name@) {
                Some(k) => prev.insert(k),
                None => prev,
            }
        } else {
            prev
        }
    }
}

/// When the entry cap must stop a scan: some stage of the walk has
/// already collected at least the allowed number of keys with an entry
/// still to come. Exact for the structural key patterns.
pub open spec fn spec_cap_hit(
    listing: Seq<ListEntry>,
    p: KeyPattern,
    mode: ScanMode,
    m: int,
) -> bool {
    exists|e: int|
        0 <= e < listing.len() && (#[trigger] spec_fs_keys(listing.take(e), p, mode)).len() >= m
}

/// What a scan promises: the controller's loader and policy are kept; on
/// a limit error nothing changed; on success the result lists describe
/// exactly how the store and the owned-key set evolved. Keys the scan did
/// not touch keep their entries, so a shared store's foreign keys are
/// never removed.
pub open spec fn scan_post<T, S: Source>(
    pre: LiveDir<T, S>,
    post: LiveDir<T, S>,
    listing: Option<&Vec<ListEntry>>,
    r: Result<ScanResult, LiveError>,
) -> bool {
    let prev = pre.spec_store().contents();
    let st = post.spec_store().contents();
    &&& post.spec_loader() == pre.spec_loader()
    &&& post.spec_policy() == pre.spec_policy()
    &&& post.spec_pattern() == pre.spec_pattern()
    &&& post.spec_scan_mode() == pre.spec_scan_mode()
    &&& post.spec_max_entries() == pre.spec_max_entries()
    &&& post.spec_path() == pre.spec_path()
    &&& (match listing {
        Some(l) => {
            &&& (r is Err ==> (pre.spec_max_entries() matches Some(m) && eligible_count(
                l@,
                pre.spec_scan_mode(),
            ) >= m))
            &&& (pre.spec_max_entries() is None ==> r is Ok)
            &&& ((pre.spec_max_entries() matches Some(m) && eligible_count(
                l@,
                pre.spec_scan_mode(),
            ) < m) ==> r is Ok)
            &&& (!(pre.spec_pattern() is Custom) ==> ((r is Err) <==> (
            pre.spec_max_entries() matches Some(m) && spec_cap_hit(
                l@,
                pre.spec_pattern(),
                pre.spec_scan_mode(),
                m as int,
            ))))
        },
        None => true,
    })
    &&& listing is None ==> (r matches Ok(res) && res.added@.len() == 0 && res.updated@.len() == 0
        && res.failed@.len() == 0 && res.removed@.len() == 0 && res.retained@.len() == 0
        && post.spec_store() == pre.spec_store() && post.spec_owned() == pre.spec_owned())
    &&& match r {
        Err(e) => e is LimitExceeded && post.spec_store() == pre.spec_store()
            && post.spec_owned() == pre.spec_owned(),
        Ok(res) => listing is None || {
            &&& post.spec_store().spec_version() == pre.spec_store().spec_version()
                + res.added@.len() + res.updated@.len()
            &&& forall|k: Seq<char>|
                prev.contains_key(k) && !key_listed(res.updated@, k) && !key_listed(
                    res.removed@,
                    k,
                ) ==> #[trigger] st.contains_key(k) && st[k] == prev[k]
            &&& forall|k: Seq<char>|
                #[trigger] st.contains_key(k) ==> prev.contains_key(k) || key_listed(
                    res.added@,
                    k,
                )
            &&& forall|p: int|
                0 <= p < res.added@.len() ==> ({
                    let k = (#[trigger] res.added@[p])@;
                    &&& !prev.contains_key(k)
                    &&& st.contains_key(k)
                    &&& st[k].meta.policy == pre.spec_policy()
                    &&& st[k].meta.version > pre.spec_store().spec_version()
                })
            &&& forall|p: int|
                0 <= p < res.updated@.len() ==> ({
                    let k = (#[trigger] res.updated@[p])@;
                    &&& prev.contains_key(k)
                    &&& st.contains_key(k)
                    &&& st[k].meta.policy == pre.spec_policy()
                    &&& st[k].meta.version > pre.spec_store().spec_version()
                })
            &&& forall|p: int|
                0 <= p < res.failed@.len() ==> ({
                    let k = (#[trigger] res.failed@[p]).0@;
                    &&& (prev.contains_key(k) ==> st.contains_key(k) && st[k] == prev[k])
                    &&& (!prev.contains_key(k) ==> !st.contains_key(k))
                })
            &&& forall|p: int|
                0 <= p < res.removed@.len() ==> ({
                    let k = (#[trigger] res.removed@[p])@;
                    &&& key_listed(pre.spec_owned(), k)
                    &&& prev.contains_key(k)
                    &&& prev[k].meta.policy == UnloadPolicy::Removable
                    &&& !st.contains_key(k)
                })
            &&& forall|p: int|
                0 <= p < res.retained@.len() ==> ({
                    let k = (#[trigger] res.retained@[p])@;
                    &&& key_listed(pre.spec_owned(), k)
                    &&& prev.contains_key(k)
                    &&& prev[k].meta.policy == UnloadPolicy::Persistent
                    &&& st.contains_key(k)
                    &&& st[k] == prev[k]
                })
            &&& forall|k: Seq<char>|
                key_listed(post.spec_owned(), k) <==> (key_listed(res.added@, k) || key_listed(
                    res.updated@,
                    k,
                ) || (failed_listed(res.failed@, k) && prev.contains_key(k)) || key_listed(
                    res.retained@,
                    k,
                ))
        },
    }
}

impl<T: serde::de::DeserializeOwned + PreProcess + ValidateConfig, S: Source> LiveDir<T, S> {
    /// Performs an initial scan and load of all configurations found in
    /// the given directory listing; `None` stands for a directory that
    /// does not exist, which is an empty result, not an error.
    pub fn load(&mut self, listing: Option<&Vec<ListEntry>>) -> (r: Result<ScanResult, LiveError>)
        requires
            old(self).wf(),
            listing matches Some(l) ==> old(self).spec_store().spec_version() + l@.len()
                <= u64::MAX,
        ensures
            final(self).wf(),
            scan_post(*old(self), *final(self), listing, r),
    {
        self.do_scan(listing)
    }

    /// Manually reloads all configurations by rescanning the directory.
    pub fn reload(&mut self, listing: Option<&Vec<ListEntry>>) -> (r: Result<
        ScanResult,
        LiveError,
    >)
        requires
            old(self).wf(),
            listing matches Some(l) ==> old(self).spec_store().spec_version() + l@.len()
                <= u64::MAX,
        ensures
            final(self).wf(),
            scan_post(*old(self), *final(self), listing, r),
    {
        self.do_scan(listing)
    }

    /// Scans a directory listing and syncs the store with it.
    ///
    /// Every listed name that is not hidden and yields a key is loaded:
    /// a success is recorded as added or updated; an invalid file keeps
    /// the prior good value; a missing file is skipped. Owned keys that
    /// the scan did not see again are removed, unless their policy
    /// retains them. Keys this controller does not own are never touched.
    #[verifier::rlimit(100)]
    pub fn do_scan(&mut self, listing: Option<&Vec<ListEntry>>) -> (r: Result<
        ScanResult,
        LiveError,
    >)
        requires
            old(self).wf(),
            listing matches Some(l) ==> old(self).spec_store().spec_version() + l@.len()
                <= u64::MAX,
        ensures
            final(self).wf(),
            scan_post(*old(self), *final(self), listing, r),
    {
        let items = match listing {
            Some(l) => l,
            None => {
                return Ok(ScanResult::default());
            },
        };
        let ghost prev = self.spec_store().contents();
        let ghost prev_version = self.spec_store().spec_version();
        let ghost owned0 = self.spec_owned();
        let ghost pat = self.spec_pattern();
        let ghost mode0 = self.spec_scan_mode();
        let ghost cap = self.spec_max_entries();
        let ghost path0 = self.spec_path();
        let nl = items.len();
        let mut fs_entries: KeyMap<String> = KeyMap::new();
        let mut e: usize = 0;
        while e < nl
            invariant
                listing matches Some(l) && l@ == items@,
                *self == *old(self),
                self.wf(),
                pat == self.spec_pattern(),
                mode0 == self.spec_scan_mode(),
                cap == self.spec_max_entries(),
                nl == items@.len(),
                0 <= e <= nl,
                fs_entries.wf(),
                fs_entries.spec_pairs().len() <= e,
                fs_entries.spec_pairs().len() <= eligible_count(items@.take(e as int), mode0),
                !(pat is Custom) ==> fs_entries@.dom() == spec_fs_keys(
                    items@.take(e as int),
                    pat,
                    mode0,
                ),
                match cap {
                    Some(m) => !(pat is Custom) ==> forall|e2: int|
                        0 <= e2 < e ==> (#[trigger] spec_fs_keys(
                            items@.take(e2),
                            pat,
                            mode0,
                        )).len() < m,
                    None => true,
                },
            decreases nl - e,
        {
            let max_hit = match self.max_entries {
                Some(max) => fs_entries.len() >= max,
                None => false,
            };
            if max_hit {
                proof {
                    fs_entries.lemma_dom_len();
                    lemma_eligible_count_take(items@, mode0, e as int);
                    match cap {
                        Some(m) => {
                            if !(pat is Custom) {
                                assert(spec_fs_keys(items@.take(e as int), pat, mode0).len()
                                    >= m as int);
                                assert(spec_cap_hit(items@, pat, mode0, m as int));
                            }
                        },
                        None => {},
                    }
                }
                return Err(
                    LiveError::LimitExceeded(
                        strutil::to_string("directory contains too many entries"),
                    ),
                );
            }
            let ghost fs0 = fs_entries@;
            let ghost fslen0 = fs_entries.spec_pairs().len();
            let entry = &items[e];
            let name = &entry.name;
            let hidden = name.as_str().unicode_len() > 0 && name.as_str().get_char(0) == '.';
            proof {
                assert(items@.take(e as int + 1).drop_last() =~= items@.take(e as int));
                assert(items@.take(e as int + 1).last() == items@[e as int]);
                fs_entries.lemma_dom_len();
            }
            if !hidden {
                match &self.scan_mode {
                    ScanMode::Files => {
                        if entry.is_file {
                            match self.pattern.extract(name.as_str()) {
                                Some(key) => {
                                    fs_entries.insert(key, name.clone());
                                },
                                None => {
                                },
                            }
                        }
                    },
                    ScanMode::Subdirs { config_file } => {
                        if entry.is_dir {
                            match self.pattern.extract(name.as_str()) {
                                Some(key) => {
                                    let mut load_name = strutil::concat(name.as_str(), "/");
                                    let load_name = strutil::concat(
                                        load_name.as_str(),
                                        config_file.as_str(),
                                    );
                                    fs_entries.insert(key, load_name);
                                },
                                None => {
                                },
                            }
                        }
                    },
                }
            }
            proof {
                if !(pat is Custom) {
                    assert(fs_entries@.dom() =~= spec_fs_keys(items@.take(e as int + 1), pat, mode0));
                    match cap {
                        Some(m) => {
                            fs_entries.lemma_dom_len();
                            assert forall|e2: int|
                                0 <= e2 < e as int + 1 implies (#[trigger] spec_fs_keys(
                                items@.take(e2),
                                pat,
                                mode0,
                            )).len() < m by {
                                if e2 == e as int {
                                    assert(fs0.dom() == spec_fs_keys(items@.take(e2), pat, mode0));
                                    assert(fs0.dom().len() == fslen0);
                                }
                            }
                        },
                        None => {},
                    }
                }
            }
            e = e + 1;
        }
        proof {
            assert(items@.take(nl as int) =~= items@);
        }
        let ghost fseq = fs_entries.spec_pairs();
        let mut result = ScanResult::default();
        let mut live: Vec<String> = Vec::new();
        let nf = fs_entries.pair_count();
        let mut i: usize = 0;
        while i < nf
            invariant
                self.spec_loader() == old(self).spec_loader(),
                self.spec_owned() == old(self).spec_owned(),
                self.spec_policy() == old(self).spec_policy(),
                pat == self.spec_pattern(),
                mode0 == self.spec_scan_mode(),
                cap == self.spec_max_entries(),
                path0 == self.spec_path(),
                self.wf(),
                prev == old(self).spec_store().contents(),
                prev_version == old(self).spec_store().spec_version(),
                owned0 == old(self).spec_owned(),
                prev_version + nf <= u64::MAX,
                nf == fseq.len(),
                fseq == fs_entries.spec_pairs(),
                crate::keymap::distinct_keys(fseq),
                0 <= i <= nf,
                result.removed@.len() == 0,
                result.retained@.len() == 0,
                result.added@.len() + result.updated@.len() <= i,
                self.spec_store().spec_version() == prev_version + result.added@.len()
                    + result.updated@.len(),
                forall|k: Seq<char>|
                    #[trigger] self.spec_store().contents().contains_key(k) <==> (
                    prev.contains_key(k) || key_listed(result.added@, k)),
                forall|k: Seq<char>|
                    prev.contains_key(k) && !key_listed(result.updated@, k)
                        ==> #[trigger] self.spec_store().contents()[k] == prev[k],
                forall|p: int|
                    0 <= p < result.added@.len() ==> ({
                        let k = (#[trigger] result.added@[p])@;
                        &&& !prev.contains_key(k)
                        &&& self.spec_store().contents().contains_key(k)
                        &&& self.spec_store().contents()[k].meta.policy == self.spec_policy()
                        &&& self.spec_store().contents()[k].meta.version > prev_version
                        &&& exists|ii: int| 0 <= ii < i && (#[trigger] fseq[ii]).0@ == k
                    }),
                forall|p: int|
                    0 <= p < result.updated@.len() ==> ({
                        let k = (#[trigger] result.updated@[p])@;
                        &&& prev.contains_key(k)
                        &&& self.spec_store().contents().contains_key(k)
                        &&& self.spec_store().contents()[k].meta.policy == self.spec_policy()
                        &&& self.spec_store().contents()[k].meta.version > prev_version
                        &&& exists|ii: int| 0 <= ii < i && (#[trigger] fseq[ii]).0@ == k
                    }),
                forall|p: int|
                    0 <= p < result.failed@.len() ==> ({
                        let k = (#[trigger] result.failed@[p]).0@;
                        &&& !key_listed(result.added@, k)
                        &&& !key_listed(result.updated@, k)
                        &&& exists|ii: int| 0 <= ii < i && (#[trigger] fseq[ii]).0@ == k
                    }),
                forall|q: int|
                    0 <= q < live@.len() ==> ({
                        let k = (#[trigger] live@[q])@;
                        &&& self.spec_store().contents().contains_key(k)
                        &&& exists|ii: int| 0 <= ii < i && (#[trigger] fseq[ii]).0@ == k
                    }),
                forall|a: int, b: int| 0 <= a < b < live@.len() ==> live@[a]@ != live@[b]@,
                forall|k: Seq<char>|
                    #![trigger key_listed(live@, k)]
                    key_listed(live@, k) <==> (key_listed(result.added@, k) || key_listed(
                        result.updated@,
                        k,
                    ) || (failed_listed(result.failed@, k) && prev.contains_key(k))),
            decreases nf - i,
        {
            let ghost added0 = result.added@;
            let ghost updated0 = result.updated@;
            let ghost failed0 = result.failed@;
            let ghost live0 = live@;
            let ghost store0 = self.spec_store().contents();
            let pair = fs_entries.pair_at(i);
            let key = pair.0.clone();
            let load_name = pair.1.clone();
            proof {
                fs_entries.lemma_pair_in_view(i as int);
                if key_listed(live0, key@) {
                    let q = choose|q: int| 0 <= q < live0.len() && (#[trigger] live0[q])@ == key@;
                    let ii = choose|ii: int| 0 <= ii < i && (#[trigger] fseq[ii]).0@ == key@;
                    assert(false);
                }
                if key_listed(added0, key@) {
                    let p = choose|p: int|
                        0 <= p < added0.len() && (#[trigger] added0[p])@ == key@;
                    let ii = choose|ii: int| 0 <= ii < i && (#[trigger] fseq[ii]).0@ == key@;
                    assert(false);
                }
                if key_listed(updated0, key@) {
                    let p = choose|p: int|
                        0 <= p < updated0.len() && (#[trigger] updated0[p])@ == key@;
                    let ii = choose|ii: int| 0 <= ii < i && (#[trigger] fseq[ii]).0@ == key@;
                    assert(false);
                }
                if failed_listed(failed0, key@) {
                    let p = choose|p: int|
                        0 <= p < failed0.len() && (#[trigger] failed0[p]).0@ == key@;
                    let ii = choose|ii: int| 0 <= ii < i && (#[trigger] fseq[ii]).0@ == key@;
                    assert(false);
                }
            }
            let is_new = self.store.get(key.as_str()).is_none();
            let lr: LoadResult<T> = match &self.scan_mode {
                ScanMode::Files => self.loader.load_file::<T>(load_name.as_str()),
                ScanMode::Subdirs { .. } => self.loader.load::<T>(load_name.as_str()),
            };
            match lr {
                LoadResult::Loaded { value, info } => {
                    self.store.insert(key.clone(), value, info.path, self.policy);
                    if is_new {
                        result.added.push(key.clone());
                    } else {
                        result.updated.push(key.clone());
                    }
                    live.push(key);
                },
                LoadResult::Invalid(err) => {
                    let present = self.store.get(key.as_str()).is_some();
                    if present {
                        live.push(key.clone());
                    }
                    result.failed.push((key, err.message()));
                },
                LoadResult::NotFound => {
                },
            }
            proof {
                assert forall|p: int|
                    0 <= p < result.added@.len() implies ({
                    let k = (#[trigger] result.added@[p])@;
                    &&& !prev.contains_key(k)
                    &&& self.spec_store().contents().contains_key(k)
                    &&& self.spec_store().contents()[k].meta.policy == self.spec_policy()
                    &&& self.spec_store().contents()[k].meta.version > prev_version
                    &&& exists|ii: int| 0 <= ii <= i as int && (#[trigger] fseq[ii]).0@ == k
                }) by {
                    if p < added0.len() {
                        assert(result.added@[p] == added0[p]);
                        let ii = choose|ii: int|
                            0 <= ii < i as int && (#[trigger] fseq[ii]).0@ == (added0[p])@;
                        assert(fseq[ii].0@ == (result.added@[p])@);
                    } else {
                        assert((result.added@[p])@ == key@);
                        assert(fseq[i as int].0@ == key@);
                    }
                }
                assert forall|p: int|
                    0 <= p < result.updated@.len() implies ({
                    let k = (#[trigger] result.updated@[p])@;
                    &&& prev.contains_key(k)
                    &&& self.spec_store().contents().contains_key(k)
                    &&& self.spec_store().contents()[k].meta.policy == self.spec_policy()
                    &&& self.spec_store().contents()[k].meta.version > prev_version
                    &&& exists|ii: int| 0 <= ii <= i as int && (#[trigger] fseq[ii]).0@ == k
                }) by {
                    if p < updated0.len() {
                        assert(result.updated@[p] == updated0[p]);
                        let ii = choose|ii: int|
                            0 <= ii < i as int && (#[trigger] fseq[ii]).0@ == (updated0[p])@;
                        assert(fseq[ii].0@ == (result.updated@[p])@);
                    } else {
                        assert((result.updated@[p])@ == key@);
                        assert(fseq[i as int].0@ == key@);
                    }
                }
                assert forall|p: int|
                    0 <= p < result.failed@.len() implies ({
                    let k = (#[trigger] result.failed@[p]).0@;
                    &&& !key_listed(result.added@, k)
                    &&& !key_listed(result.updated@, k)
                    &&& exists|ii: int| 0 <= ii <= i as int && (#[trigger] fseq[ii]).0@ == k
                }) by {
                    let k = (result.failed@[p]).0@;
                    if p < failed0.len() {
                        assert(result.failed@[p] == failed0[p]);
                        let ii = choose|ii: int|
                            0 <= ii < i as int && (#[trigger] fseq[ii]).0@ == (failed0[p]).0@;
                        assert(fseq[ii].0@ == k);
                        assert(fseq[ii].0@ != fseq[i as int].0@);
                        if key_listed(result.added@, k) {
                            let pa = choose|pa: int|
                                0 <= pa < result.added@.len() && (#[trigger] result.added@[pa])@
                                    == k;
                            if pa < added0.len() {
                                assert((added0[pa])@ == k);
                            } else {
                                assert((result.added@[pa])@ == key@);
                            }
                        }
                        if key_listed(result.updated@, k) {
                            let pu = choose|pu: int|
                                0 <= pu < result.updated@.len() && (
                                #[trigger] result.updated@[pu])@ == k;
                            if pu < updated0.len() {
                                assert((updated0[pu])@ == k);
                            } else {
                                assert((result.updated@[pu])@ == key@);
                            }
                        }
                    } else {
                        assert((result.failed@[p]).0@ == key@);
                        assert(fseq[i as int].0@ == key@);
                        if key_listed(result.added@, k) {
                            let pa = choose|pa: int|
                                0 <= pa < result.added@.len() && (#[trigger] result.added@[pa])@
                                    == k;
                            assert((added0[pa])@ == key@);
                        }
                        if key_listed(result.updated@, k) {
                            let pu = choose|pu: int|
                                0 <= pu < result.updated@.len() && (
                                #[trigger] result.updated@[pu])@ == k;
                            assert((updated0[pu])@ == key@);
                        }
                    }
                }
                assert forall|q2: int|
                    0 <= q2 < live@.len() implies ({
                    let k = (#[trigger] live@[q2])@;
                    &&& self.spec_store().contents().contains_key(k)
                    &&& exists|ii: int| 0 <= ii <= i as int && (#[trigger] fseq[ii]).0@ == k
                }) by {
                    if q2 < live0.len() {
                        assert(live@[q2] == live0[q2]);
                        let ii = choose|ii: int|
                            0 <= ii < i as int && (#[trigger] fseq[ii]).0@ == (live0[q2])@;
                        assert(fseq[ii].0@ == (live@[q2])@);
                    } else {
                        assert((live@[q2])@ == key@);
                        assert(fseq[i as int].0@ == key@);
                    }
                }
                assert forall|k: Seq<char>|
                    #[trigger] self.spec_store().contents().contains_key(k) <==> (
                prev.contains_key(k) || key_listed(result.added@, k)) by {
                    if k != key@ {
                        if key_listed(result.added@, k) {
                            let pa = choose|pa: int|
                                0 <= pa < result.added@.len() && (#[trigger] result.added@[pa])@
                                    == k;
                            assert(pa < added0.len());
                            assert((added0[pa])@ == k);
                        } else {
                            if key_listed(added0, k) {
                                let pa = choose|pa: int|
                                    0 <= pa < added0.len() && (#[trigger] added0[pa])@ == k;
                                assert((result.added@[pa])@ == k);
                            }
                        }
                    } else {
                        if self.spec_store().contents().contains_key(key@) && !prev.contains_key(
                            key@,
                        ) {
                            if result.added@.len() > added0.len() {
                                assert((result.added@[added0.len() as int])@ == key@);
                            } else {
                                assert(self.spec_store().contents() == store0);
                                assert(key_listed(added0, key@));
                                assert(false);
                            }
                        }
                        if key_listed(result.added@, key@) && !self.spec_store().contents().contains_key(
                            key@,
                        ) {
                            let pa = choose|pa: int|
                                0 <= pa < result.added@.len() && (#[trigger] result.added@[pa])@
                                    == key@;
                            if pa < added0.len() {
                                assert((added0[pa])@ == key@);
                            } else {
                                assert(self.spec_store().contents().contains_key(key@));
                            }
                            assert(false);
                        }
                    }
                }
                assert forall|k: Seq<char>|
                    prev.contains_key(k) && !key_listed(
                        result.updated@,
                        k,
                    ) implies #[trigger] self.spec_store().contents()[k] == prev[k] by {
                    if key_listed(updated0, k) {
                        let pu = choose|pu: int|
                            0 <= pu < updated0.len() && (#[trigger] updated0[pu])@ == k;
                        assert((result.updated@[pu])@ == k);
                    }
                    if k == key@ {
                        if result.updated@.len() > updated0.len() {
                            assert((result.updated@[updated0.len() as int])@ == key@);
                        } else {
                            assert(store0[k] == prev[k]);
                            assert(self.spec_store().contents()[k] == store0[k]);
                        }
                    }
                }
                assert forall|k: Seq<char>|
                    key_listed(live@, k) <==> (key_listed(result.added@, k) || key_listed(
                        result.updated@,
                        k,
                    ) || (failed_listed(result.failed@, k) && prev.contains_key(k))) by {
                    if key_listed(live@, k) {
                        let q2 = choose|q2: int|
                            0 <= q2 < live@.len() && (#[trigger] live@[q2])@ == k;
                        if q2 < live0.len() {
                            assert((live0[q2])@ == k);
                            assert(key_listed(live0, k));
                            if key_listed(added0, k) {
                                let pa = choose|pa: int|
                                    0 <= pa < added0.len() && (#[trigger] added0[pa])@ == k;
                                assert((result.added@[pa])@ == k);
                            } else if key_listed(updated0, k) {
                                let pu = choose|pu: int|
                                    0 <= pu < updated0.len() && (#[trigger] updated0[pu])@ == k;
                                assert((result.updated@[pu])@ == k);
                            } else {
                                let pf = choose|pf: int|
                                    0 <= pf < failed0.len() && (#[trigger] failed0[pf]).0@ == k;
                                assert((result.failed@[pf]).0@ == k);
                            }
                        } else {
                            assert(k == key@);
                            if result.added@.len() > added0.len() {
                                assert((result.added@[added0.len() as int])@ == k);
                            } else if result.updated@.len() > updated0.len() {
                                assert((result.updated@[updated0.len() as int])@ == k);
                            } else {
                                assert((result.failed@[failed0.len() as int]).0@ == k);
                                assert(store0.contains_key(k));
                                assert(prev.contains_key(k));
                            }
                        }
                    } else {
                        if key_listed(result.added@, k) {
                            let pa = choose|pa: int|
                                0 <= pa < result.added@.len() && (#[trigger] result.added@[pa])@
                                    == k;
                            if pa < added0.len() {
                                assert((added0[pa])@ == k);
                                assert(key_listed(added0, k));
                                assert(key_listed(live0, k));
                                let q2 = choose|q2: int|
                                    0 <= q2 < live0.len() && (#[trigger] live0[q2])@ == k;
                                assert((live@[q2])@ == k);
                            } else {
                                assert(k == key@);
                                assert((live@[live@.len() - 1])@ == key@);
                            }
                        }
                        if key_listed(result.updated@, k) {
                            let pu = choose|pu: int|
                                0 <= pu < result.updated@.len() && (
                                #[trigger] result.updated@[pu])@ == k;
                            if pu < updated0.len() {
                                assert((updated0[pu])@ == k);
                                assert(key_listed(updated0, k));
                                assert(key_listed(live0, k));
                                let q2 = choose|q2: int|
                                    0 <= q2 < live0.len() && (#[trigger] live0[q2])@ == k;
                                assert((live@[q2])@ == k);
                            } else {
                                assert(k == key@);
                                assert((live@[live@.len() - 1])@ == key@);
                            }
                        }
                        if failed_listed(result.failed@, k) && prev.contains_key(k) {
                            let pf = choose|pf: int|
                                0 <= pf < result.failed@.len() && (#[trigger] result.failed@[pf]).0@
                                    == k;
                            if pf < failed0.len() {
                                assert((failed0[pf]).0@ == k);
                                assert(failed_listed(failed0, k));
                                assert(key_listed(live0, k));
                                let q2 = choose|q2: int|
                                    0 <= q2 < live0.len() && (#[trigger] live0[q2])@ == k;
                                assert((live@[q2])@ == k);
                            } else {
                                assert(k == key@);
                                assert(store0.contains_key(k));
                                assert((live@[live@.len() - 1])@ == key@);
                            }
                        }
                    }
                }
            }
            i = i + 1;
        }
        let ghost mid = self.spec_store().contents();
        let ghost added_fin = result.added@;
        let ghost updated_fin = result.updated@;
        let ghost failed_fin = result.failed@;
        let ghost live1 = live@;
        let mut owned_now: Vec<String> = Vec::new();
        core::mem::swap(&mut owned_now, &mut self.owned_keys);
        let no = owned_now.len();
        let mut q: usize = 0;
        while q < no
            invariant
                self.spec_loader() == old(self).spec_loader(),
                self.spec_policy() == old(self).spec_policy(),
                self.spec_owned().len() == 0,
                pat == self.spec_pattern(),
                mode0 == self.spec_scan_mode(),
                cap == self.spec_max_entries(),
                path0 == self.spec_path(),
                self.spec_store().wf(),
                self.spec_loader().inv(),
                prev == old(self).spec_store().contents(),
                prev_version == old(self).spec_store().spec_version(),
                owned0 == owned_now@,
                no == owned0.len(),
                forall|a: int, b: int| 0 <= a < b < no ==> owned0[a]@ != owned0[b]@,
                forall|a: int| 0 <= a < no ==> prev.contains_key((#[trigger] owned0[a])@),
                0 <= q <= no,
                self.spec_store().spec_version() == prev_version + added_fin.len()
                    + updated_fin.len(),
                added_fin == result.added@,
                updated_fin == result.updated@,
                failed_fin == result.failed@,
                forall|k: Seq<char>|
                    #[trigger] mid.contains_key(k) <==> (prev.contains_key(k) || key_listed(
                        added_fin,
                        k,
                    )),
                forall|k: Seq<char>|
                    prev.contains_key(k) && !key_listed(updated_fin, k) ==> #[trigger] mid[k]
                        == prev[k],
                forall|k: Seq<char>|
                    #![trigger key_listed(live1, k)]
                    key_listed(live1, k) <==> (key_listed(added_fin, k) || key_listed(
                        updated_fin,
                        k,
                    ) || (failed_listed(failed_fin, k) && prev.contains_key(k))),
                forall|a: int, b: int| 0 <= a < b < live1.len() ==> live1[a]@ != live1[b]@,
                forall|p: int|
                    0 <= p < live1.len() ==> mid.contains_key((#[trigger] live1[p])@),
                forall|k: Seq<char>|
                    #[trigger] self.spec_store().contents().contains_key(k) <==> (
                    mid.contains_key(k) && !key_listed(result.removed@, k)),
                forall|k: Seq<char>|
                    self.spec_store().contents().contains_key(k)
                        ==> #[trigger] self.spec_store().contents()[k] == mid[k],
                forall|p: int|
                    0 <= p < result.removed@.len() ==> ({
                        let k = (#[trigger] result.removed@[p])@;
                        &&& key_listed(owned0, k)
                        &&& prev.contains_key(k)
                        &&& prev[k].meta.policy == UnloadPolicy::Removable
                        &&& !key_listed(live1, k)
                        &&& exists|pp: int| 0 <= pp < q && (#[trigger] owned0[pp])@ == k
                    }),
                forall|p: int|
                    0 <= p < result.retained@.len() ==> ({
                        let k = (#[trigger] result.retained@[p])@;
                        &&& key_listed(owned0, k)
                        &&& prev.contains_key(k)
                        &&& prev[k].meta.policy == UnloadPolicy::Persistent
                        &&& !key_listed(live1, k)
                        &&& exists|pp: int| 0 <= pp < q && (#[trigger] owned0[pp])@ == k
                    }),
                forall|pp: int|
                    0 <= pp < q && !key_listed(live1, (#[trigger] owned0[pp])@) ==> ({
                        let k = owned0[pp]@;
                        if prev[k].meta.policy == UnloadPolicy::Persistent {
                            key_listed(result.retained@, k)
                        } else {
                            key_listed(result.removed@, k)
                        }
                    }),
                forall|k: Seq<char>|
                    #![trigger key_listed(live@, k)]
                    key_listed(live@, k) <==> (key_listed(live1, k) || key_listed(
                        result.retained@,
                        k,
                    )),
                forall|a: int, b: int| 0 <= a < b < live@.len() ==> live@[a]@ != live@[b]@,
                forall|p: int|
                    0 <= p < live@.len() ==> self.spec_store().contents().contains_key(
                        (#[trigger] live@[p])@,
                    ),
            decreases no - q,
        {
            let ghost removed0 = result.removed@;
            let ghost retained0 = result.retained@;
            let ghost livec0 = live@;
            let key = owned_now[q].clone();
            if !strutil::contains_str(&live, key.as_str()) {
                proof {
                    assert(!key_listed(live@, key@));
                    assert(!key_listed(live1, key@));
                    if key_listed(result.removed@, key@) {
                        let p = choose|p: int|
                            0 <= p < removed0.len() && (#[trigger] removed0[p])@ == key@;
                        let pp = choose|pp: int|
                            0 <= pp < q && (#[trigger] owned0[pp])@ == key@;
                        assert(false);
                    }
                    assert(prev.contains_key(key@));
                    assert(mid.contains_key(key@));
                    assert(self.spec_store().contents().contains_key(key@));
                    assert(!key_listed(updated_fin, key@));
                    assert(mid[key@] == prev[key@]);
                    assert(self.spec_store().contents()[key@] == prev[key@]);
                }
                match self.store.remove(key.as_str()) {
                    Ok(u) => {
                        result.removed.push(key);
                        proof {
                            assert forall|k: Seq<char>|
                                #[trigger] self.spec_store().contents().contains_key(k) <==> (
                                mid.contains_key(k) && !key_listed(result.removed@, k)) by {
                                if key_listed(result.removed@, k) {
                                    let p = choose|p: int|
                                        0 <= p < result.removed@.len() && (
                                        #[trigger] result.removed@[p])@ == k;
                                    if p < removed0.len() {
                                        assert((removed0[p])@ == k);
                                    } else {
                                        assert(k == key@);
                                    }
                                } else {
                                    assert((result.removed@[removed0.len() as int])@ == key@);
                                    assert forall|p: int|
                                        0 <= p < removed0.len() implies (
                                    #[trigger] removed0[p])@ != k by {
                                        assert(result.removed@[p] == removed0[p]);
                                    }
                                }
                            }
                        }
                    },
                    Err(u) => {
                        result.retained.push(key.clone());
                        live.push(key);
                    },
                }
            } else {
                proof {
                    assert(key_listed(live@, key@)) by {
                        let w = choose|w: int|
                            0 <= w < live@.len() && (#[trigger] live@[w])@ == key@;
                        assert((live@[w])@ == key@);
                    }
                    if key_listed(result.retained@, key@) {
                        let p = choose|p: int|
                            0 <= p < retained0.len() && (#[trigger] retained0[p])@ == key@;
                        let pp = choose|pp: int|
                            0 <= pp < q && (#[trigger] owned0[pp])@ == key@;
                        assert(false);
                    }
                    assert(key_listed(live1, key@));
                }
            }
            proof {
                let kq = owned0[q as int]@;
                assert forall|k: Seq<char>|
                    key_listed(live@, k) <==> (key_listed(live1, k) || key_listed(
                        result.retained@,
                        k,
                    )) by {
                    if key_listed(live@, k) {
                        let q2 = choose|q2: int|
                            0 <= q2 < live@.len() && (#[trigger] live@[q2])@ == k;
                        if q2 < livec0.len() {
                            assert((livec0[q2])@ == k);
                            assert(key_listed(livec0, k));
                            if !key_listed(live1, k) {
                                assert(key_listed(retained0, k));
                                let p = choose|p: int|
                                    0 <= p < retained0.len() && (#[trigger] retained0[p])@ == k;
                                assert((result.retained@[p])@ == k);
                            }
                        } else {
                            assert(k == kq);
                            assert((result.retained@[retained0.len() as int])@ == k);
                        }
                    } else {
                        if key_listed(live1, k) || key_listed(result.retained@, k) {
                            if key_listed(live1, k) {
                                assert(key_listed(livec0, k));
                                let q2 = choose|q2: int|
                                    0 <= q2 < livec0.len() && (#[trigger] livec0[q2])@ == k;
                                assert((live@[q2])@ == k);
                            } else {
                                let p = choose|p: int|
                                    0 <= p < result.retained@.len() && (
                                    #[trigger] result.retained@[p])@ == k;
                                if p < retained0.len() {
                                    assert((retained0[p])@ == k);
                                    assert(key_listed(retained0, k));
                                    assert(key_listed(livec0, k));
                                    let q2 = choose|q2: int|
                                        0 <= q2 < livec0.len() && (#[trigger] livec0[q2])@ == k;
                                    assert((live@[q2])@ == k);
                                } else {
                                    assert((live@[live@.len() - 1])@ == k);
                                }
                            }
                        }
                    }
                }
                assert forall|a: int, b: int|
                    0 <= a < b < live@.len() implies live@[a]@ != live@[b]@ by {
                    if b == live@.len() - 1 && live@.len() > livec0.len() {
                        assert((live@[a])@ == (livec0[a])@);
                        assert(!key_listed(livec0, kq));
                    }
                }
                assert forall|p: int|
                    0 <= p < live@.len() implies self.spec_store().contents().contains_key(
                    (#[trigger] live@[p])@,
                ) by {
                    if p < livec0.len() {
                        assert((livec0[p])@ == (live@[p])@);
                        if key_listed(result.removed@, (live@[p])@) {
                            let pr = choose|pr: int|
                                0 <= pr < result.removed@.len() && (#[trigger] result.removed@[pr])@
                                    == (live@[p])@;
                            if pr < removed0.len() {
                                assert((removed0[pr])@ == (live@[p])@);
                            } else {
                                assert((live@[p])@ == kq);
                                assert(!key_listed(livec0, kq));
                            }
                        }
                    } else {
                        assert((live@[p])@ == kq);
                    }
                }
                assert forall|p: int|
                    0 <= p < result.removed@.len() implies ({
                    let k = (#[trigger] result.removed@[p])@;
                    &&& key_listed(owned0, k)
                    &&& prev.contains_key(k)
                    &&& prev[k].meta.policy == UnloadPolicy::Removable
                    &&& !key_listed(live1, k)
                    &&& exists|pp: int| 0 <= pp <= q as int && (#[trigger] owned0[pp])@ == k
                }) by {
                    let k = (result.removed@[p])@;
                    if p < removed0.len() {
                        assert(result.removed@[p] == removed0[p]);
                        let pp = choose|pp: int|
                            0 <= pp < q as int && (#[trigger] owned0[pp])@ == (removed0[p])@;
                        assert(owned0[pp]@ == k);
                    } else {
                        assert(k == kq);
                        assert(owned0[q as int]@ == k);
                    }
                }
                assert forall|p: int|
                    0 <= p < result.retained@.len() implies ({
                    let k = (#[trigger] result.retained@[p])@;
                    &&& key_listed(owned0, k)
                    &&& prev.contains_key(k)
                    &&& prev[k].meta.policy == UnloadPolicy::Persistent
                    &&& !key_listed(live1, k)
                    &&& exists|pp: int| 0 <= pp <= q as int && (#[trigger] owned0[pp])@ == k
                }) by {
                    let k = (result.retained@[p])@;
                    if p < retained0.len() {
                        assert(result.retained@[p] == retained0[p]);
                        let pp = choose|pp: int|
                            0 <= pp < q as int && (#[trigger] owned0[pp])@ == (retained0[p])@;
                        assert(owned0[pp]@ == k);
                    } else {
                        assert(k == kq);
                        assert(owned0[q as int]@ == k);
                    }
                }
                assert forall|pp: int|
                    0 <= pp <= q as int && !key_listed(
                        live1,
                        (#[trigger] owned0[pp])@,
                    ) implies ({
                    let k = owned0[pp]@;
                    if prev[k].meta.policy == UnloadPolicy::Persistent {
                        key_listed(result.retained@, k)
                    } else {
                        key_listed(result.removed@, k)
                    }
                }) by {
                    let k = owned0[pp]@;
                    if pp < q as int {
                        if prev[k].meta.policy == UnloadPolicy::Persistent {
                            let p = choose|p: int|
                                0 <= p < retained0.len() && (#[trigger] retained0[p])@ == k;
                            assert((result.retained@[p])@ == k);
                        } else {
                            let p = choose|p: int|
                                0 <= p < removed0.len() && (#[trigger] removed0[p])@ == k;
                            assert((result.removed@[p])@ == k);
                        }
                    } else {
                        if !key_listed(live1, k) {
                            if prev[k].meta.policy == UnloadPolicy::Persistent {
                                assert((result.retained@[retained0.len() as int])@ == k);
                            } else {
                                assert((result.removed@[removed0.len() as int])@ == k);
                            }
                        }
                    }
                }
            }
            q = q + 1;
        }
        self.owned_keys = live;
        proof {
            let st = self.spec_store().contents();
            assert forall|p: int|
                0 <= p < result.added@.len() implies !key_listed(
                result.removed@,
                (#[trigger] result.added@[p])@,
            ) by {
                let k = (result.added@[p])@;
                if key_listed(result.removed@, k) {
                    let pr = choose|pr: int|
                        0 <= pr < result.removed@.len() && (#[trigger] result.removed@[pr])@ == k;
                    assert(!key_listed(live1, k));
                    assert(key_listed(added_fin, k));
                    assert(key_listed(live1, k));
                }
            }
            assert forall|p: int|
                0 <= p < result.updated@.len() implies !key_listed(
                result.removed@,
                (#[trigger] result.updated@[p])@,
            ) by {
                let k = (result.updated@[p])@;
                if key_listed(result.removed@, k) {
                    let pr = choose|pr: int|
                        0 <= pr < result.removed@.len() && (#[trigger] result.removed@[pr])@ == k;
                    assert(!key_listed(live1, k));
                    assert(key_listed(updated_fin, k));
                    assert(key_listed(live1, k));
                }
            }
            assert forall|p: int|
                0 <= p < result.failed@.len() && prev.contains_key(
                    (#[trigger] result.failed@[p]).0@,
                ) implies !key_listed(result.removed@, (result.failed@[p]).0@) && st.contains_key(
                (result.failed@[p]).0@,
            ) && st[(result.failed@[p]).0@] == prev[(result.failed@[p]).0@] by {
                let k = (result.failed@[p]).0@;
                assert(failed_listed(failed_fin, k));
                assert(key_listed(live1, k));
                if key_listed(result.removed@, k) {
                    let pr = choose|pr: int|
                        0 <= pr < result.removed@.len() && (#[trigger] result.removed@[pr])@ == k;
                }
                assert(!key_listed(updated_fin, k));
                assert(mid[k] == prev[k]);
            }
            assert forall|p: int|
                0 <= p < result.failed@.len() && !prev.contains_key(
                    (#[trigger] result.failed@[p]).0@,
                ) implies !st.contains_key((result.failed@[p]).0@) by {
                let k = (result.failed@[p]).0@;
                assert(!key_listed(added_fin, k));
                if st.contains_key(k) {
                    assert(mid.contains_key(k));
                }
            }
            assert forall|p: int|
                0 <= p < result.retained@.len() implies st.contains_key(
                (#[trigger] result.retained@[p])@,
            ) && st[(result.retained@[p])@] == prev[(result.retained@[p])@] by {
                let k = (result.retained@[p])@;
                if key_listed(result.removed@, k) {
                    let pr = choose|pr: int|
                        0 <= pr < result.removed@.len() && (#[trigger] result.removed@[pr])@ == k;
                    assert(prev[k].meta.policy == UnloadPolicy::Removable);
                }
                assert(!key_listed(updated_fin, k));
                assert(mid[k] == prev[k]);
            }
            assert forall|k: Seq<char>|
                prev.contains_key(k) && !key_listed(updated_fin, k) && !key_listed(
                    result.removed@,
                    k,
                ) implies st.contains_key(k) && st[k] == prev[k] by {
                assert(mid.contains_key(k));
                assert(mid[k] == prev[k]);
            }
            assert forall|a: int|
                0 <= a < self.spec_owned().len() implies self.spec_store().contents().contains_key(
                (#[trigger] self.spec_owned()[a])@,
            ) by {
            }
        }
        Ok(result)
    }
}


} // verus!
