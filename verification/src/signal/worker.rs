//! The debouncer: raw notifications in, at most one high-level event per
//! path per quiet period out.

use vstd::prelude::*;

use crate::keymap::KeyMap;

use super::spec_watch_path;
use super::target::compiled_from;
use super::target::compiled_wf;
use super::target::hidden_component;
use super::target::spec_rel;
use super::target::spec_target_matches;
use super::target::target_compile_fails;
use super::target::CompiledTarget;
use super::watch_plan;
use super::Config;
use super::Event;
use super::EventKind;
use super::SignalError;
use super::Target;

verus! {

/// The state kept for one pending path.
#[derive(Debug, Clone, Copy)]
pub struct DebounceState {
    /// When the path's last raw event arrived, in milliseconds.
    pub last_seen: u64,
    /// The coalesced kind recorded so far.
    pub kind: EventKind,
}

/// The kind recorded when a raw event follows an earlier one for the same
/// path. Without coalescing the latest kind wins; with it, a `Modify`
/// neither downgrades a fresh `Create` nor revives a `Remove`.
pub open spec fn coalesce_kind(coalesce: bool, prev: EventKind, next: EventKind) -> EventKind {
    if !coalesce {
        next
    } else if prev is Create && next is Modify {
        prev
    } else if prev is Remove && next is Modify {
        prev
    } else {
        next
    }
}

/// Whether the debouncer's filter accepts an event path.
pub open spec fn spec_accepts(
    c: CompiledTarget,
    config: Config,
    root: Seq<char>,
    path: Seq<char>,
) -> bool {
    let rel = spec_rel(root, path);
    if config.ignore_hidden && hidden_component(rel) {
        false
    } else {
        spec_target_matches(c, root, rel)
    }
}

/// One raw path folded into the pending map.
pub open spec fn spec_step(
    pending: Map<Seq<char>, DebounceState>,
    c: CompiledTarget,
    config: Config,
    root: Seq<char>,
    path: Seq<char>,
    kind: EventKind,
    now: u64,
) -> Map<Seq<char>, DebounceState> {
    if !spec_accepts(c, config, root, path) {
        pending
    } else if pending.contains_key(path) {
        pending.insert(
            path,
            DebounceState {
                last_seen: now,
                kind: coalesce_kind(config.coalesce, pending[path].kind, kind),
            },
        )
    } else {
        pending.insert(path, DebounceState { last_seen: now, kind })
    }
}

/// A whole raw event folded into the pending map, path by path.
pub open spec fn spec_fold(
    pending: Map<Seq<char>, DebounceState>,
    c: CompiledTarget,
    config: Config,
    root: Seq<char>,
    paths: Seq<Seq<char>>,
    kind: EventKind,
    now: u64,
) -> Map<Seq<char>, DebounceState>
    decreases paths.len(),
{
    if paths.len() == 0 {
        pending
    } else {
        spec_fold(
            spec_step(pending, c, config, root, paths[0], kind, now),
            c,
            config,
            root,
            paths.skip(1),
            kind,
            now,
        )
    }
}

/// True if the entry's quiet period has elapsed at `now`.
pub open spec fn is_quiet(st: DebounceState, now: u64, debounce_ms: u64) -> bool {
    st.last_seen <= now && now - st.last_seen >= debounce_ms
}

/// True if the configuration's allow-list admits the kind.
pub open spec fn kind_allowed(config: Config, kind: EventKind) -> bool {
    match config.listen_events {
        Some(l) => l@.contains(kind),
        None => true,
    }
}

/// The debouncer state machine.
///
/// Raw notifications are folded into a pending map keyed by path; a
/// periodic flush emits one event per path whose quiet period elapsed and
/// forgets the entry.
pub struct Debouncer {
    pending: KeyMap<DebounceState>,
    target: CompiledTarget,
    config: Config,
    root: String,
}

impl Debouncer {
    /// The pending entries, by path.
    pub closed spec fn pending_map(&self) -> Map<Seq<char>, DebounceState> {
        self.pending@
    }

    /// The compiled target filtering event paths.
    pub closed spec fn spec_target(&self) -> CompiledTarget {
        self.target
    }

    /// The configuration.
    pub closed spec fn spec_config(&self) -> Config {
        self.config
    }

    /// The watch root event paths are made relative to.
    pub closed spec fn spec_root(&self) -> Seq<char> {
        self.root@
    }

    /// Well-formedness of the pending map and the compiled target.
    pub closed spec fn wf(&self) -> bool {
        &&& self.pending.wf()
        &&& compiled_wf(self.target)
    }

    /// Creates a debouncer for a target: the watch root is the target's
    /// watch path, and the target's globs are compiled once. Creation
    /// fails exactly when a filter pattern list does not compile.
    pub fn new(target: Target, config: Config) -> (r: Result<Debouncer, SignalError>)
        ensures
            r matches Ok(d) ==> d.wf() && d.pending_map() == Map::<Seq<char>, DebounceState>::empty()
                && d.spec_config() == config && d.spec_root() == spec_watch_path(target)
                && compiled_from(target, d.spec_target()),
            r matches Err(e) ==> e is Glob,
            r is Err <==> target_compile_fails(target),
    {
        let plan = watch_plan(&target);
        let compiled = match CompiledTarget::new(target) {
            Ok(c) => c,
            Err(e) => {
                return Err(e);
            },
        };
        Ok(Debouncer { pending: KeyMap::new(), target: compiled, config, root: plan.path })
    }

    /// Folds one raw notification into the pending map: each path that
    /// passes the target filter is recorded or refreshed at `now`, its
    /// kind coalesced with any earlier one.
    pub fn handle_raw_event(&mut self, paths: &Vec<String>, kind: EventKind, now: u64)
        requires
            old(self).wf(),
        ensures
            final(self).wf(),
            final(self).spec_target() == old(self).spec_target(),
            final(self).spec_config() == old(self).spec_config(),
            final(self).spec_root() == old(self).spec_root(),
            final(self).pending_map() == spec_fold(
                old(self).pending_map(),
                old(self).spec_target(),
                old(self).spec_config(),
                old(self).spec_root(),
                paths.deep_view(),
                kind,
                now,
            ),
    {
        let n = paths.len();
        let ghost all = paths.deep_view();
        proof {
            assert(all.skip(0) =~= all);
        }
        let mut i: usize = 0;
        while i < n
            invariant
                self.wf(),
                self.spec_target() == old(self).spec_target(),
                self.spec_config() == old(self).spec_config(),
                self.spec_root() == old(self).spec_root(),
                n == all.len(),
                all == paths.deep_view(),
                0 <= i <= n,
                spec_fold(
                    self.pending_map(),
                    self.spec_target(),
                    self.spec_config(),
                    self.spec_root(),
                    all.skip(i as int),
                    kind,
                    now,
                ) == spec_fold(
                    old(self).pending_map(),
                    old(self).spec_target(),
                    old(self).spec_config(),
                    old(self).spec_root(),
                    all,
                    kind,
                    now,
                ),
            decreases n - i,
        {
            let ghost pending0 = self.pending_map();
            let path = &paths[i];
            proof {
                assert(all.skip(i as int)[0] == path@);
                assert(all.skip(i as int).skip(1) =~= all.skip(i + 1 as int));
            }
            if self.target.matches(path.as_str(), &self.config, self.root.as_str()) {
                let st = match self.pending.get(path.as_str()) {
                    Some(prev) => {
                        let new_kind: EventKind;
                        if !self.config.coalesce {
                            new_kind = kind;
                        } else if (prev.kind == EventKind::Create && kind == EventKind::Modify) || (
                        prev.kind == EventKind::Remove && kind == EventKind::Modify) {
                            new_kind = prev.kind;
                        } else {
                            new_kind = kind;
                        }
                        DebounceState { last_seen: now, kind: new_kind }
                    },
                    None => DebounceState { last_seen: now, kind },
                };
                self.pending.insert(path.clone(), st);
                proof {
                    assert(self.pending_map() == spec_step(
                        pending0,
                        self.spec_target(),
                        self.spec_config(),
                        self.spec_root(),
                        path@,
                        kind,
                        now,
                    ));
                }
            } else {
                proof {
                    assert(self.pending_map() == spec_step(
                        pending0,
                        self.spec_target(),
                        self.spec_config(),
                        self.spec_root(),
                        path@,
                        kind,
                        now,
                    ));
                }
            }
            i = i + 1;
        }
        proof {
            assert(all.skip(n as int) =~= Seq::<Seq<char>>::empty());
        }
    }

    /// Emits one event per pending path whose quiet period has elapsed,
    /// and forgets those entries, whether or not the allow-list let their
    /// event out.
    #[verifier::rlimit(100)]
    pub fn flush_pending(&mut self, now: u64) -> (r: Vec<Event>)
        requires
            old(self).wf(),
        ensures
            final(self).wf(),
            final(self).spec_target() == old(self).spec_target(),
            final(self).spec_config() == old(self).spec_config(),
            final(self).spec_root() == old(self).spec_root(),
            forall|k: Seq<char>|
                #[trigger] final(self).pending_map().contains_key(k) <==> (old(self).pending_map().contains_key(k) && !is_quiet(
                    old(self).pending_map()[k],
                    now,
                    old(self).spec_config().debounce_ms,
                )),
            forall|k: Seq<char>|
                final(self).pending_map().contains_key(k) ==> #[trigger] final(self).pending_map()[k] == old(self).pending_map()[k],
            forall|p: int|
                0 <= p < r@.len() ==> ({
                    let e = #[trigger] r@[p];
                    &&& e.paths@.len() == 1
                    &&& old(self).pending_map().contains_key(e.paths@[0]@)
                    &&& is_quiet(
                        old(self).pending_map()[e.paths@[0]@],
                        now,
                        old(self).spec_config().debounce_ms,
                    )
                    &&& e.kind == old(self).pending_map()[e.paths@[0]@].kind
                    &&& kind_allowed(old(self).spec_config(), e.kind)
                }),
            forall|p: int, q: int| 0 <= p < q < r@.len() ==> r@[p].paths@[0]@ != r@[q].paths@[0]@,
            forall|k: Seq<char>|
                old(self).pending_map().contains_key(k) && is_quiet(
                    #[trigger] old(self).pending_map()[k],
                    now,
                    old(self).spec_config().debounce_ms,
                ) && kind_allowed(old(self).spec_config(), old(self).pending_map()[k].kind)
                    ==> exists|p: int|
                    0 <= p < r@.len() && (#[trigger] r@[p]).paths@[0]@ == k,
    {
        let ghost oseq = self.pending.spec_pairs();
        proof {
            assert forall|jj: int| 0 <= jj < oseq.len() implies self.pending_map().contains_key(
                (#[trigger] oseq[jj].0)@,
            ) && self.pending_map()[oseq[jj].0@] == oseq[jj].1 by {
                self.pending.lemma_pair_in_view(jj);
            }
            assert forall|k: Seq<char>| self.pending_map().contains_key(k) implies exists|jj: int|
                0 <= jj < oseq.len() && (#[trigger] oseq[jj].0)@ == k by {
                self.pending.lemma_view_in_pairs(k);
            }
        }
        let m = self.pending.pair_count();
        let mut kept: KeyMap<DebounceState> = KeyMap::new();
        let mut out: Vec<Event> = Vec::new();
        let mut j: usize = 0;
        while j < m
            invariant
                self.wf(),
                0 <= j <= m,
                m == oseq.len(),
                oseq == self.pending.spec_pairs(),
                forall|a: int, b: int| 0 <= a < b < m ==> oseq[a].0@ != oseq[b].0@,
                forall|jj: int| #![auto]
                    0 <= jj < m ==> self.pending_map().contains_key(oseq[jj].0@)
                        && self.pending_map()[oseq[jj].0@] == oseq[jj].1,
                forall|k: Seq<char>|
                    #[trigger] self.pending_map().contains_key(k) ==> exists|jj: int|
                        0 <= jj < oseq.len() && (#[trigger] oseq[jj].0)@ == k,
                kept.wf(),
                forall|k: Seq<char>|
                    #[trigger] kept@.contains_key(k) <==> exists|jj: int|
                        0 <= jj < j && (#[trigger] oseq[jj].0)@ == k && !is_quiet(
                            oseq[jj].1,
                            now,
                            self.spec_config().debounce_ms,
                        ),
                forall|jj: int|
                    0 <= jj < j && !is_quiet(
                        (#[trigger] oseq[jj]).1,
                        now,
                        self.spec_config().debounce_ms,
                    ) ==> kept@.contains_key(oseq[jj].0@) && kept@[oseq[jj].0@] == oseq[jj].1,
                forall|p: int|
                    0 <= p < out@.len() ==> ({
                        let e = #[trigger] out@[p];
                        &&& e.paths@.len() == 1
                        &&& self.pending_map().contains_key(e.paths@[0]@)
                        &&& is_quiet(
                            self.pending_map()[e.paths@[0]@],
                            now,
                            self.spec_config().debounce_ms,
                        )
                        &&& e.kind == self.pending_map()[e.paths@[0]@].kind
                        &&& kind_allowed(self.spec_config(), e.kind)
                        &&& exists|jj: int| 0 <= jj < j && (#[trigger] oseq[jj].0)@ == e.paths@[0]@
                    }),
                forall|p: int, q: int|
                    0 <= p < q < out@.len() ==> out@[p].paths@[0]@ != out@[q].paths@[0]@,
                forall|jj: int|
                    0 <= jj < j && is_quiet(
                        (#[trigger] oseq[jj]).1,
                        now,
                        self.spec_config().debounce_ms,
                    ) && kind_allowed(self.spec_config(), oseq[jj].1.kind) ==> exists|p: int|
                        0 <= p < out@.len() && (#[trigger] out@[p]).paths@[0]@ == oseq[jj].0@,
            decreases m - j,
        {
            let ghost out0 = out@;
            let pair = self.pending.pair_at(j);
            let st = pair.1;
            let quiet = st.last_seen <= now && now - st.last_seen >= self.config.debounce_ms;
            if quiet {
                let allowed = match &self.config.listen_events {
                    Some(l) => {
                        let nl = l.len();
                        let mut a: usize = 0;
                        let mut found = false;
                        while a < nl
                            invariant
                                nl == l@.len(),
                                0 <= a <= nl,
                                found == exists|q: int| 0 <= q < a && l@[q] == st.kind,
                            decreases nl - a,
                        {
                            if l[a] == st.kind {
                                found = true;
                            }
                            a = a + 1;
                        }
                        found
                    },
                    None => true,
                };
                proof {
                    assert(allowed == kind_allowed(self.spec_config(), st.kind));
                }
                if allowed {
                    let mut event_paths: Vec<String> = Vec::new();
                    event_paths.push(pair.0.clone());
                    out.push(Event { paths: event_paths, kind: st.kind });
                    proof {
                        assert forall|p: int, q: int|
                            0 <= p < q < out@.len() implies out@[p].paths@[0]@
                            != out@[q].paths@[0]@ by {
                            if q == out@.len() - 1 {
                                let e = out@[p];
                                let jj = choose|jj: int|
                                    0 <= jj < j && (#[trigger] oseq[jj].0)@ == e.paths@[0]@;
                                assert(oseq[jj].0@ != oseq[j as int].0@);
                            }
                        }
                    }
                }
            } else {
                kept.insert(pair.0.clone(), st);
            }
            proof {
                assert forall|jj: int|
                    0 <= jj <= j as int && is_quiet(
                        (#[trigger] oseq[jj]).1,
                        now,
                        self.spec_config().debounce_ms,
                    ) && kind_allowed(self.spec_config(), oseq[jj].1.kind) implies exists|p: int|
                    0 <= p < out@.len() && (#[trigger] out@[p]).paths@[0]@ == oseq[jj].0@ by {
                    if jj < j as int {
                        let p = choose|p: int|
                            0 <= p < out0.len() && (#[trigger] out0[p]).paths@[0]@ == oseq[jj].0@;
                        assert((out@[p]).paths@[0]@ == oseq[jj].0@);
                    } else {
                        assert((out@[out@.len() - 1]).paths@[0]@ == oseq[jj].0@);
                    }
                }
            }
            j = j + 1;
        }
        self.pending = kept;
        proof {
            assert forall|k: Seq<char>|
                old(self).pending_map().contains_key(k) && is_quiet(
                    #[trigger] old(self).pending_map()[k],
                    now,
                    old(self).spec_config().debounce_ms,
                ) && kind_allowed(old(self).spec_config(), old(self).pending_map()[k].kind) implies exists|p: int|
                0 <= p < out@.len() && (#[trigger] out@[p]).paths@[0]@ == k by {
                let jj = choose|jj: int| 0 <= jj < oseq.len() && (#[trigger] oseq[jj].0)@ == k;
                assert(oseq[jj].1 == old(self).pending_map()[k]);
            }
        }
        out
    }

    /// The number of paths still pending.
    pub fn pending_len(&self) -> (r: usize)
        requires
            self.wf(),
        ensures
            r == self.pending_map().dom().len(),
    {
        self.pending.len()
    }
}

} // verus!
