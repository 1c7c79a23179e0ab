//! Filesystem-event debouncing, coalescing and filtering.
//!
//! Raw notifications arrive as `(paths, kind)` pairs with a clock reading;
//! the [`worker::Debouncer`] turns them into at most one high-level event
//! per path per quiet period, filtered against a [`Target`].

pub mod target;
pub mod worker;

pub use target::CompiledTarget;
pub use worker::Debouncer;

use vstd::prelude::*;

use crate::strutil;

verus! {

/// Errors raised while setting a watch up.
#[derive(Debug)]
pub enum SignalError {
    /// Input/output error, as text.
    Io(String),
    /// Error from the notification backend, as text.
    Notify(String),
    /// Invalid configuration.
    Config(String),
    /// Glob pattern error, as text.
    Glob(String),
}

impl Clone for SignalError {
    fn clone(&self) -> (r: Self)
        ensures
            r == *self,
    {
        match self {
            SignalError::Io(s) => SignalError::Io(s.clone()),
            SignalError::Notify(s) => SignalError::Notify(s.clone()),
            SignalError::Config(s) => SignalError::Config(s.clone()),
            SignalError::Glob(s) => SignalError::Glob(s.clone()),
        }
    }
}

/// The kind of filesystem event the watcher reports.
#[derive(Debug, Clone, Copy, PartialEq, Eq, Hash, Structural)]
pub enum EventKind {
    /// A file was created.
    Create,
    /// A file's content was modified.
    Modify,
    /// A file was removed.
    Remove,
}

/// A simplified, high-level filesystem event.
#[derive(Debug)]
pub struct Event {
    /// The paths involved in the event.
    pub paths: Vec<String>,
    /// What happened to them.
    pub kind: EventKind,
}

impl Clone for Event {
    fn clone(&self) -> (r: Self)
        ensures
            r.kind == self.kind,
            r.paths@.len() == self.paths@.len(),
            forall|i: int|
                0 <= i < r.paths@.len() ==> (#[trigger] r.paths@[i])@ == self.paths@[i]@,
    {
        let n = self.paths.len();
        let mut paths: Vec<String> = Vec::new();
        let mut i: usize = 0;
        while i < n
            invariant
                n == self.paths@.len(),
                0 <= i <= n,
                paths@.len() == i,
                forall|j: int| 0 <= j < i ==> (#[trigger] paths@[j])@ == self.paths@[j]@,
            decreases n - i,
        {
            paths.push(self.paths[i].clone());
            i = i + 1;
        }
        Event { paths, kind: self.kind }
    }
}

/// Defines what file system entities to monitor.
#[derive(Debug)]
pub enum Target {
    /// Monitor a single file.
    File(String),
    /// Monitor a directory recursively.
    Directory(String),
    /// Monitor a directory with glob pattern filtering.
    Filtered {
        path: String,
        /// Glob patterns to allow; an empty list admits everything.
        allow: Vec<String>,
        /// Glob patterns that reject a path.
        deny: Vec<String>,
    },
}

/// Configuration for the watcher behaviour.
#[derive(Debug)]
pub struct Config {
    /// Time window, in milliseconds, after the last raw event for a path
    /// before a high-level event is emitted.
    pub debounce_ms: u64,
    /// Whether to merge successive raw events for one path following the
    /// coalesce rules.
    pub coalesce: bool,
    /// Whether to ignore hidden files automatically.
    pub ignore_hidden: bool,
    /// Specific event kinds to listen for; all of them when absent.
    pub listen_events: Option<Vec<EventKind>>,
}

impl Default for Config {
    /// Half a second of debouncing, coalescing on, hidden files ignored,
    /// all event kinds reported.
    fn default() -> (r: Self)
        ensures
            r.debounce_ms == 500,
            r.coalesce == true,
            r.ignore_hidden == true,
            r.listen_events is None,
    {
        Config { debounce_ms: 500, coalesce: true, ignore_hidden: true, listen_events: None }
    }
}

impl Clone for Config {
    fn clone(&self) -> (r: Self)
        ensures
            r.debounce_ms == self.debounce_ms,
            r.coalesce == self.coalesce,
            r.ignore_hidden == self.ignore_hidden,
            r.listen_events is Some <==> self.listen_events is Some,
            r.listen_events matches Some(l) ==> (self.listen_events matches Some(l2) && l@ == l2@),
    {
        let listen_events = match &self.listen_events {
            Some(l) => {
                let n = l.len();
                let mut out: Vec<EventKind> = Vec::new();
                let mut i: usize = 0;
                while i < n
                    invariant
                        n == l@.len(),
                        0 <= i <= n,
                        out@ =~= l@.take(i as int),
                    decreases n - i,
                {
                    out.push(l[i]);
                    proof {
                        assert(out@ =~= l@.take(i + 1 as int));
                    }
                    i = i + 1;
                }
                proof {
                    assert(l@.take(n as int) =~= l@);
                }
                Some(out)
            },
            None => None,
        };
        Config {
            debounce_ms: self.debounce_ms,
            coalesce: self.coalesce,
            ignore_hidden: self.ignore_hidden,
            listen_events,
        }
    }
}

/// The parent directory of a path: the characters before its last `/`,
/// `/` itself when that slash leads, and nothing when it has no slash.
pub open spec fn spec_parent(p: Seq<char>) -> Option<Seq<char>> {
    if strutil::seq_has_char(p, '/') {
        let i = choose|i: int| strutil::seq_last_index_of(p, '/', i);
        if i == 0 {
            Some(seq!['/'])
        } else {
            Some(p.take(i))
        }
    } else {
        None
    }
}

/// The path a watch for the target must be registered on: a single file
/// is watched through its parent directory, a directory through itself.
pub open spec fn spec_watch_path(target: Target) -> Seq<char> {
    match target {
        Target::File(p) => match spec_parent(p@) {
            Some(parent) => parent,
            None => p@,
        },
        Target::Directory(p) => p@,
        Target::Filtered { path, .. } => path@,
    }
}

/// Whether the watch for the target is recursive.
pub open spec fn spec_watch_recursive(target: Target) -> bool {
    !(target is File)
}

/// Where a watch must be registered for a target.
#[derive(Debug)]
pub struct WatchPlan {
    /// The path handed to the notification backend.
    pub path: String,
    /// Whether the watch is recursive.
    pub recursive: bool,
}

/// Computes the watch path and recursion mode of a target: a single file
/// is watched through its parent directory, non-recursively, so that
/// atomic-rename editors are observed; directories are watched
/// recursively.
pub fn watch_plan(target: &Target) -> (r: WatchPlan)
    ensures
        r.path@ == spec_watch_path(*target),
        r.recursive == spec_watch_recursive(*target),
{
    match target {
        Target::File(p) => {
            match strutil::rfind_char(p.as_str(), '/') {
                Some(i) => {
                    proof {
                        strutil::lemma_seq_last_index_exists(p@, '/');
                        let w = choose|j: int| strutil::seq_last_index_of(p@, '/', j);
                        assert(strutil::seq_last_index_of(p@, '/', i as int));
                        assert(w == i as int);
                    }
                    if i == 0 {
                        let root = strutil::to_string("/");
                        proof {
                            reveal_strlit("/");
                            assert(root@ =~= seq!['/']);
                        }
                        WatchPlan { path: root, recursive: false }
                    } else {
                        WatchPlan { path: strutil::substring(p.as_str(), 0, i), recursive: false }
                    }
                },
                None => WatchPlan { path: p.clone(), recursive: false },
            }
        },
        Target::Directory(p) => WatchPlan { path: p.clone(), recursive: true },
        Target::Filtered { path, .. } => WatchPlan { path: path.clone(), recursive: true },
    }
}

/// The period of the flush tick: a fifth of the debounce window, or the
/// window itself when it is under fifty milliseconds.
pub fn tick_rate_ms(debounce_ms: u64) -> (r: u64)
    ensures
        r == if debounce_ms < 50 {
            debounce_ms
        } else {
            debounce_ms / 5
        },
{
    if debounce_ms < 50 {
        debounce_ms
    } else {
        debounce_ms / 5
    }
}

} // verus!
