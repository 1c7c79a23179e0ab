//! Key extraction patterns and scan configuration types for directory
//! scanning.

use vstd::prelude::*;

use crate::strutil;

verus! {

/// Result of a directory scan operation.
#[derive(Debug)]
pub struct ScanResult {
    /// Keys that were newly added.
    pub added: Vec<String>,
    /// Keys that were updated (value changed).
    pub updated: Vec<String>,
    /// Keys that failed to load (kept old value if available).
    pub failed: Vec<(String, String)>,
    /// Keys that were removed (file no longer exists).
    pub removed: Vec<String>,
    /// Keys retained due to `Persistent` policy.
    pub retained: Vec<String>,
}

impl Default for ScanResult {
    /// An empty scan result.
    fn default() -> (r: Self)
        ensures
            r.added@.len() == 0,
            r.updated@.len() == 0,
            r.failed@.len() == 0,
            r.removed@.len() == 0,
            r.retained@.len() == 0,
    {
        ScanResult {
            added: Vec::new(),
            updated: Vec::new(),
            failed: Vec::new(),
            removed: Vec::new(),
            retained: Vec::new(),
        }
    }
}

impl ScanResult {
    /// All successfully loaded keys: the added ones followed by the
    /// updated ones.
    pub fn loaded(&self) -> (r: Vec<String>)
        ensures
            r@.len() == self.added@.len() + self.updated@.len(),
            forall|i: int| 0 <= i < self.added@.len() ==> (#[trigger] r@[i])@ == self.added@[i]@,
            forall|i: int|
                0 <= i < self.updated@.len() ==> (#[trigger] r@[self.added@.len() + i])@
                    == self.updated@[i]@,
    {
        let mut out: Vec<String> = Vec::new();
        let n = self.added.len();
        let mut i: usize = 0;
        while i < n
            invariant
                n == self.added@.len(),
                0 <= i <= n,
                out@.len() == i,
                forall|j: int| 0 <= j < i ==> (#[trigger] out@[j])@ == self.added@[j]@,
            decreases n - i,
        {
            out.push(self.added[i].clone());
            i = i + 1;
        }
        let m = self.updated.len();
        let mut j: usize = 0;
        while j < m
            invariant
                n == self.added@.len(),
                m == self.updated@.len(),
                0 <= j <= m,
                out@.len() == n + j,
                forall|p: int| 0 <= p < n ==> (#[trigger] out@[p])@ == self.added@[p]@,
                forall|p: int| 0 <= p < j ==> (#[trigger] out@[n + p])@ == self.updated@[p]@,
            decreases m - j,
        {
            out.push(self.updated[j].clone());
            j = j + 1;
        }
        out
    }
}

/// A user-supplied key extractor, for full control over key extraction.
pub trait KeyExtractor: Send + Sync {
    /// Extracts a key from a file or directory name, or rejects the name.
    fn extract_key(&self, name: &str) -> Option<String>;
}

/// The key the `Identity` pattern extracts: the name up to its last `.`,
/// or the whole name when it has none; nothing when that stem is empty.
pub open spec fn spec_extract_identity(name: Seq<char>) -> Option<Seq<char>> {
    let stem = if strutil::seq_has_char(name, '.') {
        name.take(choose|i: int| strutil::seq_last_index_of(name, '.', i))
    } else {
        name
    };
    if stem.len() == 0 {
        None
    } else {
        Some(stem)
    }
}

/// True if stripping `ext` off `name` leaves a non-empty key.
pub open spec fn ext_strips(name: Seq<char>, ext: Seq<char>) -> bool {
    ext.is_suffix_of(name) && name.len() > ext.len()
}

/// The key the `Extensions` pattern extracts: the first listed suffix that
/// strips to a non-empty key wins; else the `Identity` rule applies.
pub open spec fn spec_extract_extensions(name: Seq<char>, exts: Seq<Seq<char>>) -> Option<
    Seq<char>,
>
    decreases exts.len(),
{
    if exts.len() == 0 {
        spec_extract_identity(name)
    } else if ext_strips(name, exts[0]) {
        Some(name.take(name.len() - exts[0].len()))
    } else {
        spec_extract_extensions(name, exts.skip(1))
    }
}

/// The key the `Bracketed` pattern extracts: the content between a leading
/// `[` and the first `]`; nothing when the brackets are absent or empty.
pub open spec fn spec_extract_bracketed(name: Seq<char>) -> Option<Seq<char>> {
    if name.len() > 0 && name[0] == '[' && strutil::seq_has_char(name, ']') {
        let end = choose|i: int| strutil::seq_first_index_of(name, ']', i);
        let key = name.subrange(1, end);
        if key.len() == 0 {
            None
        } else {
            Some(key)
        }
    } else {
        None
    }
}

/// The key the `Strip` pattern extracts: the middle left after removing
/// the given prefix and suffix; nothing when either part does not match or
/// the middle is empty.
pub open spec fn spec_extract_strip(
    name: Seq<char>,
    prefix: Seq<char>,
    suffix: Seq<char>,
) -> Option<Seq<char>> {
    if prefix.len() > 0 && !prefix.is_prefix_of(name) {
        None
    } else {
        let after_prefix = if prefix.len() > 0 {
            name.skip(prefix.len() as int)
        } else {
            name
        };
        if suffix.len() > 0 && !suffix.is_suffix_of(after_prefix) {
            None
        } else {
            let middle = if suffix.len() > 0 {
                after_prefix.take(after_prefix.len() - suffix.len())
            } else {
                after_prefix
            };
            if middle.len() == 0 {
                None
            } else {
                Some(middle)
            }
        }
    }
}

/// The key a pattern extracts from a name, as far as it is specified:
/// exact for the four structural patterns; a custom extractor answers
/// for itself and is unspecified here.
pub open spec fn spec_pattern_extract(p: KeyPattern, name: Seq<char>) -> Option<Seq<char>> {
    match p {
        KeyPattern::Identity => spec_extract_identity(name),
        KeyPattern::Extensions(exts) => spec_extract_extensions(name, exts.deep_view()),
        KeyPattern::Bracketed => spec_extract_bracketed(name),
        KeyPattern::Strip { prefix, suffix } => spec_extract_strip(name, prefix@, suffix@),
        KeyPattern::Custom(_) => None,
    }
}

/// The view of an optional owned string.
pub open spec fn view_opt(o: Option<String>) -> Option<Seq<char>> {
    match o {
        Some(s) => Some(s@),
        None => None,
    }
}

/// Pattern for extracting keys from directory or file names.
pub enum KeyPattern {
    /// Use the name as-is, removing the last extension.
    Identity,
    /// Try known suffixes in order and strip the first match; fall back to
    /// `Identity`. Useful for compound extensions.
    Extensions(Vec<String>),
    /// Extract the content from brackets.
    Bracketed,
    /// Strip a fixed prefix and suffix; both must match.
    Strip { prefix: String, suffix: String },
    /// A user-supplied extractor.
    Custom(Box<dyn KeyExtractor>),
}

impl Default for KeyPattern {
    /// The default pattern is `Identity`.
    fn default() -> (r: Self)
        ensures
            r is Identity,
    {
        KeyPattern::Identity
    }
}

impl KeyPattern {
    /// Creates a custom key extractor.
    pub fn custom<F: KeyExtractor + 'static>(f: F) -> (r: Self)
        ensures
            r is Custom,
    {
        KeyPattern::Custom(Box::new(f))
    }

    /// Extracts a key from a name based on the pattern. For the structural
    /// patterns the result is pinned exactly; a `Custom` extractor answers
    /// for itself.
    pub fn extract(&self, name: &str) -> (r: Option<String>)
        ensures
            !(*self is Custom) ==> view_opt(r) == spec_pattern_extract(*self, name@),
    {
        match self {
            KeyPattern::Identity => Self::extract_identity(name),
            KeyPattern::Extensions(exts) => {
                let n = exts.len();
                proof {
                    assert(exts.deep_view().skip(0) =~= exts.deep_view());
                }
                let mut i: usize = 0;
                while i < n
                    invariant
                        (*self) matches KeyPattern::Extensions(e) && e.deep_view()
                            == exts.deep_view(),
                        n == exts@.len(),
                        0 <= i <= n,
                        spec_extract_extensions(name@, exts.deep_view()) == spec_extract_extensions(
                            name@,
                            exts.deep_view().skip(i as int),
                        ),
                    decreases n - i,
                {
                    let ext = &exts[i];
                    proof {
                        assert(exts.deep_view()[i as int] == exts@[i as int]@);
                        assert(exts.deep_view().skip(i as int)[0] == exts@[i as int]@);
                        assert(exts.deep_view().skip(i as int).skip(1) =~= exts.deep_view().skip(
                            i + 1 as int,
                        ));
                    }
                    if strutil::has_suffix(name, ext.as_str()) && name.unicode_len()
                        > ext.unicode_len() {
                        let key = strutil::substring(
                            name,
                            0,
                            name.unicode_len() - ext.unicode_len(),
                        );
                        proof {
                            let dv = exts.deep_view().skip(i as int);
                            assert(ext_strips(name@, dv[0]));
                            assert(key@ =~= name@.take(name@.len() - dv[0].len()));
                            assert(spec_extract_extensions(name@, dv) == Some(key@));
                        }
                        return Some(key);
                    }
                    i = i + 1;
                }
                proof {
                    assert(exts.deep_view().skip(n as int) =~= Seq::<Seq<char>>::empty());
                }
                Self::extract_identity(name)
            },
            KeyPattern::Bracketed => {
                let n = name.unicode_len();
                if n == 0 || name.get_char(0) != '[' {
                    return None;
                }
                match strutil::find_char(name, ']') {
                    Some(end) => {
                        proof {
                            strutil::lemma_seq_first_index_exists(name@, ']');
                            let w = choose|i: int| strutil::seq_first_index_of(name@, ']', i);
                            assert(strutil::seq_first_index_of(name@, ']', end as int));
                            assert(w == end as int);
                        }
                        if end <= 1 {
                            None
                        } else {
                            Some(strutil::substring(name, 1, end))
                        }
                    },
                    None => None,
                }
            },
            KeyPattern::Strip { prefix, suffix } => {
                if !prefix.as_str().is_empty() && !strutil::has_prefix(name, prefix.as_str()) {
                    return None;
                }
                let plen: usize = if !prefix.as_str().is_empty() {
                    prefix.unicode_len()
                } else {
                    0
                };
                proof {
                    if prefix@.len() > 0 {
                        assert(prefix@.is_prefix_of(name@));
                    }
                    assert(name@.skip(plen as int) == if prefix@.len() > 0 {
                        name@.skip(prefix@.len() as int)
                    } else {
                        name@
                    });
                }
                let after_prefix = strutil::substring(name, plen, name.unicode_len());
                proof {
                    assert(after_prefix@ =~= name@.skip(plen as int));
                }
                if !suffix.as_str().is_empty() && !strutil::has_suffix(after_prefix.as_str(), suffix.as_str())
                {
                    return None;
                }
                let slen: usize = if !suffix.as_str().is_empty() {
                    suffix.unicode_len()
                } else {
                    0
                };
                let middle = strutil::substring(
                    after_prefix.as_str(),
                    0,
                    after_prefix.unicode_len() - slen,
                );
                proof {
                    assert(middle@ =~= after_prefix@.take(after_prefix@.len() - slen));
                }
                if middle.as_str().is_empty() {
                    None
                } else {
                    Some(middle)
                }
            },
            KeyPattern::Custom(f) => f.extract_key(name),
        }
    }

    /// Extracts a key using the `Identity` rule: remove the last extension.
    pub fn extract_identity(name: &str) -> (r: Option<String>)
        ensures
            view_opt(r) == spec_extract_identity(name@),
    {
        match strutil::rfind_char(name, '.') {
            Some(i) => {
                proof {
                    strutil::lemma_seq_last_index_exists(name@, '.');
                    let w = choose|j: int| strutil::seq_last_index_of(name@, '.', j);
                    assert(strutil::seq_last_index_of(name@, '.', i as int));
                    assert(w == i as int);
                }
                if i == 0 {
                    None
                } else {
                    Some(strutil::substring(name, 0, i))
                }
            },
            None => {
                if name.is_empty() {
                    None
                } else {
                    Some(strutil::to_string(name))
                }
            },
        }
    }
}

/// Defines what to scan within the directory.
#[derive(Debug)]
pub enum ScanMode {
    /// Scan only files directly in the directory.
    Files,
    /// Scan subdirectories, loading a specific config file from each.
    Subdirs {
        /// The config file name to load from each subdirectory.
        config_file: String,
    },
}

impl Default for ScanMode {
    /// The default mode scans files.
    fn default() -> (r: Self)
        ensures
            r is Files,
    {
        ScanMode::Files
    }
}

} // verus!
