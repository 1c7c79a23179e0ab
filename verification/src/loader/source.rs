//! Byte sources: in-memory, and the sandboxed filesystem decisions.

use vstd::prelude::*;

use crate::keymap::KeyMap;
use crate::strutil;

use super::error::FmtError;
use super::Source;

verus! {

/// A copy of a byte vector.
fn clone_bytes(v: &Vec<u8>) -> (r: Vec<u8>)
    ensures
        r@ == v@,
{
    let n = v.len();
    let mut out: Vec<u8> = Vec::new();
    let mut i: usize = 0;
    while i < n
        invariant
            n == v@.len(),
            0 <= i <= n,
            out@ =~= v@.take(i as int),
        decreases n - i,
    {
        out.push(v[i]);
        proof {
            assert(out@ =~= v@.take(i + 1 as int));
        }
        i = i + 1;
    }
    proof {
        assert(v@.take(n as int) =~= v@);
    }
    out
}

/// A simple in-memory source, useful for testing and embedded use.
///
/// Beside the byte blobs it can record, per key, the canonical path the
/// bytes were captured from; loads report that path as the origin.
pub struct MemorySource {
    data: KeyMap<Vec<u8>>,
    origin_data: KeyMap<String>,
}

impl MemorySource {
    /// Well-formedness of the underlying maps.
    pub closed spec fn wf(&self) -> bool {
        &&& self.data.wf()
        &&& self.origin_data.wf()
    }

    /// The trait invariant is exactly well-formedness.
    pub proof fn lemma_inv_is_wf(&self)
        ensures
            self.inv() == self.wf(),
    {
    }

    /// Creates a new empty source.
    pub fn new() -> (r: Self)
        ensures
            r.wf(),
            r.contents() == Map::<Seq<char>, Seq<u8>>::empty(),
            r.origins() == Map::<Seq<char>, Seq<char>>::empty(),
    {
        let r = MemorySource { data: KeyMap::new(), origin_data: KeyMap::new() };
        proof {
            assert(r.contents() =~= Map::<Seq<char>, Seq<u8>>::empty());
        }
        r
    }

    /// Inserts data into the source; the key is its own origin.
    pub fn insert(&mut self, key: &str, value: Vec<u8>)
        requires
            old(self).wf(),
        ensures
            final(self).wf(),
            final(self).contents() == old(self).contents().insert(key@, value@),
            final(self).origins() == old(self).origins(),
    {
        let ghost pre = self.contents();
        self.data.insert(strutil::to_string(key), value);
        proof {
            assert(self.contents() =~= pre.insert(key@, value@));
        }
    }

    /// Inserts data into the source together with the canonical path it
    /// was captured from; loads under the key report that path as the
    /// entry's origin.
    pub fn insert_with_origin(&mut self, key: &str, value: Vec<u8>, origin: &str)
        requires
            old(self).wf(),
        ensures
            final(self).wf(),
            final(self).contents() == old(self).contents().insert(key@, value@),
            final(self).origins() == old(self).origins().insert(key@, origin@),
    {
        let ghost pre = self.contents();
        self.data.insert(strutil::to_string(key), value);
        self.origin_data.insert(strutil::to_string(key), strutil::to_string(origin));
        proof {
            assert(self.contents() =~= pre.insert(key@, value@));
            assert(self.origins() =~= old(self).origins().insert(key@, origin@));
        }
    }
}

impl Default for MemorySource {
    /// An empty source.
    fn default() -> (r: Self)
        ensures
            r.wf(),
            r.contents() == Map::<Seq<char>, Seq<u8>>::empty(),
            r.origins() == Map::<Seq<char>, Seq<char>>::empty(),
    {
        MemorySource::new()
    }
}

impl Source for MemorySource {
    /// The underlying map is well-formed.
    closed spec fn inv(&self) -> bool {
        self.wf()
    }

    /// The stored byte strings, by key.
    closed spec fn contents(&self) -> Map<Seq<char>, Seq<u8>> {
        self.data@.map_values(|v: Vec<u8>| v@)
    }

    /// The recorded canonical origins, by key.
    closed spec fn origins(&self) -> Map<Seq<char>, Seq<char>> {
        self.origin_data@.map_values(|v: String| v@)
    }

    fn origin_of(&self, key: &str) -> (r: Option<String>) {
        match self.origin_data.get(key) {
            Some(origin) => Some(origin.clone()),
            None => None,
        }
    }

    fn read(&self, key: &str) -> (r: Result<Vec<u8>, FmtError>) {
        match self.data.get(key) {
            Some(bytes) => Ok(clone_bytes(bytes)),
            None => Err(FmtError::NotFound),
        }
    }

    fn has_key(&self, key: &str) -> (r: bool) {
        self.data.contains_key(key)
    }
}

/// True if `path` lies at or below the directory `root`, both given in
/// canonical form.
pub open spec fn path_within(root: Seq<char>, path: Seq<char>) -> bool {
    ||| path == root
    ||| (root + seq!['/']).is_prefix_of(path)
    ||| (root.len() > 0 && root.last() == '/' && root.is_prefix_of(path))
}

/// True if any `/`-separated component of `key` walks to the parent
/// directory.
pub open spec fn has_parent_component(key: Seq<char>) -> bool {
    exists|i: int|
        0 <= i < strutil::spec_split(key, '/').len() && #[trigger] strutil::spec_split(
            key,
            '/',
        )[i] == ".."@
}

/// A file system source rooted at a base directory.
///
/// The source treats its root as a sandbox: a key whose components walk
/// upward, or whose canonical path escapes the canonical root, is
/// rejected. The decisions live here; reading and canonicalizing the
/// actual files is input/output and stays with the caller.
#[derive(Debug)]
pub struct FileSource {
    root: String,
}

impl FileSource {
    /// The configured root path.
    pub closed spec fn spec_root(&self) -> Seq<char> {
        self.root@
    }

    /// Creates a new source rooted at the given path.
    pub fn new(root: &str) -> (r: Self)
        ensures
            r.spec_root() == root@,
    {
        FileSource { root: strutil::to_string(root) }
    }

    /// The configured root path.
    pub fn root(&self) -> (r: &str)
        ensures
            r@ == self.spec_root(),
    {
        self.root.as_str()
    }

    /// The path of a key under the root, before canonicalization.
    pub fn join_key(&self, key: &str) -> (r: String)
        ensures
            r@ == self.spec_root() + seq!['/'] + key@,
    {
        let mut out = strutil::concat(self.root.as_str(), "/");
        proof {
            reveal_strlit("/");
        }
        let r = strutil::concat(out.as_str(), key);
        r
    }

    /// Rejects a key with a parent-directory component.
    pub fn check_key(key: &str) -> (r: Result<(), FmtError>)
        ensures
            r is Ok <==> !has_parent_component(key@),
            r matches Err(e) ==> e is SandboxViolation,
    {
        let parts = strutil::split_char(key, '/');
        let n = parts.len();
        let mut i: usize = 0;
        while i < n
            invariant
                n == parts@.len(),
                parts.deep_view() == strutil::spec_split(key@, '/'),
                0 <= i <= n,
                forall|j: int| 0 <= j < i ==> parts.deep_view()[j] != ".."@,
            decreases n - i,
        {
            if strutil::str_eq(parts[i].as_str(), "..") {
                proof {
                    assert(parts.deep_view()[i as int] == ".."@);
                }
                return Err(FmtError::SandboxViolation);
            }
            i = i + 1;
        }
        Ok(())
    }

    /// Accepts a canonicalized key path exactly when it lies under the
    /// canonicalized root.
    pub fn accept_canonical(canonical_root: &str, canonical_path: &str) -> (r: Result<
        String,
        FmtError,
    >)
        ensures
            r matches Ok(p) ==> p@ == canonical_path@ && path_within(
                canonical_root@,
                canonical_path@,
            ),
            r matches Err(e) ==> e is SandboxViolation && !path_within(
                canonical_root@,
                canonical_path@,
            ),
    {
        if strutil::str_eq(canonical_path, canonical_root) {
            return Ok(strutil::to_string(canonical_path));
        }
        let rooted = strutil::concat(canonical_root, "/");
        proof {
            reveal_strlit("/");
        }
        if strutil::has_prefix(canonical_path, rooted.as_str()) {
            return Ok(strutil::to_string(canonical_path));
        }
        let n = canonical_root.unicode_len();
        if n > 0 && canonical_root.get_char(n - 1) == '/' && strutil::has_prefix(
            canonical_path,
            canonical_root,
        ) {
            return Ok(strutil::to_string(canonical_path));
        }
        Err(FmtError::SandboxViolation)
    }
}

} // verus!
