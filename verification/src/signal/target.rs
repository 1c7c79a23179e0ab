//! Compiled watch targets and the event path filter.

use vstd::prelude::*;

use crate::strutil;

use super::Config;
use super::SignalError;
use super::Target;

verus! {

#[verifier::external_type_specification]
#[verifier::external_body]
pub struct ExGlobSet(globset::GlobSet);

/// The glob patterns a compiled set was built from.
pub uninterp spec fn globset_globs(s: globset::GlobSet) -> Seq<Seq<char>>;

/// Whether a list of glob patterns compiles into a matcher set. The
/// verdict depends on the pattern texts alone.
pub uninterp spec fn glob_set_compiles(patterns: Seq<Seq<char>>) -> bool;

/// Whether a set of glob patterns matches a path. The verdict depends on
/// the patterns and the path alone.
pub uninterp spec fn glob_match(globs: Seq<Seq<char>>, path: Seq<char>) -> bool;

/// Relies on `globset::Glob::new` and `globset::GlobSetBuilder`: each
/// pattern is compiled and the set built from them, in order; a bad
/// pattern reports its error as text. Whether the pipeline succeeds is a
/// function of the pattern texts alone, named by `glob_set_compiles`.
#[verifier::external_body]
fn build_glob_set(patterns: &Vec<String>) -> (r: Result<globset::GlobSet, String>)
    ensures
        r matches Ok(s) ==> globset_globs(s) == patterns.deep_view(),
        r is Ok <==> glob_set_compiles(patterns.deep_view()),
{
    let mut builder = globset::GlobSetBuilder::new();
    for p in patterns {
        match globset::Glob::new(p) {
            Ok(g) => {
                builder.add(g);
            },
            Err(e) => {
                return Err(e.to_string());
            },
        }
    }
    builder.build().map_err(|e| e.to_string())
}

/// Relies on `globset::GlobSet::is_match`: the verdict depends on the
/// compiled patterns and the path alone.
#[verifier::external_body]
fn glob_set_is_match(set: &globset::GlobSet, path: &str) -> (r: bool)
    ensures
        r == glob_match(globset_globs(*set), path@),
{
    set.is_match(path)
}

/// What a path looks like relative to the watch root: the part after the
/// root, or the path itself when the root does not lead it.
pub open spec fn spec_rel(root: Seq<char>, path: Seq<char>) -> Seq<char> {
    if path == root {
        Seq::empty()
    } else if (root + seq!['/']).is_prefix_of(path) {
        path.skip(root.len() as int + 1)
    } else if root.len() > 0 && root.last() == '/' && root.is_prefix_of(path) {
        path.skip(root.len() as int)
    } else {
        path
    }
}

/// True if some `/`-separated component of `rel` is hidden: it begins
/// with a dot and is not one of the navigation parts `.` and `..`.
pub open spec fn hidden_component(rel: Seq<char>) -> bool {
    exists|i: int|
        0 <= i < strutil::spec_split(rel, '/').len() && ({
            let c = #[trigger] strutil::spec_split(rel, '/')[i];
            c.len() > 0 && c[0] == '.' && c != "."@ && c != ".."@
        })
}

/// A watch target with its glob sets compiled once.
pub enum CompiledTarget {
    /// A single file.
    File(String),
    /// A whole directory.
    Directory(String),
    /// A directory filtered by glob sets.
    Filtered {
        path: String,
        /// The admitting set, when the allow list was non-empty.
        allow: Option<globset::GlobSet>,
        /// The patterns the allow set was built from.
        allow_patterns: Vec<String>,
        /// The rejecting set.
        deny: globset::GlobSet,
        /// The patterns the deny set was built from.
        deny_patterns: Vec<String>,
    },
}

/// The compiled target's well-formedness: each glob set was built from
/// the recorded patterns.
pub open spec fn compiled_wf(c: CompiledTarget) -> bool {
    match c {
        CompiledTarget::Filtered { allow, allow_patterns, deny, deny_patterns, .. } => {
            &&& (match allow {
                Some(s) => globset_globs(s) == allow_patterns.deep_view()
                    && allow_patterns@.len() > 0,
                None => allow_patterns@.len() == 0,
            })
            &&& globset_globs(deny) == deny_patterns.deep_view()
        },
        _ => true,
    }
}

/// What the filter decides for an event path made relative to the watch
/// root. A single-file target is watched through its parent directory,
/// so the event path matches when its relative part equals the target
/// path's own relative part (for a file watched through its parent,
/// that is the file's name).
pub open spec fn spec_target_matches(c: CompiledTarget, root: Seq<char>, rel: Seq<char>) -> bool {
    match c {
        CompiledTarget::File(t) => rel == spec_rel(root, t@),
        CompiledTarget::Directory(_) => true,
        CompiledTarget::Filtered { allow_patterns, deny_patterns, .. } => {
            &&& !glob_match(deny_patterns.deep_view(), rel)
            &&& (allow_patterns@.len() == 0 || glob_match(allow_patterns.deep_view(), rel))
        },
    }
}

/// The compiled form of a target: paths and pattern lists carried over
/// unchanged, variant for variant.
pub open spec fn compiled_from(target: Target, c: CompiledTarget) -> bool {
    match target {
        Target::File(p) => c matches CompiledTarget::File(p2) && p2@ == p@,
        Target::Directory(p) => c matches CompiledTarget::Directory(p2) && p2@ == p@,
        Target::Filtered { path, allow, deny } => c matches CompiledTarget::Filtered {
            path: p2,
            allow_patterns,
            deny_patterns,
            ..
        } && p2@ == path@ && allow_patterns@ == allow@ && deny_patterns@ == deny@,
    }
}

/// When compiling a target must fail: some filter pattern list does not
/// compile. Targets without globs always compile.
pub open spec fn target_compile_fails(target: Target) -> bool {
    match target {
        Target::Filtered { allow, deny, .. } => (allow@.len() > 0 && !glob_set_compiles(
            allow.deep_view(),
        )) || !glob_set_compiles(deny.deep_view()),
        _ => false,
    }
}

impl CompiledTarget {
    /// Compiles a target, building its glob sets once. Compilation fails
    /// exactly when a non-empty filter pattern list does not compile.
    pub fn new(target: Target) -> (r: Result<CompiledTarget, SignalError>)
        ensures
            match r {
                Ok(c) => compiled_wf(c) && compiled_from(target, c),
                Err(e) => e is Glob,
            },
            r is Err <==> target_compile_fails(target),
    {
        match target {
            Target::File(p) => Ok(CompiledTarget::File(p)),
            Target::Directory(p) => Ok(CompiledTarget::Directory(p)),
            Target::Filtered { path, allow, deny } => {
                let allow_set: Option<globset::GlobSet>;
                if allow.len() == 0 {
                    allow_set = None;
                } else {
                    match build_glob_set(&allow) {
                        Ok(s) => {
                            allow_set = Some(s);
                        },
                        Err(e) => {
                            return Err(SignalError::Glob(e));
                        },
                    }
                }
                let deny_set = match build_glob_set(&deny) {
                    Ok(s) => s,
                    Err(e) => {
                        return Err(SignalError::Glob(e));
                    },
                };
                Ok(
                    CompiledTarget::Filtered {
                        path,
                        allow: allow_set,
                        allow_patterns: allow,
                        deny: deny_set,
                        deny_patterns: deny,
                    },
                )
            },
        }
    }

    /// Computes the part of `path` relative to `root`.
    fn rel_part(path: &str, root: &str) -> (r: String)
        ensures
            r@ == spec_rel(root@, path@),
    {
        if strutil::str_eq(path, root) {
            let r = String::new();
            proof {
                assert(r@ =~= Seq::<char>::empty());
            }
            return r;
        }
        let rooted = strutil::concat(root, "/");
        proof {
            reveal_strlit("/");
            assert(rooted@ =~= root@ + seq!['/']);
        }
        if strutil::has_prefix(path, rooted.as_str()) {
            let n = path.unicode_len();
            let m = rooted.as_str().unicode_len();
            let r = strutil::substring(path, m, n);
            proof {
                assert(r@ =~= path@.skip(root@.len() as int + 1));
            }
            return r;
        }
        let rn = root.unicode_len();
        if rn > 0 && root.get_char(rn - 1) == '/' && strutil::has_prefix(path, root) {
            let n = path.unicode_len();
            let r = strutil::substring(path, rn, n);
            proof {
                assert(r@ =~= path@.skip(root@.len() as int));
            }
            return r;
        }
        strutil::to_string(path)
    }

    /// Decides whether an event path concerns this target: the path is
    /// made relative to the watch root, hidden components are dropped
    /// when so configured, and the target's own rule applies.
    pub fn matches(&self, path: &str, config: &Config, root: &str) -> (r: bool)
        requires
            compiled_wf(*self),
        ensures
            r == ({
                let rel = spec_rel(root@, path@);
                if config.ignore_hidden && hidden_component(rel) {
                    false
                } else {
                    spec_target_matches(*self, root@, rel)
                }
            }),
    {
        let rel = Self::rel_part(path, root);
        if config.ignore_hidden {
            let parts = strutil::split_char(rel.as_str(), '/');
            let n = parts.len();
            let mut i: usize = 0;
            while i < n
                invariant
                    n == parts@.len(),
                    parts.deep_view() == strutil::spec_split(rel@, '/'),
                    rel@ == spec_rel(root@, path@),
                    config.ignore_hidden,
                    0 <= i <= n,
                    forall|j: int|
                        0 <= j < i ==> !({
                            let c = #[trigger] parts.deep_view()[j];
                            c.len() > 0 && c[0] == '.' && c != "."@ && c != ".."@
                        }),
                decreases n - i,
            {
                let part = &parts[i];
                proof {
                    reveal_strlit(".");
                    reveal_strlit("..");
                }
                if !part.as_str().is_empty() && part.as_str().get_char(0) == '.' && !strutil::str_eq(
                    part.as_str(),
                    ".",
                ) && !strutil::str_eq(part.as_str(), "..") {
                    proof {
                        let c = parts.deep_view()[i as int];
                        assert(c.len() > 0 && c[0] == '.' && c != "."@ && c != ".."@);
                        assert(hidden_component(rel@));
                    }
                    return false;
                }
                i = i + 1;
            }
            proof {
                if hidden_component(rel@) {
                    let w = choose|w: int|
                        0 <= w < strutil::spec_split(rel@, '/').len() && ({
                            let c = #[trigger] strutil::spec_split(rel@, '/')[w];
                            c.len() > 0 && c[0] == '.' && c != "."@ && c != ".."@
                        });
                    assert(false);
                }
            }
        }
        match self {
            CompiledTarget::File(t) => {
                let target_rel = Self::rel_part(t.as_str(), root);
                strutil::str_eq(rel.as_str(), target_rel.as_str())
            },
            CompiledTarget::Directory(_) => true,
            CompiledTarget::Filtered { allow, deny, .. } => {
                if glob_set_is_match(deny, rel.as_str()) {
                    return false;
                }
                match allow {
                    Some(set) => glob_set_is_match(set, rel.as_str()),
                    None => true,
                }
            },
        }
    }
}

} // verus!
