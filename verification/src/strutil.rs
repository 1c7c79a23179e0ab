//! Verified helpers over string slices.
//!
//! Keys, file names and paths are compared and sliced character-wise, so
//! that every contract can speak of the `Seq<char>` view directly.

use vstd::prelude::*;
use vstd::string::StrSliceExecFns;
use vstd::string::StringExecFns;

verus! {

/// Character-wise string equality.
pub fn str_eq(a: &str, b: &str) -> (r: bool)
    ensures
        r == (a@ == b@),
{
    let n = a.unicode_len();
    if n != b.unicode_len() {
        return false;
    }
    let mut i: usize = 0;
    while i < n
        invariant
            n == a@.len(),
            n == b@.len(),
            0 <= i <= n,
            forall|j: int| 0 <= j < i ==> a@[j] == b@[j],
        decreases n - i,
    {
        if a.get_char(i) != b.get_char(i) {
            return false;
        }
        i = i + 1;
    }
    proof {
        assert(a@ =~= b@);
    }
    true
}

/// The index of the last occurrence of `c` in `s`, if any.
pub fn rfind_char(s: &str, c: char) -> (r: Option<usize>)
    ensures
        match r {
            Some(i) => i < s@.len() && s@[i as int] == c && forall|j: int|
                i < j < s@.len() ==> s@[j] != c,
            None => forall|j: int| 0 <= j < s@.len() ==> s@[j] != c,
        },
{
    let n = s.unicode_len();
    let mut i: usize = n;
    while i > 0
        invariant
            n == s@.len(),
            0 <= i <= n,
            forall|j: int| i <= j < n ==> s@[j] != c,
        decreases i,
    {
        i = i - 1;
        if s.get_char(i) == c {
            return Some(i);
        }
    }
    None
}

/// The index of the first occurrence of `c` in `s`, if any.
pub fn find_char(s: &str, c: char) -> (r: Option<usize>)
    ensures
        match r {
            Some(i) => i < s@.len() && s@[i as int] == c && forall|j: int|
                0 <= j < i ==> s@[j] != c,
            None => forall|j: int| 0 <= j < s@.len() ==> s@[j] != c,
        },
{
    let n = s.unicode_len();
    let mut i: usize = 0;
    while i < n
        invariant
            n == s@.len(),
            0 <= i <= n,
            forall|j: int| 0 <= j < i ==> s@[j] != c,
        decreases n - i,
    {
        if s.get_char(i) == c {
            return Some(i);
        }
        i = i + 1;
    }
    None
}

/// True if `suffix`'s characters end `s`.
pub fn has_suffix(s: &str, suffix: &str) -> (r: bool)
    ensures
        r == suffix@.is_suffix_of(s@),
{
    let n = s.unicode_len();
    let m = suffix.unicode_len();
    if m > n {
        return false;
    }
    let mut i: usize = 0;
    while i < m
        invariant
            n == s@.len(),
            m == suffix@.len(),
            m <= n,
            0 <= i <= m,
            forall|j: int| 0 <= j < i ==> s@[n - m + j] == suffix@[j],
        decreases m - i,
    {
        if s.get_char(n - m + i) != suffix.get_char(i) {
            proof {
                assert(s@.subrange(n - m, n as int)[i as int] != suffix@[i as int]);
            }
            return false;
        }
        i = i + 1;
    }
    proof {
        assert(s@.subrange(n - m, n as int) =~= suffix@);
    }
    true
}

/// True if `prefix`'s characters begin `s`.
pub fn has_prefix(s: &str, prefix: &str) -> (r: bool)
    ensures
        r == prefix@.is_prefix_of(s@),
{
    let n = s.unicode_len();
    let m = prefix.unicode_len();
    if m > n {
        return false;
    }
    let mut i: usize = 0;
    while i < m
        invariant
            n == s@.len(),
            m == prefix@.len(),
            m <= n,
            0 <= i <= m,
            forall|j: int| 0 <= j < i ==> s@[j] == prefix@[j],
        decreases m - i,
    {
        if s.get_char(i) != prefix.get_char(i) {
            proof {
                assert(s@.subrange(0, m as int)[i as int] != prefix@[i as int]);
            }
            return false;
        }
        i = i + 1;
    }
    proof {
        assert(s@.subrange(0, m as int) =~= prefix@);
    }
    true
}

/// True if some element of `v` has the same characters as `key`.
pub fn contains_str(v: &Vec<String>, key: &str) -> (r: bool)
    ensures
        r == exists|i: int| 0 <= i < v@.len() && (#[trigger] v@[i])@ == key@,
{
    let n = v.len();
    let mut i: usize = 0;
    while i < n
        invariant
            n == v@.len(),
            0 <= i <= n,
            forall|j: int| 0 <= j < i ==> (#[trigger] v@[j])@ != key@,
        decreases n - i,
    {
        if str_eq(v[i].as_str(), key) {
            return true;
        }
        i = i + 1;
    }
    false
}

/// A copy of the characters of `s` from `from` (inclusive) to `to`
/// (exclusive), as an owned string.
pub fn substring(s: &str, from: usize, to: usize) -> (r: String)
    requires
        from <= to <= s@.len(),
    ensures
        r@ == s@.subrange(from as int, to as int),
{
    let piece = s.substring_char(from, to);
    String::from_str(piece)
}

/// An owned copy of a string slice.
pub fn to_string(s: &str) -> (r: String)
    ensures
        r@ == s@,
{
    String::from_str(s)
}

/// True if `c` occurs in `s`.
pub open spec fn seq_has_char(s: Seq<char>, c: char) -> bool {
    exists|i: int| 0 <= i < s.len() && s[i] == c
}

/// `i` is the index of the first occurrence of `c` in `s`.
pub open spec fn seq_first_index_of(s: Seq<char>, c: char, i: int) -> bool {
    0 <= i < s.len() && s[i] == c && forall|j: int| 0 <= j < i ==> s[j] != c
}

/// The pieces of `s` between occurrences of `sep`; splitting the empty
/// string gives one empty piece.
pub open spec fn spec_split(s: Seq<char>, sep: char) -> Seq<Seq<char>>
    decreases s.len(),
{
    if !seq_has_char(s, sep) {
        seq![s]
    } else {
        let i = choose|i: int| seq_first_index_of(s, sep, i);
        if 0 <= i < s.len() {
            seq![s.take(i)] + spec_split(s.skip(i + 1), sep)
        } else {
            seq![s]
        }
    }
}

/// `i` is the index of the last occurrence of `c` in `s`.
pub open spec fn seq_last_index_of(s: Seq<char>, c: char, i: int) -> bool {
    0 <= i < s.len() && s[i] == c && forall|j: int| i < j < s.len() ==> s[j] != c
}

/// A sequence holding `c` has a last occurrence of it.
pub proof fn lemma_seq_last_index_exists(s: Seq<char>, c: char)
    requires
        seq_has_char(s, c),
    ensures
        exists|i: int| seq_last_index_of(s, c, i),
    decreases s.len(),
{
    if s.len() > 0 {
        if s.last() == c {
            assert(seq_last_index_of(s, c, s.len() - 1));
        } else {
            let w = choose|i: int| 0 <= i < s.len() && s[i] == c;
            assert(s.drop_last()[w] == c);
            lemma_seq_last_index_exists(s.drop_last(), c);
            let i = choose|i: int| seq_last_index_of(s.drop_last(), c, i);
            assert forall|j: int| i < j < s.len() implies s[j] != c by {
                if j < s.len() - 1 {
                    assert(s.drop_last()[j] == s[j]);
                }
            }
            assert(seq_last_index_of(s, c, i));
        }
    }
}

/// A sequence holding `c` has a first occurrence of it.
pub proof fn lemma_seq_first_index_exists(s: Seq<char>, c: char)
    requires
        seq_has_char(s, c),
    ensures
        exists|i: int| seq_first_index_of(s, c, i),
    decreases s.len(),
{
    if s.len() > 0 {
        if s[0] == c {
            assert(seq_first_index_of(s, c, 0));
        } else {
            let w = choose|i: int| 0 <= i < s.len() && s[i] == c;
            assert(s.skip(1)[w - 1] == c);
            lemma_seq_first_index_exists(s.skip(1), c);
            let i = choose|i: int| seq_first_index_of(s.skip(1), c, i);
            assert forall|j: int| 0 <= j < i + 1 implies s[j] != c by {
                if j > 0 {
                    assert(s.skip(1)[j - 1] == s[j]);
                }
            }
            assert(s.skip(1)[i] == s[i + 1]);
            assert(seq_first_index_of(s, c, i + 1));
        }
    }
}

/// Splits `s` on every occurrence of `sep`.
pub fn split_char(s: &str, sep: char) -> (r: Vec<String>)
    ensures
        r.deep_view() == spec_split(s@, sep),
{
    let mut rest: String = to_string(s);
    let mut out: Vec<String> = Vec::new();
    loop
        invariant
            spec_split(s@, sep) =~= out.deep_view() + spec_split(rest@, sep),
        decreases rest@.len(),
    {
        let ghost dv0 = out.deep_view();
        match find_char(rest.as_str(), sep) {
            Some(i) => {
                proof {
                    lemma_seq_first_index_exists(rest@, sep);
                    let w = choose|j: int| seq_first_index_of(rest@, sep, j);
                    assert(seq_first_index_of(rest@, sep, i as int));
                    assert(w == i as int);
                }
                let n = rest.as_str().unicode_len();
                let piece = substring(rest.as_str(), 0, i);
                let next = substring(rest.as_str(), i + 1, n);
                proof {
                    assert(next@ =~= rest@.skip(i + 1 as int));
                    assert(spec_split(rest@, sep) =~= seq![piece@] + spec_split(next@, sep));
                }
                let ghost pv = piece@;
                out.push(piece);
                proof {
                    assert(out.deep_view() =~= dv0 + seq![pv]);
                }
                rest = next;
            },
            None => {
                proof {
                    assert(spec_split(rest@, sep) =~= seq![rest@]);
                }
                let ghost rv = rest@;
                out.push(rest);
                proof {
                    assert(out.deep_view() =~= dv0 + seq![rv]);
                }
                return out;
            },
        }
    }
}

/// `a` followed by `b`, as an owned string.
pub fn concat(a: &str, b: &str) -> (r: String)
    ensures
        r@ == a@ + b@,
{
    let mut out = String::from_str(a);
    out.append(b);
    out
}

} // verus!
