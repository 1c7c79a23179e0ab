//! A small map from string keys to values, backed by a vector of pairs.
//!
//! The store, the in-memory source and the directory scanner all need a
//! mapping keyed by strings whose contents can be reasoned about exactly;
//! this module provides one with a `Map<Seq<char>, V>` view.

use vstd::prelude::*;

use crate::strutil::str_eq;

verus! {

/// An association map from `String` keys to values of type `V`.
///
/// Keys are pairwise distinct; the abstract view is a finite
/// `Map<Seq<char>, V>`.
pub struct KeyMap<V> {
    pairs: Vec<(String, V)>,
}

/// The map denoted by a sequence of key/value pairs; later pairs win.
pub open spec fn pairs_to_map<V>(s: Seq<(String, V)>) -> Map<Seq<char>, V>
    decreases s.len(),
{
    if s.len() == 0 {
        Map::empty()
    } else {
        pairs_to_map(s.drop_last()).insert(s.last().0@, s.last().1)
    }
}

/// Distinctness of the keys of a pair sequence.
pub open spec fn distinct_keys<V>(s: Seq<(String, V)>) -> bool {
    forall|i: int, j: int| 0 <= i < j < s.len() ==> s[i].0@ != s[j].0@
}

proof fn lemma_pairs_to_map_contains<V>(s: Seq<(String, V)>, k: Seq<char>)
    ensures
        pairs_to_map(s).contains_key(k) <==> exists|i: int| 0 <= i < s.len() && s[i].0@ == k,
    decreases s.len(),
{
    if s.len() > 0 {
        lemma_pairs_to_map_contains(s.drop_last(), k);
        if s.last().0@ != k {
            if pairs_to_map(s).contains_key(k) {
                let i = choose|i: int| 0 <= i < s.drop_last().len() && s.drop_last()[i].0@ == k;
                assert(s[i].0@ == k);
            }
            if exists|i: int| 0 <= i < s.len() && s[i].0@ == k {
                let i = choose|i: int| 0 <= i < s.len() && s[i].0@ == k;
                assert(s.drop_last()[i].0@ == k);
            }
        }
    }
}

proof fn lemma_pairs_to_map_index<V>(s: Seq<(String, V)>, i: int)
    requires
        distinct_keys(s),
        0 <= i < s.len(),
    ensures
        pairs_to_map(s).contains_key(s[i].0@),
        pairs_to_map(s)[s[i].0@] == s[i].1,
    decreases s.len(),
{
    if i < s.len() - 1 {
        lemma_pairs_to_map_index(s.drop_last(), i);
        assert(s.drop_last()[i] == s[i]);
        assert(s.last().0@ != s[i].0@);
    }
}

proof fn lemma_pairs_to_map_dom_len<V>(s: Seq<(String, V)>)
    requires
        distinct_keys(s),
    ensures
        pairs_to_map(s).dom().finite(),
        pairs_to_map(s).dom().len() == s.len(),
    decreases s.len(),
{
    if s.len() == 0 {
        assert(pairs_to_map(s).dom() =~= Set::<Seq<char>>::empty());
    } else {
        lemma_pairs_to_map_dom_len(s.drop_last());
        lemma_pairs_to_map_contains(s.drop_last(), s.last().0@);
        assert(!pairs_to_map(s.drop_last()).contains_key(s.last().0@));
        assert(pairs_to_map(s).dom() =~= pairs_to_map(s.drop_last()).dom().insert(s.last().0@));
    }
}

impl<V> KeyMap<V> {
    /// The underlying pair sequence, exposed so that iteration order can be
    /// spoken about.
    pub closed spec fn spec_pairs(&self) -> Seq<(String, V)> {
        self.pairs@
    }

    /// Well-formedness: keys are pairwise distinct.
    pub open spec fn wf(&self) -> bool {
        distinct_keys(self.spec_pairs())
    }

    /// Every pair is in the map view, at its key.
    pub proof fn lemma_pair_in_view(&self, i: int)
        requires
            self.wf(),
            0 <= i < self.spec_pairs().len(),
        ensures
            self@.contains_key(self.spec_pairs()[i].0@),
            self@[self.spec_pairs()[i].0@] == self.spec_pairs()[i].1,
    {
        lemma_pairs_to_map_index(self.spec_pairs(), i);
    }

    /// Every key of the map view names some pair.
    pub proof fn lemma_view_in_pairs(&self, k: Seq<char>)
        requires
            self@.contains_key(k),
        ensures
            exists|i: int| 0 <= i < self.spec_pairs().len() && self.spec_pairs()[i].0@ == k,
    {
        lemma_pairs_to_map_contains(self.spec_pairs(), k);
    }

    /// The view's domain is finite and as large as the pair sequence.
    pub proof fn lemma_dom_len(&self)
        requires
            self.wf(),
        ensures
            self@.dom().finite(),
            self@.dom().len() == self.spec_pairs().len(),
    {
        lemma_pairs_to_map_dom_len(self.spec_pairs());
    }

    /// Creates an empty map.
    pub fn new() -> (r: KeyMap<V>)
        ensures
            r.wf(),
            r@ == Map::<Seq<char>, V>::empty(),
            r.spec_pairs().len() == 0,
    {
        KeyMap { pairs: Vec::new() }
    }

    /// The number of entries.
    pub fn len(&self) -> (r: usize)
        requires
            self.wf(),
        ensures
            r == self.spec_pairs().len(),
            r == self@.dom().len(),
    {
        proof {
            self.lemma_dom_len();
        }
        self.pairs.len()
    }

    /// True if the map holds no entry.
    pub fn is_empty(&self) -> (r: bool)
        requires
            self.wf(),
        ensures
            r == (self@.dom().len() == 0),
    {
        self.len() == 0
    }

    /// Looks a key up.
    pub fn get(&self, key: &str) -> (r: Option<&V>)
        requires
            self.wf(),
        ensures
            match r {
                Some(v) => self@.contains_key(key@) && *v == self@[key@],
                None => !self@.contains_key(key@),
            },
    {
        let n = self.pairs.len();
        let mut i: usize = 0;
        while i < n
            invariant
                self.wf(),
                n == self.spec_pairs().len(),
                0 <= i <= n,
                forall|j: int| 0 <= j < i ==> self.spec_pairs()[j].0@ != key@,
            decreases n - i,
        {
            if str_eq(self.pairs[i].0.as_str(), key) {
                proof {
                    self.lemma_pair_in_view(i as int);
                }
                return Some(&self.pairs[i].1);
            }
            i = i + 1;
        }
        proof {
            if self@.contains_key(key@) {
                self.lemma_view_in_pairs(key@);
            }
        }
        None
    }

    /// True if the key is present.
    pub fn contains_key(&self, key: &str) -> (r: bool)
        requires
            self.wf(),
        ensures
            r == self@.contains_key(key@),
    {
        self.get(key).is_some()
    }

    /// Inserts a pair, replacing the value under an existing key.
    /// Returns the replaced value, if any.
    pub fn insert(&mut self, key: String, value: V) -> (r: Option<V>)
        requires
            old(self).wf(),
        ensures
            final(self).wf(),
            final(self)@ == old(self)@.insert(key@, value),
            match r {
                Some(v) => old(self)@.contains_key(key@) && v == old(self)@[key@],
                None => !old(self)@.contains_key(key@),
            },
            final(self).spec_pairs().len() == if old(self)@.contains_key(key@) {
                old(self).spec_pairs().len() as int
            } else {
                old(self).spec_pairs().len() + 1 as int
            },
    {
        let n = self.pairs.len();
        let mut i: usize = 0;
        while i < n
            invariant
                self.wf(),
                self == old(self),
                n == self.spec_pairs().len(),
                0 <= i <= n,
                forall|j: int| 0 <= j < i ==> self.spec_pairs()[j].0@ != key@,
            decreases n - i,
        {
            if str_eq(self.pairs[i].0.as_str(), key.as_str()) {
                proof {
                    self.lemma_pair_in_view(i as int);
                }
                let mut pair = (key, value);
                core::mem::swap(&mut pair, &mut self.pairs[i]);
                proof {
                    lemma_set_pair_view(old(self).spec_pairs(), self.spec_pairs(), i as int);
                }
                return Some(pair.1);
            }
            i = i + 1;
        }
        proof {
            if self@.contains_key(key@) {
                self.lemma_view_in_pairs(key@);
            }
        }
        self.pairs.push((key, value));
        proof {
            assert(self.spec_pairs().drop_last() =~= old(self).spec_pairs());
        }
        None
    }

    /// Removes a key, returning its value if it was present.
    pub fn remove(&mut self, key: &str) -> (r: Option<V>)
        requires
            old(self).wf(),
        ensures
            final(self).wf(),
            final(self)@ == old(self)@.remove(key@),
            match r {
                Some(v) => old(self)@.contains_key(key@) && v == old(self)@[key@],
                None => !old(self)@.contains_key(key@),
            },
    {
        let n = self.pairs.len();
        let mut i: usize = 0;
        while i < n
            invariant
                self.wf(),
                self == old(self),
                n == self.spec_pairs().len(),
                0 <= i <= n,
                forall|j: int| 0 <= j < i ==> self.spec_pairs()[j].0@ != key@,
            decreases n - i,
        {
            if str_eq(self.pairs[i].0.as_str(), key) {
                proof {
                    self.lemma_pair_in_view(i as int);
                }
                let pair = self.pairs.remove(i);
                proof {
                    lemma_remove_pair_view(old(self).spec_pairs(), self.spec_pairs(), i as int);
                }
                return Some(pair.1);
            }
            i = i + 1;
        }
        proof {
            if self@.contains_key(key@) {
                self.lemma_view_in_pairs(key@);
            }
            assert(self@.remove(key@) =~= self@);
        }
        None
    }

    /// All keys, in pair order.
    pub fn keys(&self) -> (r: Vec<String>)
        requires
            self.wf(),
        ensures
            r@.len() == self.spec_pairs().len(),
            forall|i: int| 0 <= i < r@.len() ==> r@[i]@ == self.spec_pairs()[i].0@,
            forall|i: int| 0 <= i < r@.len() ==> self@.contains_key(#[trigger] r@[i]@),
    {
        let n = self.pairs.len();
        let mut out: Vec<String> = Vec::new();
        let mut i: usize = 0;
        while i < n
            invariant
                self.wf(),
                n == self.spec_pairs().len(),
                0 <= i <= n,
                out@.len() == i,
                forall|j: int| 0 <= j < i ==> out@[j]@ == self.spec_pairs()[j].0@,
            decreases n - i,
        {
            out.push(self.pairs[i].0.clone());
            i = i + 1;
        }
        proof {
            assert forall|i: int| 0 <= i < out@.len() implies self@.contains_key(
                #[trigger] out@[i]@,
            ) by {
                self.lemma_pair_in_view(i);
            }
        }
        out
    }

    /// The view is the map denoted by the pair sequence.
    pub proof fn lemma_view_is_pairs(&self)
        ensures
            self@ == pairs_to_map(self.spec_pairs()),
    {
    }

    /// Consumes the map, handing out its pairs in order.
    pub fn into_pairs(self) -> (r: Vec<(String, V)>)
        ensures
            r@ == self.spec_pairs(),
    {
        self.pairs
    }

    /// The number of pairs, for index-based iteration.
    pub fn pair_count(&self) -> (r: usize)
        ensures
            r == self.spec_pairs().len(),
    {
        self.pairs.len()
    }

    /// The pair at an index, for index-based iteration.
    pub fn pair_at(&self, i: usize) -> (r: &(String, V))
        requires
            i < self.spec_pairs().len(),
        ensures
            *r == self.spec_pairs()[i as int],
    {
        &self.pairs[i]
    }
}

proof fn lemma_update_preserves_map<V>(s1: Seq<(String, V)>, s2: Seq<(String, V)>)
    requires
        s1.len() == s2.len(),
        forall|j: int| 0 <= j < s1.len() ==> s1[j] == s2[j],
    ensures
        pairs_to_map(s1) == pairs_to_map(s2),
{
    assert(s1 =~= s2);
}

/// Replacing the pair at `i` with one of the same key updates the view at
/// that key alone.
proof fn lemma_set_pair_view<V>(s1: Seq<(String, V)>, s2: Seq<(String, V)>, i: int)
    requires
        distinct_keys(s1),
        0 <= i < s1.len(),
        s2.len() == s1.len(),
        s2[i].0@ == s1[i].0@,
        forall|j: int| 0 <= j < s1.len() && j != i ==> s2[j] == s1[j],
    ensures
        distinct_keys(s2),
        pairs_to_map(s2) == pairs_to_map(s1).insert(s1[i].0@, s2[i].1),
    decreases s1.len(),
{
    assert forall|a: int, b: int| 0 <= a < b < s2.len() implies s2[a].0@ != s2[b].0@ by {
        assert(s1[a].0@ != s1[b].0@);
        assert(s2[a].0@ == s1[a].0@ && s2[b].0@ == s1[b].0@);
    }
    if i == s1.len() - 1 {
        lemma_update_preserves_map(s1.drop_last(), s2.drop_last());
        assert(pairs_to_map(s2) =~= pairs_to_map(s1).insert(s1[i].0@, s2[i].1));
    } else {
        lemma_set_pair_view(s1.drop_last(), s2.drop_last(), i);
        assert(s2.last() == s1.last());
        assert(pairs_to_map(s2) == pairs_to_map(s2.drop_last()).insert(s1.last().0@, s1.last().1));
        assert(s1.last().0@ != s1[i].0@);
        assert(pairs_to_map(s2) =~= pairs_to_map(s1).insert(s1[i].0@, s2[i].1));
    }
}

/// Removing the pair at `i` removes its key from the view.
proof fn lemma_remove_pair_view<V>(s1: Seq<(String, V)>, s2: Seq<(String, V)>, i: int)
    requires
        distinct_keys(s1),
        0 <= i < s1.len(),
        s2 == s1.remove(i),
    ensures
        distinct_keys(s2),
        pairs_to_map(s2) == pairs_to_map(s1).remove(s1[i].0@),
    decreases s1.len(),
{
    assert forall|a: int, b: int| 0 <= a < b < s2.len() implies s2[a].0@ != s2[b].0@ by {
        let a1: int = if a < i {
            a
        } else {
            a + 1
        };
        let b1: int = if b < i {
            b
        } else {
            b + 1
        };
        assert(s2[a] == s1[a1] && s2[b] == s1[b1]);
        assert(s1[a1].0@ != s1[b1].0@);
    }
    if i == s1.len() - 1 {
        assert(s2 =~= s1.drop_last());
        lemma_pairs_to_map_contains(s1.drop_last(), s1[i].0@);
        assert(!pairs_to_map(s1.drop_last()).contains_key(s1[i].0@));
        assert(pairs_to_map(s2) =~= pairs_to_map(s1).remove(s1[i].0@));
    } else {
        assert(s2.drop_last() =~= s1.drop_last().remove(i));
        lemma_remove_pair_view(s1.drop_last(), s2.drop_last(), i);
        assert(s2.last() == s1.last());
        assert(s1.last().0@ != s1[i].0@);
        assert(pairs_to_map(s2) =~= pairs_to_map(s1).remove(s1[i].0@));
    }
}

impl<V> View for KeyMap<V> {
    type V = Map<Seq<char>, V>;

    closed spec fn view(&self) -> Map<Seq<char>, V> {
        pairs_to_map(self.pairs@)
    }
}

} // verus!
