//! A small map keyed by strings, where a later insertion of a key replaces the
//! value of an earlier one.
use vstd::prelude::*;

use crate::text::str_eq;

verus! {

/// A map from strings to values, kept as a list of entries with distinct keys,
/// in the order in which the keys were first inserted.
#[derive(Debug)]
pub struct StrMap<V> {
    entries: Vec<(String, V)>,
}

/// The value of the latest entry of `s` whose key reads `k`.
pub open spec fn lookup_in<V>(s: Seq<(String, V)>, k: Seq<char>) -> Option<V>
    decreases s.len(),
{
    if s.len() == 0 {
        None
    } else if s.last().0@ == k {
        Some(s.last().1)
    } else {
        lookup_in(s.drop_last(), k)
    }
}

/// No two entries of `s` have keys that read the same.
pub open spec fn keys_unique<V>(s: Seq<(String, V)>) -> bool {
    forall|a: int, b: int|
        0 <= a < s.len() && 0 <= b < s.len() && a != b ==> #[trigger] s[a].0@ != #[trigger] s[b].0@
}

pub proof fn lemma_lookup_absent<V>(s: Seq<(String, V)>, k: Seq<char>)
    requires
        forall|a: int| 0 <= a < s.len() ==> #[trigger] s[a].0@ != k,
    ensures
        lookup_in(s, k) is None,
    decreases s.len(),
{
    if s.len() > 0 {
        assert(s.last().0@ != k);
        lemma_lookup_absent(s.drop_last(), k);
    }
}

pub proof fn lemma_lookup_present<V>(s: Seq<(String, V)>, i: int)
    requires
        keys_unique(s),
        0 <= i < s.len(),
    ensures
        lookup_in(s, s[i].0@) == Some(s[i].1),
    decreases s.len(),
{
    if i < s.len() - 1 {
        assert(s.last().0@ != s[i].0@);
        assert(s.drop_last()[i] == s[i]);
        lemma_lookup_present(s.drop_last(), i);
    }
}

pub proof fn lemma_lookup_update<V>(s: Seq<(String, V)>, i: int, k: String, v: V, j: Seq<char>)
    requires
        keys_unique(s),
        0 <= i < s.len(),
        s[i].0@ == k@,
    ensures
        lookup_in(s.update(i, (k, v)), j) == if j == k@ {
            Some(v)
        } else {
            lookup_in(s, j)
        },
    decreases s.len(),
{
    let t = s.update(i, (k, v));
    if i == s.len() - 1 {
        assert(t.drop_last() =~= s.drop_last());
    } else {
        assert(t.drop_last() =~= s.drop_last().update(i, (k, v)));
        assert(s.last().0@ != s[i].0@);
        lemma_lookup_update(s.drop_last(), i, k, v, j);
    }
}

impl<V> StrMap<V> {
    /// Keys are unique among the entries.
    #[verifier::type_invariant]
    closed spec fn wf(&self) -> bool {
        keys_unique(self.entries@)
    }

    /// The entries, one per key, in the order their keys were first inserted.
    pub closed spec fn entries_seq(&self) -> Seq<(String, V)> {
        self.entries@
    }

    /// The value that `k` maps to.
    pub open spec fn lookup(&self, k: Seq<char>) -> Option<V> {
        lookup_in(self.entries_seq(), k)
    }

    /// Whether `k` has a value.
    pub open spec fn has(&self, k: Seq<char>) -> bool {
        self.lookup(k) is Some
    }

    /// An empty map.
    pub fn new() -> (m: Self)
        ensures
            forall|k: Seq<char>| #[trigger] m.lookup(k) is None,
            m.entries_seq().len() == 0,
    {
        StrMap { entries: Vec::new() }
    }

    /// Maps `k` to `v`, replacing any earlier value of `k`.
    pub fn insert(&mut self, k: String, v: V)
        ensures
            final(self).lookup(k@) == Some(v),
            forall|j: Seq<char>| j != k@ ==> #[trigger] final(self).lookup(j) == old(self).lookup(
                j,
            ),
            old(self).has(k@) ==> final(self).entries_seq().len() == old(self).entries_seq().len(),
            !old(self).has(k@) ==> final(self).entries_seq() == old(self).entries_seq().push(
                (k, v),
            ),
    {
        proof {
            use_type_invariant(&*self);
        }
        let mut i: usize = 0;
        while i < self.entries.len()
            invariant
                i <= self.entries@.len(),
                self.entries@ == old(self).entries@,
                keys_unique(self.entries@),
                forall|a: int| 0 <= a < i ==> #[trigger] self.entries@[a].0@ != k@,
            decreases self.entries.len() - i,
        {
            if str_eq(self.entries[i].0.as_str(), k.as_str()) {
                let ghost s = self.entries@;
                proof {
                    assert forall|j: Seq<char>| true implies lookup_in(s.update(i as int, (k, v)), j)
                        == (if j == k@ {
                        Some(v)
                    } else {
                        lookup_in(s, j)
                    }) by {
                        lemma_lookup_update(s, i as int, k, v, j);
                    }
                    lemma_lookup_present(s, i as int);
                    assert(keys_unique(s.update(i as int, (k, v))));
                }
                let mut entries = Vec::new();
                std::mem::swap(&mut entries, &mut self.entries);
                entries.set(i, (k, v));
                self.entries = entries;
                return;
            }
            i = i + 1;
        }
        proof {
            let s = self.entries@;
            lemma_lookup_absent(s, k@);
            assert(s.push((k, v)).drop_last() =~= s);
            assert(keys_unique(s.push((k, v))));
        }
        let mut entries = Vec::new();
        std::mem::swap(&mut entries, &mut self.entries);
        entries.push((k, v));
        self.entries = entries;
    }

    /// Replaces the value of `k` by `v` and gives the value it had; when `k` has no
    /// value, nothing changes. The keys stay as they are, in their order.
    pub fn replace(&mut self, k: &str, v: V) -> (r: Option<V>)
        ensures
            r == old(self).lookup(k@),
            r is None ==> *final(self) == *old(self),
            r is Some ==> final(self).lookup(k@) == Some(v),
            forall|j: Seq<char>| j != k@ ==> #[trigger] final(self).lookup(j) == old(self).lookup(
                j,
            ),
            final(self).entries_seq().len() == old(self).entries_seq().len(),
            forall|i: int|
                0 <= i < old(self).entries_seq().len() ==> #[trigger] final(self).entries_seq()[i].0
                    == old(self).entries_seq()[i].0,
    {
        proof {
            use_type_invariant(&*self);
        }
        let mut i: usize = 0;
        while i < self.entries.len()
            invariant
                i <= self.entries@.len(),
                *self == *old(self),
                self.entries@ == old(self).entries@,
                keys_unique(self.entries@),
                forall|a: int| 0 <= a < i ==> #[trigger] self.entries@[a].0@ != k@,
            decreases self.entries.len() - i,
        {
            if str_eq(self.entries[i].0.as_str(), k) {
                let ghost s = self.entries@;
                let mut entries = Vec::new();
                std::mem::swap(&mut entries, &mut self.entries);
                let (key, previous) = entries.remove(i);
                entries.insert(i, (key, v));
                proof {
                    assert(entries@ =~= s.update(i as int, (key, v)));
                    lemma_lookup_present(s, i as int);
                    assert forall|j: Seq<char>| true implies lookup_in(s.update(i as int, (key, v)), j)
                        == (if j == k@ {
                        Some(v)
                    } else {
                        lookup_in(s, j)
                    }) by {
                        lemma_lookup_update(s, i as int, key, v, j);
                    }
                    assert(keys_unique(s.update(i as int, (key, v))));
                }
                self.entries = entries;
                return Some(previous);
            }
            i = i + 1;
        }
        proof {
            lemma_lookup_absent(self.entries@, k@);
        }
        None
    }

    /// The value that `k` maps to.
    pub fn get(&self, k: &str) -> (r: Option<&V>)
        ensures
            r matches Some(x) ==> self.lookup(k@) == Some(*x),
            r is None <==> self.lookup(k@) is None,
    {
        let mut i = self.entries.len();
        assert(self.entries@.take(i as int) =~= self.entries@);
        while i > 0
            invariant
                i <= self.entries@.len(),
                lookup_in(self.entries@, k@) == lookup_in(self.entries@.take(i as int), k@),
            decreases i,
        {
            let ghost t = self.entries@.take(i as int);
            assert(t.drop_last() =~= self.entries@.take(i - 1));
            if str_eq(self.entries[i - 1].0.as_str(), k) {
                return Some(&self.entries[i - 1].1);
            }
            i = i - 1;
        }
        None
    }

    /// Whether `k` has a value.
    pub fn contains_key(&self, k: &str) -> (r: bool)
        ensures
            r == self.has(k@),
    {
        self.get(k).is_some()
    }

    /// Whether the map has no keys.
    pub fn is_empty(&self) -> (r: bool)
        ensures
            r == (self.entries_seq().len() == 0),
    {
        self.entries.len() == 0
    }

    /// The number of keys.
    pub fn num_entries(&self) -> (n: usize)
        ensures
            n == self.entries_seq().len(),
    {
        self.entries.len()
    }

    /// The `i`-th entry.
    pub fn entry(&self, i: usize) -> (r: (&String, &V))
        requires
            i < self.entries_seq().len(),
        ensures
            *r.0 == self.entries_seq()[i as int].0,
            *r.1 == self.entries_seq()[i as int].1,
            self.lookup(r.0@) == Some(*r.1),
    {
        proof {
            use_type_invariant(self);
            lemma_lookup_present(self.entries@, i as int);
        }
        (&self.entries[i].0, &self.entries[i].1)
    }

    /// The entries, in order, giving up the map.
    pub fn into_entries(self) -> (r: Vec<(String, V)>)
        ensures
            r@ == self.entries_seq(),
            keys_unique(r@),
    {
        proof {
            use_type_invariant(&self);
        }
        self.entries
    }
}

impl StrMap<String> {
    /// The map of key views to value views.
    pub open spec fn string_view(&self) -> Map<Seq<char>, Seq<char>> {
        Map::new(|k: Seq<char>| self.has(k), |k: Seq<char>| self.lookup(k)->0@)
    }
}

} // verus!
