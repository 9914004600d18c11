//! A map from strings to values, kept as an association list in insertion
//! order. Keys are unique; inserting an existing key replaces its value in
//! place, inserting a new key appends it.

use vstd::prelude::*;
use crate::text::str_eq;
use vstd::std_specs::cmp::{PartialEqSpec, PartialEqSpecImpl};

verus! {

/// An association list of `(key, value)` pairs viewed as key characters.
pub open spec fn has_key<V>(s: Seq<(Seq<char>, V)>, k: Seq<char>) -> bool {
    exists|i: int| 0 <= i < s.len() && #[trigger] s[i].0 == k
}

/// The position of `k` in the list (meaningful when `has_key`).
pub open spec fn key_pos<V>(s: Seq<(Seq<char>, V)>, k: Seq<char>) -> int {
    choose|i: int| 0 <= i < s.len() && #[trigger] s[i].0 == k
}

/// No key occurs twice.
pub open spec fn unique_keys<V>(s: Seq<(Seq<char>, V)>) -> bool {
    forall|i: int, j: int| 0 <= i < s.len() && 0 <= j < s.len() && i != j ==> #[trigger] s[i].0 != #[trigger] s[j].0
}

/// The value stored under `k`, if any.
pub open spec fn lookup<V>(s: Seq<(Seq<char>, V)>, k: Seq<char>) -> Option<V> {
    if has_key(s, k) {
        Some(s[key_pos(s, k)].1)
    } else {
        None
    }
}

/// The list after storing `v` under `k`: replaced in place when present,
/// appended otherwise.
pub open spec fn seq_insert<V>(s: Seq<(Seq<char>, V)>, k: Seq<char>, v: V) -> Seq<(Seq<char>, V)> {
    if has_key(s, k) {
        s.update(key_pos(s, k), (k, v))
    } else {
        s.push((k, v))
    }
}

/// The list after dropping the entry of `k`, if any.
pub open spec fn seq_remove<V>(s: Seq<(Seq<char>, V)>, k: Seq<char>) -> Seq<(Seq<char>, V)> {
    if has_key(s, k) {
        s.remove(key_pos(s, k))
    } else {
        s
    }
}

/// With unique keys, an index that holds `k` is the position of `k`.
pub proof fn lemma_key_pos_unique<V>(s: Seq<(Seq<char>, V)>, k: Seq<char>, i: int)
    requires
        unique_keys(s),
        0 <= i < s.len(),
        s[i].0 == k,
    ensures
        has_key(s, k),
        key_pos(s, k) == i,
        lookup(s, k) == Some(s[i].1),
{
}

/// Storing a value keeps keys unique; afterwards `k` holds `v` and every
/// other key holds what it held before.
pub proof fn lemma_insert<V>(s: Seq<(Seq<char>, V)>, k: Seq<char>, v: V)
    requires
        unique_keys(s),
    ensures
        unique_keys(seq_insert(s, k, v)),
        lookup(seq_insert(s, k, v), k) == Some(v),
        forall|k2: Seq<char>| k2 != k ==> lookup(seq_insert(s, k, v), k2) == lookup(s, k2),
{
    let t = seq_insert(s, k, v);
    if has_key(s, k) {
        let p = key_pos(s, k);
        assert(unique_keys(t));
        lemma_key_pos_unique(t, k, p);
        assert forall|k2: Seq<char>| k2 != k implies lookup(t, k2) == lookup(s, k2) by {
            if has_key(s, k2) {
                let q = key_pos(s, k2);
                assert(t[q].0 == k2);
                lemma_key_pos_unique(t, k2, q);
            } else {
                if has_key(t, k2) {
                    let q = key_pos(t, k2);
                    assert(s[q].0 == k2);
                }
            }
        }
    } else {
        assert(unique_keys(t));
        lemma_key_pos_unique(t, k, s.len() as int);
        assert forall|k2: Seq<char>| k2 != k implies lookup(t, k2) == lookup(s, k2) by {
            if has_key(s, k2) {
                let q = key_pos(s, k2);
                assert(t[q].0 == k2);
                lemma_key_pos_unique(t, k2, q);
            } else {
                if has_key(t, k2) {
                    let q = key_pos(t, k2);
                    assert(s[q].0 == k2);
                }
            }
        }
    }
}

/// Dropping a key keeps keys unique; afterwards `k` holds nothing and
/// every other key holds what it held before.
pub proof fn lemma_remove<V>(s: Seq<(Seq<char>, V)>, k: Seq<char>)
    requires
        unique_keys(s),
    ensures
        unique_keys(seq_remove(s, k)),
        lookup(seq_remove(s, k), k) is None,
        forall|k2: Seq<char>| k2 != k ==> lookup(seq_remove(s, k), k2) == lookup(s, k2),
{
    let t = seq_remove(s, k);
    if has_key(s, k) {
        let p = key_pos(s, k);
        assert forall|i: int, j: int| 0 <= i < t.len() && 0 <= j < t.len() && i != j implies #[trigger] t[i].0 != #[trigger] t[j].0 by {
            let i2 = if i < p { i } else { i + 1 };
            let j2 = if j < p { j } else { j + 1 };
            assert(t[i] == s[i2]);
            assert(t[j] == s[j2]);
        }
        if has_key(t, k) {
            let q = key_pos(t, k);
            let q2 = if q < p { q } else { q + 1 };
            assert(t[q] == s[q2]);
        }
        assert forall|k2: Seq<char>| k2 != k implies lookup(t, k2) == lookup(s, k2) by {
            if has_key(s, k2) {
                let q = key_pos(s, k2);
                let q2 = if q < p { q } else { q - 1 };
                assert(t[q2] == s[q]);
                lemma_key_pos_unique(t, k2, q2);
            } else {
                if has_key(t, k2) {
                    let q = key_pos(t, k2);
                    let q2 = if q < p { q } else { q + 1 };
                    assert(t[q] == s[q2]);
                }
            }
        }
    }
}

/// `a` after storing every entry of `b` in order: later entries override
/// earlier ones.
pub open spec fn seq_override<V>(a: Seq<(Seq<char>, V)>, b: Seq<(Seq<char>, V)>) -> Seq<(Seq<char>, V)>
    decreases b.len(),
{
    if b.len() == 0 {
        a
    } else {
        seq_insert(seq_override(a, b.drop_last()), b.last().0, b.last().1)
    }
}

/// After overriding `a` with `b`, a key holds its value in `b` when `b`
/// has it, and its value in `a` otherwise; keys stay unique.
pub proof fn lemma_override<V>(a: Seq<(Seq<char>, V)>, b: Seq<(Seq<char>, V)>, k: Seq<char>)
    requires
        unique_keys(a),
        unique_keys(b),
    ensures
        unique_keys(seq_override(a, b)),
        lookup(seq_override(a, b), k) == match lookup(b, k) {
            Some(v) => Some(v),
            None => lookup(a, k),
        },
    decreases b.len(),
{
    if b.len() > 0 {
        let c = b.drop_last();
        assert(unique_keys(c)) by {
            assert forall|i: int, j: int| 0 <= i < c.len() && 0 <= j < c.len() && i != j implies #[trigger] c[i].0 != #[trigger] c[j].0 by {
                assert(c[i] == b[i] && c[j] == b[j]);
            }
        }
        lemma_override(a, c, k);
        let r = seq_override(a, c);
        lemma_insert(r, b.last().0, b.last().1);
        let last = b.len() - 1;
        if k == b.last().0 {
            lemma_key_pos_unique(b, k, last);
        } else {
            if has_key(b, k) {
                let p = key_pos(b, k);
                assert(p != last);
                assert(c[p].0 == k);
                lemma_key_pos_unique(c, k, p);
                lemma_key_pos_unique(b, k, p);
            } else {
                if has_key(c, k) {
                    let p = key_pos(c, k);
                    assert(b[p].0 == k);
                }
            }
        }
    }
}

/// The entries of a vector of pairs, each key and value taken by its view.
pub open spec fn pairs_of<V: View>(e: Seq<(String, V)>) -> Seq<(Seq<char>, V::V)> {
    Seq::new(e.len(), |i: int| (e[i].0@, e[i].1@))
}

/// A string-keyed map kept as an association list in insertion order.
#[derive(Debug)]
pub struct StrMap<V: View> {
    entries: Vec<(String, V)>,
}

impl<V: View> View for StrMap<V> {
    type V = Seq<(Seq<char>, V::V)>;

    /// The entries in order, each key and value taken by its view.
    closed spec fn view(&self) -> Seq<(Seq<char>, V::V)> {
        pairs_of(self.entries@)
    }
}

/// Each of the first `n` entries of `a` has an entry of the same key and
/// an equal value in `b`.
pub open spec fn entries_match<V: View + PartialEqSpec>(a: Seq<(String, V)>, b: Seq<(String, V)>, n: int) -> bool {
    forall|i: int|
        0 <= i < n ==> exists|j: int| 0 <= j < b.len() && b[j].0@ == (#[trigger] a[i]).0@ && a[i].1.eq_spec(&b[j].1)
}

/// Whether two maps hold the same keys with equal values, whatever the
/// order of their entries.
pub open spec fn same_entries<V: View + PartialEqSpec>(a: Seq<(String, V)>, b: Seq<(String, V)>) -> bool {
    a.len() == b.len() && entries_match(a, b, a.len() as int)
}

impl<V: View + PartialEq> PartialEq for StrMap<V> {
    /// Two maps are equal when they hold the same keys with equal values,
    /// in any order.
    fn eq(&self, other: &Self) -> (r: bool) {
        proof {
            use_type_invariant(self);
            use_type_invariant(other);
        }
        if self.entries.len() != other.entries.len() {
            return false;
        }
        let mut i: usize = 0;
        while i < self.entries.len()
            invariant
                i <= self.entries@.len(),
                self.entries@.len() == other.entries@.len(),
                unique_keys(pairs_of(other.entries@)),
                V::obeys_eq_spec() ==> entries_match(self.entries@, other.entries@, i as int),
            decreases self.entries@.len() - i,
        {
            match other.find(self.entries[i].0.as_str()) {
                Some(j) => {
                    let same = self.entries[i].1 == other.entries[j].1;
                    if !same {
                        proof {
                            if V::obeys_eq_spec() {
                                assert forall|j2: int|
                                    0 <= j2 < other.entries@.len() && other.entries@[j2].0@
                                        == self.entries@[i as int].0@ implies !self.entries@[i as int].1.eq_spec(
                                    &other.entries@[j2].1,
                                ) by {
                                    assert(pairs_of(other.entries@)[j2].0 == pairs_of(other.entries@)[j as int].0);
                                }
                            }
                        }
                        return false;
                    }
                    proof {
                        if V::obeys_eq_spec() {
                            assert(pairs_of(other.entries@)[j as int].0 == other.entries@[j as int].0@);
                            assert(other.entries@[j as int].0@ == self.entries@[i as int].0@);
                            assert(self.entries@[i as int].1.eq_spec(&other.entries@[j as int].1));
                            assert(entries_match(self.entries@, other.entries@, i + 1));
                        }
                    }
                },
                None => {
                    proof {
                        assert forall|j2: int|
                            0 <= j2 < other.entries@.len() implies other.entries@[j2].0@ != self.entries@[i as int].0@ by {
                            assert(pairs_of(other.entries@)[j2].0 == other.entries@[j2].0@);
                        }
                    }
                    return false;
                },
            }
            i = i + 1;
        }
        assert(V::obeys_eq_spec() ==> same_entries(self.entries@, other.entries@));
        true
    }
}

impl<V: View + PartialEq> PartialEqSpecImpl for StrMap<V> {
    open spec fn obeys_eq_spec() -> bool {
        V::obeys_eq_spec()
    }

    closed spec fn eq_spec(&self, other: &StrMap<V>) -> bool {
        same_entries(self.entries@, other.entries@)
    }
}

impl<V: View + Clone> Clone for StrMap<V> {
    /// The same keys in the same order, each with a clone of its value.
    fn clone(&self) -> (r: Self)
        ensures
            r@.len() == self@.len(),
            forall|i: int| 0 <= i < self@.len() ==> #[trigger] r@[i].0 == self@[i].0,
    {
        proof {
            use_type_invariant(self);
        }
        let mut entries: Vec<(String, V)> = Vec::new();
        let mut i: usize = 0;
        while i < self.entries.len()
            invariant
                i <= self.entries@.len(),
                entries@.len() == i,
                unique_keys(pairs_of(self.entries@)),
                forall|j: int| 0 <= j < i ==> #[trigger] entries@[j].0@ == self.entries@[j].0@,
            decreases self.entries@.len() - i,
        {
            let k = self.entries[i].0.clone();
            let v = self.entries[i].1.clone();
            entries.push((k, v));
            i = i + 1;
        }
        assert(unique_keys(pairs_of(entries@))) by {
            assert forall|a: int, b: int|
                0 <= a < pairs_of(entries@).len() && 0 <= b < pairs_of(entries@).len() && a != b implies
                #[trigger] pairs_of(entries@)[a].0 != #[trigger] pairs_of(entries@)[b].0 by {
                assert(pairs_of(entries@)[a].0 == pairs_of(self.entries@)[a].0);
                assert(pairs_of(entries@)[b].0 == pairs_of(self.entries@)[b].0);
            }
        }
        StrMap { entries }
    }
}

impl<V: View> StrMap<V> {
    #[verifier::type_invariant]
    closed spec fn inv(self) -> bool {
        unique_keys(pairs_of(self.entries@))
    }

    /// The entries of every map have unique keys.
    pub fn keys_are_unique(&self)
        ensures
            unique_keys(self@),
    {
        proof {
            use_type_invariant(self);
        }
    }

    /// An empty map.
    pub fn new() -> (r: Self)
        ensures
            r@ == Seq::<(Seq<char>, V::V)>::empty(),
    {
        let v: Vec<(String, V)> = Vec::new();
        assert(pairs_of(v@) =~= Seq::<(Seq<char>, V::V)>::empty());
        StrMap { entries: v }
    }

    /// The number of entries.
    pub fn len(&self) -> (r: usize)
        ensures
            r == self@.len(),
    {
        self.entries.len()
    }

    /// Whether the map has no entries.
    pub fn is_empty(&self) -> (r: bool)
        ensures
            r == (self@.len() == 0),
    {
        self.entries.len() == 0
    }

    /// The key of the `i`-th entry.
    pub fn key_at(&self, i: usize) -> (r: &String)
        requires
            i < self@.len(),
        ensures
            r@ == self@[i as int].0,
    {
        &self.entries[i].0
    }

    /// The value of the `i`-th entry.
    pub fn value_at(&self, i: usize) -> (r: &V)
        requires
            i < self@.len(),
        ensures
            r@ == self@[i as int].1,
    {
        &self.entries[i].1
    }

    /// The position of `key`, if it is a key.
    pub fn find(&self, key: &str) -> (r: Option<usize>)
        ensures
            unique_keys(self@),
            match r {
                Some(i) => i < self@.len() && self@[i as int].0 == key@
                    && key_pos(self@, key@) == i,
                None => !has_key(self@, key@),
            },
    {
        proof {
            use_type_invariant(self);
        }
        let mut i: usize = 0;
        while i < self.entries.len()
            invariant
                i <= self.entries.len(),
                unique_keys(self@),
                forall|j: int| 0 <= j < i ==> #[trigger] self@[j].0 != key@,
            decreases self.entries.len() - i,
        {
            if str_eq(self.entries[i].0.as_str(), key) {
                proof {
                    lemma_key_pos_unique(self@, key@, i as int);
                }
                return Some(i);
            }
            i = i + 1;
        }
        None
    }

    /// The value stored under `key`, if any.
    pub fn get(&self, key: &str) -> (r: Option<&V>)
        ensures
            unique_keys(self@),
            match r {
                Some(v) => lookup(self@, key@) == Some(v@),
                None => lookup(self@, key@) is None,
            },
    {
        match self.find(key) {
            Some(i) => Some(&self.entries[i].1),
            None => None,
        }
    }

    /// Whether `key` is a key.
    pub fn contains_key(&self, key: &str) -> (r: bool)
        ensures
            unique_keys(self@),
            r == has_key(self@, key@),
    {
        self.find(key).is_some()
    }

    /// Stores `value` under `key`, replacing any earlier value.
    pub fn insert(&mut self, key: String, value: V)
        ensures
            final(self)@ == seq_insert(old(self)@, key@, value@),
            unique_keys(final(self)@),
            lookup(final(self)@, key@) == Some(value@),
            forall|k2: Seq<char>| k2 != key@ ==> #[trigger] lookup(final(self)@, k2)
                == lookup(old(self)@, k2),
    {
        proof {
            use_type_invariant(&*self);
            lemma_insert(self@, key@, value@);
        }
        let ghost k = key@;
        let ghost vv = value@;
        match self.find(key.as_str()) {
            Some(i) => {
                let ghost before = self@;
                let mut e: Vec<(String, V)> = Vec::new();
                std::mem::swap(&mut e, &mut self.entries);
                e.set(i, (key, value));
                assert(pairs_of(e@) =~= seq_insert(before, k, vv));
                self.entries = e;
            }
            None => {
                let ghost before = self@;
                let mut e: Vec<(String, V)> = Vec::new();
                std::mem::swap(&mut e, &mut self.entries);
                e.push((key, value));
                assert(pairs_of(e@) =~= seq_insert(before, k, vv));
                self.entries = e;
            }
        }
    }

    /// Drops the entry of `key`, returning its value, if any.
    pub fn remove(&mut self, key: &str) -> (r: Option<V>)
        ensures
            final(self)@ == seq_remove(old(self)@, key@),
            unique_keys(final(self)@),
            match r {
                Some(v) => lookup(old(self)@, key@) == Some(v@),
                None => lookup(old(self)@, key@) is None,
            },
            lookup(final(self)@, key@) is None,
            forall|k2: Seq<char>| k2 != key@ ==> #[trigger] lookup(final(self)@, k2)
                == lookup(old(self)@, k2),
    {
        proof {
            use_type_invariant(&*self);
            lemma_remove(self@, key@);
        }
        match self.find(key) {
            Some(i) => {
                let ghost before = self@;
                let mut e: Vec<(String, V)> = Vec::new();
                std::mem::swap(&mut e, &mut self.entries);
                let (_, v) = e.remove(i);
                assert(pairs_of(e@) =~= seq_remove(before, key@));
                self.entries = e;
                Some(v)
            }
            None => None,
        }
    }

    /// Stores every entry of `other` in order, later entries overriding
    /// earlier ones.
    pub fn override_with(&mut self, other: StrMap<V>)
        ensures
            final(self)@ == seq_override(old(self)@, other@),
    {
        let ghost o = other@;
        let mut entries = other.into_entries();
        let ghost mut i: int = 0;
        let ghost start = self@;
        let ghost all = pairs_of(entries@);
        while entries.len() > 0
            invariant
                pairs_of(entries@) == all.subrange(i, all.len() as int),
                0 <= i <= all.len(),
                entries@.len() == all.len() - i,
                all == o,
                self@ == seq_override(start, all.subrange(0, i)),
            decreases entries.len(),
        {
            let ghost before = entries@;
            let (k, v) = entries.remove(0);
            assert(pairs_of(before)[0] == all.subrange(i, all.len() as int)[0]);
            assert(all[i] == (k@, v@));
            self.insert(k, v);
            proof { i = i + 1; }
            assert(all.subrange(0, i).drop_last() =~= all.subrange(0, i - 1));
            assert(pairs_of(entries@) =~= all.subrange(i, all.len() as int)) by {
                assert(pairs_of(entries@) =~= pairs_of(before).subrange(1, before.len() as int));
            }
        }
        assert(all.subrange(0, all.len() as int) =~= all);
    }

    /// All entries, consuming the map.
    pub fn into_entries(self) -> (r: Vec<(String, V)>)
        ensures
            pairs_of(r@) == self@,
            unique_keys(self@),
    {
        proof {
            use_type_invariant(&self);
        }
        self.entries
    }
}

} // verus!
