//! A map from strings to values, kept as a vector in ascending order of its
//! keys.

use vstd::prelude::*;
use crate::text::{compare, lemma_lex_lt_irreflexive, lemma_lex_lt_transitive, lex_lt, Ordem};

verus! {

/// The keys of `s` stand in strictly ascending order.
pub open spec fn ascending<V>(s: Seq<(Seq<char>, V)>) -> bool {
    forall|i: int, j: int| 0 <= i < j < s.len() ==> lex_lt(#[trigger] s[i].0, #[trigger] s[j].0)
}

/// Some entry of `s` has the key `k`.
pub open spec fn has_key<V>(s: Seq<(Seq<char>, V)>, k: Seq<char>) -> bool {
    exists|i: int| 0 <= i < s.len() && #[trigger] s[i].0 == k
}

/// The place of an entry of `s` with the key `k`.
pub open spec fn index_of<V>(s: Seq<(Seq<char>, V)>, k: Seq<char>) -> int {
    choose|i: int| 0 <= i < s.len() && #[trigger] s[i].0 == k
}

/// The map that holds the entries of `s`.
pub open spec fn as_map<V>(s: Seq<(Seq<char>, V)>) -> Map<Seq<char>, V> {
    Map::new(|k: Seq<char>| has_key(s, k), |k: Seq<char>| s[index_of(s, k)].1)
}

/// `s` lists the map `m`: every key of `m` once, with its value, in ascending
/// order of the keys.
pub open spec fn lists<V>(s: Seq<(Seq<char>, V)>, m: Map<Seq<char>, V>) -> bool {
    &&& ascending(s)
    &&& forall|i: int| 0 <= i < s.len() ==> m.contains_pair(#[trigger] s[i].0, s[i].1)
    &&& forall|k: Seq<char>| #[trigger] m.dom().contains(k) ==> has_key(s, k)
}

/// In an ascending sequence no key stands twice.
pub proof fn lemma_ascending_distinct<V>(s: Seq<(Seq<char>, V)>, i: int, j: int)
    requires
        ascending(s),
        0 <= i < s.len(),
        0 <= j < s.len(),
        s[i].0 == s[j].0,
    ensures
        i == j,
{
    lemma_lex_lt_irreflexive(s[i].0);
    if i < j {
        assert(lex_lt(s[i].0, s[j].0));
    } else if j < i {
        assert(lex_lt(s[j].0, s[i].0));
    }
}

/// An ascending sequence lists the map of its entries.
pub proof fn lemma_lists_as_map<V>(s: Seq<(Seq<char>, V)>)
    requires
        ascending(s),
    ensures
        lists(s, as_map(s)),
{
    assert forall|i: int| 0 <= i < s.len() implies as_map(s).contains_pair(
        #[trigger] s[i].0,
        s[i].1,
    ) by {
        assert(has_key(s, s[i].0));
        lemma_ascending_distinct(s, i, index_of(s, s[i].0));
    }
}

/// A map has one listing only.
pub proof fn lemma_lists_unique<V>(s: Seq<(Seq<char>, V)>, t: Seq<(Seq<char>, V)>, m: Map<Seq<char>, V>)
    requires
        lists(s, m),
        lists(t, m),
    ensures
        s == t,
    decreases s.len(),
{
    if s.len() == 0 {
        if t.len() > 0 {
            assert(m.contains_pair(t[0].0, t[0].1));
            assert(m.dom().contains(t[0].0));
            assert(has_key(s, t[0].0));
        }
        assert(s =~= t);
    } else {
        // The greatest key of the map stands last in both.
        let k = s.last().0;
        assert(m.contains_pair(s[s.len() - 1].0, s[s.len() - 1].1));
        assert(m.dom().contains(k));
        assert(has_key(t, k));
        let j = index_of(t, k);
        if j < t.len() - 1 {
            let k2 = t.last().0;
            assert(lex_lt(t[j].0, t[t.len() - 1].0));
            assert(m.contains_pair(t[t.len() - 1].0, t[t.len() - 1].1));
            assert(m.dom().contains(k2));
            assert(has_key(s, k2));
            let i = index_of(s, k2);
            lemma_lex_lt_irreflexive(k);
            if i < s.len() - 1 {
                assert(lex_lt(s[i].0, s[s.len() - 1].0));
                lemma_lex_lt_transitive(k, k2, k);
            }
        }
        assert(t.last().0 == k);
        assert(m.contains_pair(t[t.len() - 1].0, t[t.len() - 1].1));
        assert(t.last().1 == s.last().1);
        let m2 = m.remove(k);
        let s2 = s.drop_last();
        let t2 = t.drop_last();
        assert(lists(s2, m2)) by {
            assert forall|i: int| 0 <= i < s2.len() implies m2.contains_pair(
                #[trigger] s2[i].0,
                s2[i].1,
            ) by {
                assert(m.contains_pair(s[i].0, s[i].1));
                if s[i].0 == k {
                    lemma_ascending_distinct(s, i, s.len() - 1);
                }
            }
            assert forall|q: Seq<char>| #[trigger] m2.dom().contains(q) implies has_key(s2, q) by {
                assert(m.dom().contains(q));
                assert(has_key(s, q));
                let i = index_of(s, q);
                assert(s2[i].0 == q);
            }
        }
        assert(lists(t2, m2)) by {
            assert forall|i: int| 0 <= i < t2.len() implies m2.contains_pair(
                #[trigger] t2[i].0,
                t2[i].1,
            ) by {
                assert(m.contains_pair(t[i].0, t[i].1));
                if t[i].0 == k {
                    lemma_ascending_distinct(t, i, t.len() - 1);
                }
            }
            assert forall|q: Seq<char>| #[trigger] m2.dom().contains(q) implies has_key(t2, q) by {
                assert(m.dom().contains(q));
                assert(has_key(t, q));
                let i = index_of(t, q);
                assert(t2[i].0 == q);
            }
        }
        lemma_lists_unique(s2, t2, m2);
        assert(s =~= s2.push(s.last()));
        assert(t =~= t2.push(t.last()));
    }
}

/// The listing of the map `m`: its pairs in ascending order of the keys.
pub open spec fn listing_of<V>(m: Map<Seq<char>, V>) -> Seq<(Seq<char>, V)> {
    choose|s: Seq<(Seq<char>, V)>| lists(s, m)
}

/// A sequence that lists a map is the listing of that map.
pub proof fn lemma_listing_of<V>(s: Seq<(Seq<char>, V)>, m: Map<Seq<char>, V>)
    requires
        lists(s, m),
    ensures
        listing_of(m) == s,
{
    lemma_lists_unique(listing_of(m), s, m);
}

/// Putting a new key at its place keeps the order and adds one pair to the map.
proof fn lemma_insert_new<V>(s: Seq<(Seq<char>, V)>, at: int, k: Seq<char>, v: V)
    requires
        ascending(s),
        0 <= at <= s.len(),
        forall|j: int| 0 <= j < at ==> lex_lt(#[trigger] s[j].0, k),
        forall|j: int| at <= j < s.len() ==> lex_lt(k, #[trigger] s[j].0),
    ensures
        ascending(s.insert(at, (k, v))),
        as_map(s.insert(at, (k, v))) == as_map(s).insert(k, v),
        !has_key(s, k),
{
    let t = s.insert(at, (k, v));
    lemma_lex_lt_irreflexive(k);
    assert forall|i: int, j: int| 0 <= i < j < t.len() implies lex_lt(
        #[trigger] t[i].0,
        #[trigger] t[j].0,
    ) by {
        if j < at {
            assert(t[i] == s[i] && t[j] == s[j]);
        } else if j == at {
            assert(t[i] == s[i]);
        } else if i < at {
            assert(t[i] == s[i] && t[j] == s[j - 1]);
            if j - 1 == i {
            } else {
                assert(lex_lt(s[i].0, s[j - 1].0));
            }
        } else if i == at {
            assert(t[j] == s[j - 1]);
        } else {
            assert(t[i] == s[i - 1] && t[j] == s[j - 1]);
            assert(lex_lt(s[i - 1].0, s[j - 1].0));
        }
    }
    lemma_lists_as_map(s);
    lemma_lists_as_map(t);
    let m = as_map(s).insert(k, v);
    assert forall|q: Seq<char>| as_map(t).dom().contains(q) <==> m.dom().contains(q) by {
        if has_key(t, q) {
            let i = index_of(t, q);
            if i < at {
                assert(s[i].0 == q);
            } else if i > at {
                assert(s[i - 1].0 == q);
            }
        }
        if has_key(s, q) {
            let i = index_of(s, q);
            if i < at {
                assert(t[i].0 == q);
            } else {
                assert(t[i + 1].0 == q);
            }
        }
        if q == k {
            assert(t[at].0 == q);
        }
    }
    assert forall|q: Seq<char>| as_map(t).dom().contains(q) implies as_map(t)[q] == m[q] by {
        let i = index_of(t, q);
        assert(as_map(t).contains_pair(t[i].0, t[i].1));
        if i < at {
            assert(as_map(s).contains_pair(s[i].0, s[i].1));
        } else if i > at {
            assert(as_map(s).contains_pair(s[i - 1].0, s[i - 1].1));
        }
    }
    assert(as_map(t) =~= m);
}

/// Giving a key that is there a new value keeps the order and changes one pair
/// of the map.
proof fn lemma_update_value<V>(s: Seq<(Seq<char>, V)>, at: int, v: V)
    requires
        ascending(s),
        0 <= at < s.len(),
    ensures
        ascending(s.update(at, (s[at].0, v))),
        as_map(s.update(at, (s[at].0, v))) == as_map(s).insert(s[at].0, v),
{
    let k = s[at].0;
    let t = s.update(at, (k, v));
    assert forall|i: int, j: int| 0 <= i < j < t.len() implies lex_lt(
        #[trigger] t[i].0,
        #[trigger] t[j].0,
    ) by {
        assert(t[i].0 == s[i].0 && t[j].0 == s[j].0);
    }
    lemma_lists_as_map(s);
    lemma_lists_as_map(t);
    let m = as_map(s).insert(k, v);
    assert forall|q: Seq<char>| as_map(t).dom().contains(q) <==> m.dom().contains(q) by {
        if has_key(t, q) {
            let i = index_of(t, q);
            assert(s[i].0 == q);
        }
        if has_key(s, q) {
            let i = index_of(s, q);
            assert(t[i].0 == q);
        }
        if q == k {
            assert(t[at].0 == q);
        }
    }
    assert forall|q: Seq<char>| as_map(t).dom().contains(q) implies as_map(t)[q] == m[q] by {
        let i = index_of(t, q);
        assert(as_map(t).contains_pair(t[i].0, t[i].1));
        if i != at {
            assert(t[i] == s[i]);
            assert(as_map(s).contains_pair(s[i].0, s[i].1));
            if q == k {
                lemma_ascending_distinct(s, i, at);
            }
        } else {
            assert(t[i] == (k, v));
        }
    }
    assert(as_map(t) =~= m);
}

/// A map from strings to values of type `V`.
pub struct SortedMap<V> {
    entries: Vec<(String, V)>,
}

impl<V> View for SortedMap<V> {
    type V = Map<Seq<char>, V>;

    closed spec fn view(&self) -> Map<Seq<char>, V> {
        as_map(self.listing())
    }
}

impl<V> SortedMap<V> {
    /// The pairs of the map in the order in which they are kept.
    pub closed spec fn listing(&self) -> Seq<(Seq<char>, V)> {
        Seq::new(self.entries.len() as nat, |i: int| (self.entries[i].0@, self.entries[i].1))
    }

    /// The pairs are kept in ascending order of their keys.
    pub closed spec fn wf(&self) -> bool {
        ascending(self.listing())
    }

    /// What is kept is the one listing of the map.
    pub proof fn lemma_listing(&self)
        requires
            self.wf(),
        ensures
            lists(self.listing(), self@),
            self.listing() == listing_of(self@),
            self.listing().len() <= usize::MAX,
            self@.dom().finite(),
            self@.dom().len() == self.listing().len(),
    {
        lemma_lists_as_map(self.listing());
        lemma_listing_counts(self.listing());
        lemma_listing_of(self.listing(), self@);
    }
}

/// An ascending sequence has as many entries as its map has keys.
pub proof fn lemma_listing_counts<V>(s: Seq<(Seq<char>, V)>)
    requires
        ascending(s),
    ensures
        as_map(s).dom().finite(),
        as_map(s).dom().len() == s.len(),
    decreases s.len(),
{
    if s.len() == 0 {
        assert(as_map(s).dom() =~= Set::empty());
    } else {
        let t = s.drop_last();
        let last = s.last();
        lemma_listing_counts(t);
        assert forall|j: int| 0 <= j < t.len() implies lex_lt(#[trigger] t[j].0, last.0) by {
            assert(lex_lt(s[j].0, s[s.len() - 1].0));
        }
        lemma_insert_new(t, t.len() as int, last.0, last.1);
        assert(t.insert(t.len() as int, last) =~= s);
        assert(as_map(s).dom() =~= as_map(t).dom().insert(last.0));
        assert(!as_map(t).dom().contains(last.0));
    }
}

impl<V: Copy> SortedMap<V> {
    /// The empty map.
    pub fn new() -> (m: Self)
        ensures
            m.wf(),
            m@ == Map::<Seq<char>, V>::empty(),
            m.listing() == Seq::<(Seq<char>, V)>::empty(),
    {
        let m = SortedMap { entries: Vec::new() };
        assert(m.listing() =~= Seq::<(Seq<char>, V)>::empty());
        assert(m@ =~= Map::<Seq<char>, V>::empty());
        m
    }

    /// The number of keys.
    pub fn len(&self) -> (n: usize)
        ensures
            n == self.listing().len(),
    {
        self.entries.len()
    }

    /// The place where `key` stands, or where it would stand, and whether it
    /// stands there.
    fn find(&self, key: &str) -> (r: (usize, bool))
        requires
            self.wf(),
        ensures
            r.0 <= self.listing().len(),
            forall|j: int| 0 <= j < r.0 ==> lex_lt(#[trigger] self.listing()[j].0, key@),
            r.1 ==> r.0 < self.listing().len() && self.listing()[r.0 as int].0 == key@,
            !r.1 ==> forall|j: int|
                r.0 <= j < self.listing().len() ==> lex_lt(key@, #[trigger] self.listing()[j].0),
    {
        let mut lo: usize = 0;
        let mut hi: usize = self.entries.len();
        while lo < hi
            invariant
                self.wf(),
                lo <= hi <= self.entries.len(),
                self.entries.len() == self.listing().len(),
                forall|j: int| 0 <= j < lo ==> lex_lt(#[trigger] self.listing()[j].0, key@),
                forall|j: int|
                    hi <= j < self.listing().len() ==> lex_lt(key@, #[trigger] self.listing()[j].0),
            decreases hi - lo,
        {
            let mid = lo + (hi - lo) / 2;
            let ghost at = self.listing()[mid as int].0;
            match compare(self.entries[mid].0.as_str(), key) {
                Ordem::Igual => {
                    assert forall|j: int| 0 <= j < mid implies lex_lt(
                        #[trigger] self.listing()[j].0,
                        key@,
                    ) by {
                        assert(lex_lt(self.listing()[j].0, self.listing()[mid as int].0));
                    }
                    return (mid, true);
                },
                Ordem::Menor => {
                    assert forall|j: int| 0 <= j < mid + 1 implies lex_lt(
                        #[trigger] self.listing()[j].0,
                        key@,
                    ) by {
                        if j < mid {
                            assert(lex_lt(self.listing()[j].0, self.listing()[mid as int].0));
                            lemma_lex_lt_transitive(self.listing()[j].0, at, key@);
                        }
                    }
                    lo = mid + 1;
                },
                Ordem::Maior => {
                    assert forall|j: int| mid <= j < self.listing().len() implies lex_lt(
                        key@,
                        #[trigger] self.listing()[j].0,
                    ) by {
                        if mid < j {
                            assert(lex_lt(self.listing()[mid as int].0, self.listing()[j].0));
                            lemma_lex_lt_transitive(key@, at, self.listing()[j].0);
                        }
                    }
                    hi = mid;
                },
            }
        }
        (lo, false)
    }

    /// Whether `key` is in the map.
    pub fn contains_key(&self, key: &str) -> (b: bool)
        requires
            self.wf(),
        ensures
            b == self@.dom().contains(key@),
    {
        let (at, found) = self.find(key);
        proof {
            self.lemma_absent(at as int, found, key@);
        }
        found
    }

    /// The value kept under `key`, if there is one.
    pub fn get(&self, key: &str) -> (r: Option<V>)
        requires
            self.wf(),
        ensures
            r == if self@.dom().contains(key@) {
                Some(self@[key@])
            } else {
                None
            },
    {
        let (at, found) = self.find(key);
        proof {
            self.lemma_absent(at as int, found, key@);
            lemma_lists_as_map(self.listing());
        }
        if found {
            Some(self.entries[at].1)
        } else {
            None
        }
    }

    /// What `find` reports is what the map holds.
    proof fn lemma_absent(&self, at: int, found: bool, key: Seq<char>)
        requires
            self.wf(),
            0 <= at <= self.listing().len(),
            forall|j: int| 0 <= j < at ==> lex_lt(#[trigger] self.listing()[j].0, key),
            found ==> at < self.listing().len() && self.listing()[at].0 == key,
            !found ==> forall|j: int|
                at <= j < self.listing().len() ==> lex_lt(key, #[trigger] self.listing()[j].0),
        ensures
            found == self@.dom().contains(key),
    {
        let s = self.listing();
        lemma_lex_lt_irreflexive(key);
        if found {
            assert(has_key(s, key));
        } else if has_key(s, key) {
            let i = index_of(s, key);
            if i < at {
                assert(lex_lt(s[i].0, key));
            } else {
                assert(lex_lt(key, s[i].0));
            }
        }
    }

    /// Keeps `value` under `key`, in place of the value that was there, if any.
    pub fn insert(&mut self, key: String, value: V)
        requires
            old(self).wf(),
        ensures
            final(self).wf(),
            final(self)@ == old(self)@.insert(key@, value),
    {
        let (at, found) = self.find(key.as_str());
        let ghost s = self.listing();
        if found {
            proof {
                lemma_update_value(s, at as int, value);
            }
            self.entries.set(at, (key, value));
            assert(self.listing() =~= s.update(at as int, (s[at as int].0, value)));
        } else {
            proof {
                lemma_insert_new(s, at as int, key@, value);
            }
            self.entries.insert(at, (key, value));
            assert(self.listing() =~= s.insert(at as int, (key@, value)));
        }
    }

    /// The key at place `i` of the listing.
    pub fn key_at(&self, i: usize) -> (k: &String)
        requires
            i < self.listing().len(),
        ensures
            k@ == self.listing()[i as int].0,
    {
        &self.entries[i].0
    }

    /// The value at place `i` of the listing.
    pub fn value_at(&self, i: usize) -> (v: V)
        requires
            i < self.listing().len(),
        ensures
            v == self.listing()[i as int].1,
    {
        self.entries[i].1
    }
}

} // verus!
