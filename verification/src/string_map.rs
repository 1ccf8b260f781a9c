//! A finite map keyed by strings, held as a list of pairs in strictly
//! ascending key order.

use crate::text::{
    lemma_precedes_irreflexive, lemma_precedes_total, lemma_precedes_transitive, precedes,
    str_precedes,
};
use vstd::prelude::*;

verus! {

/// The keys of `s` are in strictly ascending order; no key occurs twice.
pub open spec fn ascending<V>(s: Seq<(Seq<char>, V)>) -> bool {
    forall|i: int, j: int| 0 <= i < j < s.len() ==> precedes(#[trigger] s[i].0, #[trigger] s[j].0)
}

/// The map that results from inserting the pairs of `s` one after the other
/// into the empty map: of two pairs with one key the later one stays.
pub open spec fn pairs_map<V>(s: Seq<(Seq<char>, V)>) -> Map<Seq<char>, V>
    decreases s.len(),
{
    if s.len() == 0 {
        Map::empty()
    } else {
        pairs_map(s.drop_last()).insert(s.last().0, s.last().1)
    }
}

/// The keys of `pairs_map(s)` are the keys that occur in `s`.
pub proof fn lemma_pairs_map_domain<V>(s: Seq<(Seq<char>, V)>, key: Seq<char>)
    ensures
        pairs_map(s).contains_key(key) <==> exists|i: int|
            0 <= i < s.len() && #[trigger] s[i].0 == key,
    decreases s.len(),
{
    if s.len() > 0 {
        let t = s.drop_last();
        lemma_pairs_map_domain(t, key);
        if pairs_map(s).contains_key(key) {
            if s.last().0 == key {
                assert(s[s.len() - 1].0 == key);
            } else {
                let i = choose|i: int| 0 <= i < t.len() && #[trigger] t[i].0 == key;
                assert(s[i].0 == key);
            }
        }
        if exists|i: int| 0 <= i < s.len() && #[trigger] s[i].0 == key {
            let i = choose|i: int| 0 <= i < s.len() && #[trigger] s[i].0 == key;
            if i < s.len() - 1 {
                assert(t[i].0 == key);
            }
        }
    }
}

/// Where no key occurs twice, `pairs_map(s)` maps each key of `s` to the
/// value that stands beside it.
pub proof fn lemma_pairs_map_value<V>(s: Seq<(Seq<char>, V)>, i: int)
    requires
        ascending(s),
        0 <= i < s.len(),
    ensures
        pairs_map(s).contains_key(s[i].0),
        pairs_map(s)[s[i].0] == s[i].1,
    decreases s.len(),
{
    let t = s.drop_last();
    if i < s.len() - 1 {
        lemma_ascending_drop_last(s);
        lemma_pairs_map_value(t, i);
        assert(precedes(s[i].0, s[s.len() - 1].0));
        lemma_precedes_irreflexive(s[i].0);
    }
}

/// A prefix of an ascending list is ascending.
pub proof fn lemma_ascending_drop_last<V>(s: Seq<(Seq<char>, V)>)
    requires
        ascending(s),
        s.len() > 0,
    ensures
        ascending(s.drop_last()),
{
    let t = s.drop_last();
    assert forall|a: int, b: int| 0 <= a < b < t.len() implies precedes(
        #[trigger] t[a].0,
        #[trigger] t[b].0,
    ) by {
        assert(precedes(s[a].0, s[b].0));
    }
}

/// The map of an ascending list has as many keys as the list has pairs.
pub proof fn lemma_pairs_map_len<V>(s: Seq<(Seq<char>, V)>)
    requires
        ascending(s),
    ensures
        pairs_map(s).dom().finite(),
        pairs_map(s).dom().len() == s.len(),
    decreases s.len(),
{
    if s.len() > 0 {
        let t = s.drop_last();
        let key = s.last().0;
        lemma_ascending_drop_last(s);
        lemma_pairs_map_len(t);
        lemma_pairs_map_domain(t, key);
        if pairs_map(t).contains_key(key) {
            let i = choose|i: int| 0 <= i < t.len() && #[trigger] t[i].0 == key;
            assert(precedes(s[i].0, s[s.len() - 1].0));
            lemma_precedes_irreflexive(key);
        }
        assert(pairs_map(s).dom() =~= pairs_map(t).dom().insert(key));
    } else {
        assert(pairs_map(s).dom() =~= Set::<Seq<char>>::empty());
    }
}

/// A finite map from strings to values of type `V`.
#[derive(Debug, PartialEq, Eq)]
pub struct StringMap<V> {
    entries: Vec<(String, V)>,
}

impl<V> View for StringMap<V> {
    type V = Map<Seq<char>, V>;

    open spec fn view(&self) -> Map<Seq<char>, V> {
        pairs_map(self.pairs())
    }
}

impl<V: Clone> Clone for StringMap<V> {
    /// A map with the same keys, each with a clone of its value.
    fn clone(&self) -> (copy: Self)
        ensures
            copy.pairs().len() == self.pairs().len(),
            forall|i: int|
                0 <= i < self.pairs().len() ==> (#[trigger] copy.pairs()[i]).0 == self.pairs()[i].0
                    && cloned::<V>(self.pairs()[i].1, copy.pairs()[i].1),
    {
        proof {
            use_type_invariant(self);
        }
        let mut entries: Vec<(String, V)> = Vec::new();
        let mut i: usize = 0;
        while i < self.entries.len()
            invariant
                i <= self.entries.len(),
                entries.len() == i,
                forall|j: int|
                    0 <= j < i ==> (#[trigger] entries@[j]).0@ == self.entries@[j].0@
                        && cloned::<V>(self.entries@[j].1, entries@[j].1),
            decreases self.entries.len() - i,
        {
            let key = self.entries[i].0.clone();
            let value = self.entries[i].1.clone();
            entries.push((key, value));
            i += 1;
        }
        let ghost pairs = Seq::new(entries@.len(), |i: int| (entries@[i].0@, entries@[i].1));
        proof {
            assert forall|a: int, b: int| 0 <= a < b < pairs.len() implies precedes(
                #[trigger] pairs[a].0,
                #[trigger] pairs[b].0,
            ) by {
                assert(precedes(self.pairs()[a].0, self.pairs()[b].0));
            }
        }
        StringMap { entries }
    }
}

impl<V> StringMap<V> {
    /// The pairs of the map, in ascending key order.
    pub closed spec fn pairs(&self) -> Seq<(Seq<char>, V)> {
        Seq::new(self.entries@.len(), |i: int| (self.entries@[i].0@, self.entries@[i].1))
    }

    /// The invariant of the type: the keys stand in strictly ascending order.
    #[verifier::type_invariant]
    pub open spec fn well_formed(&self) -> bool {
        ascending(self.pairs())
    }

    /// The empty map.
    pub fn new() -> (m: Self)
        ensures
            m.pairs() == Seq::<(Seq<char>, V)>::empty(),
            m@ == Map::<Seq<char>, V>::empty(),
    {
        let m = StringMap { entries: Vec::new() };
        assert(m.pairs() =~= Seq::<(Seq<char>, V)>::empty());
        m
    }

    /// The number of keys.
    pub fn len(&self) -> (n: usize)
        ensures
            n == self.pairs().len(),
            self@.dom().finite(),
            n == self@.len(),
    {
        proof {
            use_type_invariant(self);
            lemma_pairs_map_len(self.pairs());
        }
        self.entries.len()
    }

    /// The key at place `i` of the ascending order.
    pub fn key_at(&self, i: usize) -> (key: &String)
        requires
            i < self.pairs().len(),
        ensures
            key@ == self.pairs()[i as int].0,
    {
        &self.entries[i].0
    }

    /// The value at place `i` of the ascending order of the keys.
    pub fn value_at(&self, i: usize) -> (value: &V)
        requires
            i < self.pairs().len(),
        ensures
            *value == self.pairs()[i as int].1,
    {
        &self.entries[i].1
    }

    /// The first place whose key does not precede `key`.
    fn lower_bound(&self, key: &str) -> (p: usize)
        ensures
            p <= self.pairs().len(),
            forall|i: int| 0 <= i < p ==> precedes(#[trigger] self.pairs()[i].0, key@),
            p < self.pairs().len() ==> !precedes(self.pairs()[p as int].0, key@),
    {
        let mut p: usize = 0;
        while p < self.entries.len()
            invariant
                p <= self.entries.len(),
                self.pairs().len() == self.entries.len(),
                forall|i: int| 0 <= i < p ==> precedes(#[trigger] self.pairs()[i].0, key@),
            decreases self.entries.len() - p,
        {
            if !str_precedes(self.entries[p].0.as_str(), key) {
                return p;
            }
            p += 1;
        }
        p
    }

    /// The value stored under `key`, if there is one.
    pub fn get(&self, key: &str) -> (found: Option<&V>)
        ensures
            match found {
                Some(value) => self@.contains_key(key@) && *value == self@[key@],
                None => !self@.contains_key(key@),
            },
    {
        proof {
            use_type_invariant(self);
        }
        let p = self.lower_bound(key);
        if p < self.entries.len() && !str_precedes(key, self.entries[p].0.as_str()) {
            proof {
                lemma_precedes_total(self.pairs()[p as int].0, key@);
                lemma_pairs_map_value(self.pairs(), p as int);
            }
            Some(&self.entries[p].1)
        } else {
            proof {
                self.lemma_absent(p as int, key@);
            }
            None
        }
    }

    /// A key that falls between two neighbours of the order is not in the map.
    proof fn lemma_absent(&self, p: int, key: Seq<char>)
        requires
            self.well_formed(),
            0 <= p <= self.pairs().len(),
            forall|i: int| 0 <= i < p ==> precedes(#[trigger] self.pairs()[i].0, key),
            p < self.pairs().len() ==> precedes(key, self.pairs()[p].0),
        ensures
            !self@.contains_key(key),
    {
        let s = self.pairs();
        lemma_pairs_map_domain(s, key);
        if exists|i: int| 0 <= i < s.len() && #[trigger] s[i].0 == key {
            let i = choose|i: int| 0 <= i < s.len() && #[trigger] s[i].0 == key;
            lemma_precedes_irreflexive(key);
            if i > p {
                assert(precedes(s[p].0, s[i].0));
                lemma_precedes_transitive(key, s[p].0, key);
            }
        }
    }

    /// Stores `value` under `key`, in place of the value that was there, if
    /// there was one.
    pub fn insert(&mut self, key: String, value: V)
        ensures
            final(self)@ == old(self)@.insert(key@, value),
    {
        proof {
            use_type_invariant(&*self);
        }
        let p = self.lower_bound(key.as_str());
        let ghost before = self.pairs();
        let ghost pair = (key@, value);
        let replace = p < self.entries.len() && !str_precedes(
            key.as_str(),
            self.entries[p].0.as_str(),
        );
        let mut entries: Vec<(String, V)> = Vec::new();
        assert(self.pairs().len() == self.entries@.len());
        core::mem::swap(&mut self.entries, &mut entries);
        assert(before =~= Seq::new(entries@.len(), |i: int| (entries@[i].0@, entries@[i].1)));
        if replace {
            entries.set(p, (key, value));
        } else {
            entries.insert(p, (key, value));
        }
        proof {
            let after = Seq::new(entries@.len(), |i: int| (entries@[i].0@, entries@[i].1));
            if replace {
                lemma_precedes_total(before[p as int].0, pair.0);
                assert(after =~= before.update(p as int, pair));
                lemma_update_pairs(before, p as int, value);
            } else {
                assert(after =~= before.insert(p as int, pair));
                if p < before.len() {
                    assert forall|i: int| p <= i < before.len() implies precedes(
                        pair.0,
                        #[trigger] before[i].0,
                    ) by {
                        if i > p {
                            assert(precedes(before[p as int].0, before[i].0));
                            lemma_precedes_transitive(pair.0, before[p as int].0, before[i].0);
                        }
                    }
                }
                lemma_insert_pairs(before, p as int, pair.0, value);
            }
        }
        self.entries = entries;
    }
}

/// Replacing the value at one place of an ascending list replaces it in the
/// map, and the list stays ascending.
pub proof fn lemma_update_pairs<V>(s: Seq<(Seq<char>, V)>, p: int, value: V)
    requires
        ascending(s),
        0 <= p < s.len(),
    ensures
        ascending(s.update(p, (s[p].0, value))),
        pairs_map(s.update(p, (s[p].0, value))) == pairs_map(s).insert(s[p].0, value),
{
    let key = s[p].0;
    let t = s.update(p, (key, value));
    assert forall|i: int, j: int| 0 <= i < j < t.len() implies precedes(
        #[trigger] t[i].0,
        #[trigger] t[j].0,
    ) by {
        assert(precedes(s[i].0, s[j].0));
    }
    assert forall|k: Seq<char>| pairs_map(t).contains_key(k) <==> pairs_map(s).insert(
        key,
        value,
    ).contains_key(k) by {
        lemma_pairs_map_domain(t, k);
        lemma_pairs_map_domain(s, k);
        if exists|i: int| 0 <= i < t.len() && #[trigger] t[i].0 == k {
            let i = choose|i: int| 0 <= i < t.len() && #[trigger] t[i].0 == k;
            assert(s[i].0 == k);
        }
        if exists|i: int| 0 <= i < s.len() && #[trigger] s[i].0 == k {
            let i = choose|i: int| 0 <= i < s.len() && #[trigger] s[i].0 == k;
            assert(t[i].0 == k);
        }
        if k == key {
            assert(t[p].0 == k);
        }
    }
    assert forall|k: Seq<char>| pairs_map(t).contains_key(k) implies pairs_map(t)[k]
        == pairs_map(s).insert(key, value)[k] by {
        lemma_pairs_map_domain(t, k);
        let i = choose|i: int| 0 <= i < t.len() && #[trigger] t[i].0 == k;
        lemma_pairs_map_value(t, i);
        lemma_pairs_map_value(s, i);
        if i != p {
            lemma_precedes_irreflexive(key);
            if i < p {
                assert(precedes(s[i].0, s[p].0));
            } else {
                assert(precedes(s[p].0, s[i].0));
            }
        }
    }
    assert(pairs_map(t) =~= pairs_map(s).insert(key, value));
}

/// Putting a new key at its place in an ascending list inserts it into the
/// map, and the list stays ascending.
pub proof fn lemma_insert_pairs<V>(s: Seq<(Seq<char>, V)>, p: int, key: Seq<char>, value: V)
    requires
        ascending(s),
        0 <= p <= s.len(),
        forall|i: int| 0 <= i < p ==> precedes(#[trigger] s[i].0, key),
        forall|i: int| p <= i < s.len() ==> precedes(key, #[trigger] s[i].0),
    ensures
        ascending(s.insert(p, (key, value))),
        pairs_map(s.insert(p, (key, value))) == pairs_map(s).insert(key, value),
{
    let t = s.insert(p, (key, value));
    assert forall|i: int, j: int| 0 <= i < j < t.len() implies precedes(
        #[trigger] t[i].0,
        #[trigger] t[j].0,
    ) by {
        if j < p {
            assert(precedes(s[i].0, s[j].0));
        } else if j == p {
            assert(t[i] == s[i]);
        } else if i < p {
            assert(t[j] == s[j - 1]);
            assert(t[i] == s[i]);
            if i < j - 1 {
                assert(precedes(s[i].0, s[j - 1].0));
            } else {
                lemma_precedes_transitive(s[i].0, key, s[j - 1].0);
            }
        } else if i == p {
            assert(t[j] == s[j - 1]);
        } else {
            assert(t[i] == s[i - 1]);
            assert(t[j] == s[j - 1]);
            assert(precedes(s[i - 1].0, s[j - 1].0));
        }
    }
    assert forall|k: Seq<char>| pairs_map(t).contains_key(k) <==> pairs_map(s).insert(
        key,
        value,
    ).contains_key(k) by {
        lemma_pairs_map_domain(t, k);
        lemma_pairs_map_domain(s, k);
        if exists|i: int| 0 <= i < t.len() && #[trigger] t[i].0 == k {
            let i = choose|i: int| 0 <= i < t.len() && #[trigger] t[i].0 == k;
            if i < p {
                assert(s[i].0 == k);
            } else if i > p {
                assert(s[i - 1].0 == k);
            }
        }
        if exists|i: int| 0 <= i < s.len() && #[trigger] s[i].0 == k {
            let i = choose|i: int| 0 <= i < s.len() && #[trigger] s[i].0 == k;
            if i < p {
                assert(t[i].0 == k);
            } else {
                assert(t[i + 1].0 == k);
            }
        }
        if k == key {
            assert(t[p].0 == k);
        }
    }
    assert forall|k: Seq<char>| pairs_map(t).contains_key(k) implies pairs_map(t)[k]
        == pairs_map(s).insert(key, value)[k] by {
        lemma_pairs_map_domain(t, k);
        let i = choose|i: int| 0 <= i < t.len() && #[trigger] t[i].0 == k;
        lemma_pairs_map_value(t, i);
        lemma_precedes_irreflexive(key);
        if i < p {
            lemma_pairs_map_value(s, i);
        } else if i > p {
            assert(t[i] == s[i - 1]);
            lemma_pairs_map_value(s, i - 1);
        }
    }
    assert(pairs_map(t) =~= pairs_map(s).insert(key, value));
}

} // verus!
