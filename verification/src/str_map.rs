//! A map keyed by strings that remembers the order in which its keys came.
//! The entries stand in a vector, for walking; a hash map from each key to
//! its place in the vector serves the lookups.

use crate::assoc::{
    has_key, keys_distinct, keys_of, lemma_entry, lemma_insert, lemma_len, lemma_position,
    lemma_update, map_of,
};
use vstd::hash_map::StringHashMap;
use vstd::prelude::*;

verus! {

/// A map from strings to values of `V`. No key occurs twice; the keys can be
/// walked by index, in the order of their first insertion.
pub struct StrMap<V> {
    entries: Vec<(String, V)>,
    places: StringHashMap<usize>,
}

/// `places` takes each key of `entries` to its index, and holds no other
/// key.
spec fn places_match<V>(entries: Seq<(String, V)>, places: Map<Seq<char>, usize>) -> bool {
    &&& forall|i: int|
        0 <= i < entries.len() ==> places.contains_key((#[trigger] entries[i]).0@)
            && places[entries[i].0@] == i
    &&& forall|k: Seq<char>| #[trigger] places.contains_key(k) ==> has_key(entries, k)
}

impl<V> View for StrMap<V> {
    type V = Map<Seq<char>, V>;

    closed spec fn view(&self) -> Map<Seq<char>, V> {
        map_of(self.entries@)
    }
}

impl<V> StrMap<V> {
    #[verifier::type_invariant]
    spec fn well_formed(self) -> bool {
        keys_distinct(self.entries@) && places_match(self.entries@, self.places@)
    }

    /// The keys, in the order of their first insertion.
    pub closed spec fn keys(&self) -> Seq<Seq<char>> {
        keys_of(self.entries@)
    }

    /// An empty map.
    pub fn new() -> (m: Self)
        ensures
            m@ == Map::<Seq<char>, V>::empty(),
            m.keys() == Seq::<Seq<char>>::empty(),
    {
        let m = StrMap { entries: Vec::new(), places: StringHashMap::new() };
        assert(m@ =~= Map::<Seq<char>, V>::empty());
        assert(m.keys() =~= Seq::<Seq<char>>::empty());
        m
    }

    /// The number of keys. The keys are distinct and are exactly the keys of
    /// the view.
    pub fn len(&self) -> (n: usize)
        ensures
            n == self.keys().len(),
            n == self@.len(),
            self@.dom().finite(),
            self.keys().no_duplicates(),
            forall|k: Seq<char>| self@.contains_key(k) <==> self.keys().contains(k),
    {
        proof {
            use_type_invariant(self);
            self.lemma_keys();
        }
        self.entries.len()
    }

    /// Whether the map holds no key.
    pub fn is_empty(&self) -> (empty: bool)
        ensures
            empty == (self@.len() == 0),
            self@.dom().finite(),
    {
        self.len() == 0
    }

    /// The key at index `i`.
    pub fn key_at(&self, i: usize) -> (key: &String)
        requires
            i < self.keys().len(),
        ensures
            key@ == self.keys()[i as int],
            self@.contains_key(key@),
    {
        proof {
            use_type_invariant(self);
            lemma_entry(self.entries@, i as int);
        }
        &self.entries[i].0
    }

    /// The value held with the key at index `i`.
    pub fn value_at(&self, i: usize) -> (value: &V)
        requires
            i < self.keys().len(),
        ensures
            self@.contains_key(self.keys()[i as int]),
            *value == self@[self.keys()[i as int]],
    {
        proof {
            use_type_invariant(self);
            lemma_entry(self.entries@, i as int);
        }
        &self.entries[i].1
    }

    /// The index of `key`, if the map holds it.
    pub fn position(&self, key: &str) -> (found: Option<usize>)
        ensures
            match found {
                Some(i) => i < self.keys().len() && self.keys()[i as int] == key@
                    && self@.contains_key(key@),
                None => !self@.contains_key(key@),
            },
    {
        self.find(key)
    }

    /// Whether the map holds `key`.
    pub fn contains_key(&self, key: &str) -> (found: bool)
        ensures
            found == self@.contains_key(key@),
    {
        self.position(key).is_some()
    }

    /// The value held with `key`, if the map holds it.
    pub fn get(&self, key: &str) -> (value: Option<&V>)
        ensures
            match value {
                Some(v) => self@.contains_key(key@) && *v == self@[key@],
                None => !self@.contains_key(key@),
            },
    {
        match self.position(key) {
            Some(i) => Some(self.value_at(i)),
            None => None,
        }
    }

    /// Stores `value` under `key` and returns the value that `key` had before.
    /// A new key goes to the end of the order; a known key keeps its place.
    pub fn insert(&mut self, key: String, value: V) -> (previous: Option<V>)
        ensures
            final(self)@ == old(self)@.insert(key@, value),
            previous == if old(self)@.contains_key(key@) {
                Some(old(self)@[key@])
            } else {
                None::<V>
            },
            final(self).keys() == if old(self)@.contains_key(key@) {
                old(self).keys()
            } else {
                old(self).keys().push(key@)
            },
    {
        proof {
            use_type_invariant(&*self);
        }
        let found = self.find(key.as_str());
        let ghost before = self.entries@;
        let mut taken = StrMap::new();
        std::mem::swap(self, &mut taken);
        let StrMap { mut entries, mut places } = taken;
        let previous = match found {
            Some(i) => {
                let mut value = value;
                std::mem::swap(&mut entries[i].1, &mut value);
                proof {
                    lemma_entry(before, i as int);
                    lemma_update(before, i as int, entries@[i as int]);
                    assert(entries@ =~= before.update(i as int, entries@[i as int]));
                    assert(keys_of(entries@) =~= keys_of(before));
                    lemma_places_kept(before, entries@, places@);
                }
                Some(value)
            },
            None => {
                proof {
                    lemma_insert(before, before.len() as int, (key, value));
                    assert(before.insert(before.len() as int, (key, value)) =~= before.push(
                        (key, value),
                    ));
                    assert(keys_of(before.push((key, value))) =~= keys_of(before).push(key@));
                }
                places.insert(key.clone(), entries.len());
                entries.push((key, value));
                proof {
                    assert forall|i: int| 0 <= i < entries@.len() implies places@.contains_key(
                        (#[trigger] entries@[i]).0@,
                    ) && places@[entries@[i].0@] == i by {
                        if i < before.len() {
                            assert(entries@[i] == before[i]);
                        }
                    }
                    assert forall|k: Seq<char>| #[trigger] places@.contains_key(k) implies has_key(
                        entries@,
                        k,
                    ) by {
                        if k == key@ {
                            assert(entries@[before.len() as int].0@ == k);
                        } else {
                            let i = crate::assoc::position_of(before, k);
                            assert(entries@[i] == before[i]);
                        }
                    }
                }
                None
            },
        };
        *self = StrMap { entries, places };
        previous
    }

    /// Stores `value` under the key at index `i` and returns the value that
    /// the key had before.
    pub fn replace_at(&mut self, i: usize, value: V) -> (previous: V)
        requires
            i < old(self).keys().len(),
        ensures
            final(self).keys() == old(self).keys(),
            final(self)@ == old(self)@.insert(old(self).keys()[i as int], value),
            old(self)@.contains_key(old(self).keys()[i as int]),
            previous == old(self)@[old(self).keys()[i as int]],
    {
        proof {
            use_type_invariant(&*self);
        }
        let ghost before = self.entries@;
        let mut taken = StrMap::new();
        std::mem::swap(self, &mut taken);
        let StrMap { mut entries, places } = taken;
        let mut value = value;
        std::mem::swap(&mut entries[i].1, &mut value);
        proof {
            lemma_entry(before, i as int);
            lemma_update(before, i as int, entries@[i as int]);
            assert(entries@ =~= before.update(i as int, entries@[i as int]));
            assert(keys_of(entries@) =~= keys_of(before));
            lemma_places_kept(before, entries@, places@);
        }
        *self = StrMap { entries, places };
        value
    }

    fn find(&self, key: &str) -> (found: Option<usize>)
        ensures
            match found {
                Some(i) => i < self.keys().len() && self.keys()[i as int] == key@
                    && self@.contains_key(key@),
                None => !self@.contains_key(key@),
            },
    {
        proof {
            use_type_invariant(self);
        }
        match self.places.get(key) {
            Some(place) => {
                proof {
                    let i = crate::assoc::position_of(self.entries@, key@);
                    assert(self.places@[self.entries@[i].0@] == i);
                    lemma_entry(self.entries@, i);
                }
                Some(*place)
            },
            None => {
                proof {
                    if has_key(self.entries@, key@) {
                        let i = crate::assoc::position_of(self.entries@, key@);
                        assert(self.places@.contains_key(self.entries@[i].0@));
                    }
                }
                None
            },
        }
    }

    proof fn lemma_keys(&self)
        requires
            keys_distinct(self.entries@),
        ensures
            self.keys().len() == self.entries@.len(),
            self@.len() == self.entries@.len(),
            self@.dom().finite(),
            self.keys().no_duplicates(),
            forall|k: Seq<char>| self@.contains_key(k) <==> self.keys().contains(k),
    {
        let s = self.entries@;
        lemma_len(s);
        assert forall|k: Seq<char>| self@.contains_key(k) <==> self.keys().contains(k) by {
            if has_key(s, k) {
                lemma_position(s, k);
                let i = crate::assoc::position_of(s, k);
                assert(keys_of(s)[i] == k);
            }
            if keys_of(s).contains(k) {
                let i = choose|i: int| 0 <= i < keys_of(s).len() && keys_of(s)[i] == k;
                assert(s[i].0@ == k);
            }
        }
    }
}

/// The places stay right where the entries keep their keys.
proof fn lemma_places_kept<V>(
    before: Seq<(String, V)>,
    after: Seq<(String, V)>,
    places: Map<Seq<char>, usize>,
)
    requires
        places_match(before, places),
        after.len() == before.len(),
        forall|i: int| 0 <= i < before.len() ==> (#[trigger] after[i]).0@ == before[i].0@,
    ensures
        places_match(after, places),
{
    assert forall|i: int| 0 <= i < after.len() implies places.contains_key(
        (#[trigger] after[i]).0@,
    ) && places[after[i].0@] == i by {
        assert(before[i].0@ == after[i].0@);
    }
    assert forall|k: Seq<char>| #[trigger] places.contains_key(k) implies has_key(after, k) by {
        let i = crate::assoc::position_of(before, k);
        assert(after[i].0@ == k);
    }
}

} // verus!
