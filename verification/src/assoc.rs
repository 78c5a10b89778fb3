//! Sequences of key-value entries read as finite maps: the mathematical model
//! behind the string-keyed collections of this library.

use vstd::prelude::*;

verus! {

/// Some entry of `s` has the key `k`.
pub open spec fn has_key<V>(s: Seq<(String, V)>, k: Seq<char>) -> bool {
    exists|i: int| 0 <= i < s.len() && (#[trigger] s[i]).0@ == k
}

/// An index at which `s` holds the key `k`, where there is one.
pub open spec fn position_of<V>(s: Seq<(String, V)>, k: Seq<char>) -> int {
    choose|i: int| 0 <= i < s.len() && (#[trigger] s[i]).0@ == k
}

/// No key occurs twice in `s`.
pub open spec fn keys_distinct<V>(s: Seq<(String, V)>) -> bool {
    forall|i: int, j: int|
        0 <= i < j < s.len() ==> (#[trigger] s[i]).0@ != (#[trigger] s[j]).0@
}

/// The keys of `s`, in order.
pub open spec fn keys_of<V>(s: Seq<(String, V)>) -> Seq<Seq<char>> {
    Seq::new(s.len(), |i: int| s[i].0@)
}

/// The map that takes each key of `s` to the value held with it.
pub open spec fn map_of<V>(s: Seq<(String, V)>) -> Map<Seq<char>, V> {
    Map::new(|k: Seq<char>| has_key(s, k), |k: Seq<char>| s[position_of(s, k)].1)
}

/// With distinct keys, the entry at `i` is the one the map holds for its key.
pub proof fn lemma_entry<V>(s: Seq<(String, V)>, i: int)
    requires
        keys_distinct(s),
        0 <= i < s.len(),
    ensures
        has_key(s, s[i].0@),
        position_of(s, s[i].0@) == i,
        map_of(s).contains_key(s[i].0@),
        map_of(s)[s[i].0@] == s[i].1,
{
    let k = s[i].0@;
    assert(has_key(s, k));
    let p = position_of(s, k);
    assert(0 <= p < s.len() && s[p].0@ == k);
    if p < i {
        assert(s[p].0@ != s[i].0@);
    } else if i < p {
        assert(s[i].0@ != s[p].0@);
    }
}

/// A key that the map holds is found at its position.
pub proof fn lemma_position<V>(s: Seq<(String, V)>, k: Seq<char>)
    requires
        has_key(s, k),
    ensures
        0 <= position_of(s, k) < s.len(),
        s[position_of(s, k)].0@ == k,
        map_of(s).contains_key(k),
        map_of(s)[k] == s[position_of(s, k)].1,
{
}

/// Putting an entry with a new key anywhere into `s` inserts it into the map.
pub proof fn lemma_insert<V>(s: Seq<(String, V)>, p: int, e: (String, V))
    requires
        keys_distinct(s),
        !has_key(s, e.0@),
        0 <= p <= s.len(),
    ensures
        keys_distinct(s.insert(p, e)),
        map_of(s.insert(p, e)) == map_of(s).insert(e.0@, e.1),
{
    let t = s.insert(p, e);
    assert forall|i: int, j: int| 0 <= i < j < t.len() implies (#[trigger] t[i]).0@ != (
    #[trigger] t[j]).0@ by {
        let si = if i < p { i } else { i - 1 };
        let sj = if j < p { j } else { j - 1 };
        if i == p {
            assert(t[j] == s[sj]);
        } else if j == p {
            assert(t[i] == s[si]);
        } else {
            assert(t[i] == s[si] && t[j] == s[sj]);
        }
    }
    assert forall|k: Seq<char>| has_key(t, k) <==> (has_key(s, k) || k == e.0@) by {
        if has_key(t, k) {
            let j = position_of(t, k);
            if j != p {
                let sj = if j < p { j } else { j - 1 };
                assert(t[j] == s[sj]);
            }
        }
        if has_key(s, k) {
            let i = position_of(s, k);
            let ti = if i < p { i } else { i + 1 };
            assert(t[ti] == s[i]);
        }
        if k == e.0@ {
            assert(t[p] == e);
        }
    }
    assert forall|k: Seq<char>| has_key(t, k) implies #[trigger] map_of(t)[k] == map_of(s).insert(
        e.0@,
        e.1,
    )[k] by {
        if k == e.0@ {
            assert(t[p] == e);
            lemma_entry(t, p);
        } else {
            let i = position_of(s, k);
            let ti = if i < p { i } else { i + 1 };
            assert(t[ti] == s[i]);
            lemma_entry(t, ti);
        }
    }
    assert(map_of(t) =~= map_of(s).insert(e.0@, e.1));
}

/// Taking the entry at `i` out of `s` removes its key from the map.
pub proof fn lemma_remove<V>(s: Seq<(String, V)>, i: int)
    requires
        keys_distinct(s),
        0 <= i < s.len(),
    ensures
        keys_distinct(s.remove(i)),
        !has_key(s.remove(i), s[i].0@),
        map_of(s.remove(i)) == map_of(s).remove(s[i].0@),
{
    let t = s.remove(i);
    let gone = s[i].0@;
    assert forall|a: int, b: int| 0 <= a < b < t.len() implies (#[trigger] t[a]).0@ != (
    #[trigger] t[b]).0@ by {
        let sa = if a < i { a } else { a + 1 };
        let sb = if b < i { b } else { b + 1 };
        assert(t[a] == s[sa] && t[b] == s[sb]);
    }
    assert forall|k: Seq<char>| has_key(t, k) <==> (has_key(s, k) && k != gone) by {
        if has_key(t, k) {
            let j = position_of(t, k);
            let sj = if j < i { j } else { j + 1 };
            assert(t[j] == s[sj]);
            if sj < i {
                assert(s[sj].0@ != s[i].0@);
            } else {
                assert(s[i].0@ != s[sj].0@);
            }
        }
        if has_key(s, k) && k != gone {
            let j = position_of(s, k);
            let tj = if j < i { j } else { j - 1 };
            assert(t[tj] == s[j]);
        }
    }
    assert forall|k: Seq<char>| has_key(t, k) implies #[trigger] map_of(t)[k] == map_of(s)[k] by {
        let j = position_of(s, k);
        let tj = if j < i { j } else { j - 1 };
        assert(t[tj] == s[j]);
        lemma_entry(t, tj);
    }
    assert(map_of(t) =~= map_of(s).remove(gone));
}

/// Replacing the entry at `i` by one with the same key stores its value in
/// the map.
pub proof fn lemma_update<V>(s: Seq<(String, V)>, i: int, e: (String, V))
    requires
        keys_distinct(s),
        0 <= i < s.len(),
        e.0@ == s[i].0@,
    ensures
        keys_distinct(s.update(i, e)),
        map_of(s.update(i, e)) == map_of(s).insert(e.0@, e.1),
{
    let t = s.update(i, e);
    assert forall|a: int, b: int| 0 <= a < b < t.len() implies (#[trigger] t[a]).0@ != (
    #[trigger] t[b]).0@ by {
        assert(t[a].0@ == s[a].0@ && t[b].0@ == s[b].0@);
    }
    assert forall|k: Seq<char>| has_key(t, k) <==> has_key(s, k) by {
        if has_key(t, k) {
            let j = position_of(t, k);
            assert(t[j].0@ == s[j].0@);
        }
        if has_key(s, k) {
            let j = position_of(s, k);
            assert(t[j].0@ == s[j].0@);
        }
    }
    assert(has_key(s, e.0@));
    assert forall|k: Seq<char>| has_key(t, k) implies #[trigger] map_of(t)[k] == map_of(s).insert(
        e.0@,
        e.1,
    )[k] by {
        let j = position_of(s, k);
        assert(t[j].0@ == s[j].0@);
        lemma_entry(t, j);
    }
    assert(map_of(t) =~= map_of(s).insert(e.0@, e.1));
}

/// The map of a sequence with distinct keys is finite and has one key for
/// each entry.
pub proof fn lemma_len<V>(s: Seq<(String, V)>)
    requires
        keys_distinct(s),
    ensures
        map_of(s).dom().finite(),
        map_of(s).len() == s.len(),
    decreases s.len(),
{
    if s.len() == 0 {
        assert(map_of(s) =~= Map::<Seq<char>, V>::empty());
    } else {
        let init = s.drop_last();
        let e = s.last();
        assert(keys_distinct(init)) by {
            assert forall|i: int, j: int| 0 <= i < j < init.len() implies (#[trigger] init[i]).0@
                != (#[trigger] init[j]).0@ by {
                assert(init[i] == s[i] && init[j] == s[j]);
            }
        }
        assert(!has_key(init, e.0@)) by {
            if has_key(init, e.0@) {
                let i = position_of(init, e.0@);
                assert(init[i] == s[i]);
                assert(s[i].0@ != s[s.len() - 1].0@);
            }
        }
        lemma_len(init);
        lemma_insert(init, init.len() as int, e);
        assert(init.insert(init.len() as int, e) =~= s);
    }
}

/// The first `j + 1` members of a sequence without duplicates are the first
/// `j` and one more, which is not among them.
pub proof fn lemma_next_member(members: Seq<Seq<char>>, j: int)
    requires
        members.no_duplicates(),
        0 <= j < members.len(),
    ensures
        !members.take(j).to_set().contains(members[j]),
        members.take(j + 1).to_set() == members.take(j).to_set().insert(members[j]),
{
    let shorter = members.take(j);
    let longer = members.take(j + 1);
    if shorter.contains(members[j]) {
        let i = choose|i: int| 0 <= i < shorter.len() && shorter[i] == members[j];
        assert(members[i] == members[j]);
    }
    assert forall|a: Seq<char>| longer.to_set().contains(a) <==> shorter.to_set().insert(
        members[j],
    ).contains(a) by {
        if longer.contains(a) {
            let i = choose|i: int| 0 <= i < longer.len() && longer[i] == a;
            if i < j {
                assert(shorter[i] == a);
            }
        }
        if shorter.contains(a) {
            let i = choose|i: int| 0 <= i < shorter.len() && shorter[i] == a;
            assert(longer[i] == a);
        }
        if a == members[j] {
            assert(longer[j] == a);
        }
    }
    assert(longer.to_set() =~= shorter.to_set().insert(members[j]));
}

} // verus!
