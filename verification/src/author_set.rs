//! A set of author identifiers that remembers the order in which they came.
//! The members stand in a vector, for walking; a hash set of the same
//! members serves the lookups.

use vstd::hash_set::StringHashSet;
use vstd::prelude::*;
use vstd::seq_lib::seq_to_set_is_finite;

verus! {

/// The views of the strings of `s`, in order.
pub open spec fn ids_of(s: Seq<String>) -> Seq<Seq<char>> {
    Seq::new(s.len(), |i: int| s[i]@)
}

/// A set of author identifiers. No author occurs twice; the members can be
/// walked by index, in the order of their insertion.
pub struct AuthorSet {
    members: Vec<String>,
    seen: StringHashSet,
}

impl View for AuthorSet {
    type V = Set<Seq<char>>;

    closed spec fn view(&self) -> Set<Seq<char>> {
        ids_of(self.members@).to_set()
    }
}

impl AuthorSet {
    #[verifier::type_invariant]
    spec fn well_formed(self) -> bool {
        ids_of(self.members@).no_duplicates() && self.seen@ == ids_of(self.members@).to_set()
    }

    /// The members, in the order of their insertion.
    pub closed spec fn members(&self) -> Seq<Seq<char>> {
        ids_of(self.members@)
    }

    /// An empty set.
    pub fn new() -> (s: Self)
        ensures
            s@ == Set::<Seq<char>>::empty(),
            s.members() == Seq::<Seq<char>>::empty(),
    {
        let members: Vec<String> = Vec::new();
        let seen = StringHashSet::new();
        assert(ids_of(members@).to_set() =~= Set::<Seq<char>>::empty());
        let s = AuthorSet { members, seen };
        assert(s@ =~= Set::<Seq<char>>::empty());
        assert(s.members() =~= Seq::<Seq<char>>::empty());
        s
    }

    /// The number of members. The members are distinct and are exactly the
    /// elements of the view.
    pub fn len(&self) -> (n: usize)
        ensures
            n == self.members().len(),
            n == self@.len(),
            self@.finite(),
            self.members().no_duplicates(),
            self@ == self.members().to_set(),
    {
        proof {
            use_type_invariant(self);
            seq_to_set_is_finite(ids_of(self.members@));
            ids_of(self.members@).unique_seq_to_set();
        }
        self.members.len()
    }

    /// Whether the set has no member.
    pub fn is_empty(&self) -> (empty: bool)
        ensures
            empty == (self@.len() == 0),
            self@.finite(),
    {
        self.len() == 0
    }

    /// The member at index `i`.
    pub fn member_at(&self, i: usize) -> (author: &String)
        requires
            i < self.members().len(),
        ensures
            author@ == self.members()[i as int],
            self@.contains(author@),
    {
        assert(ids_of(self.members@)[i as int] == self.members@[i as int]@);
        &self.members[i]
    }

    /// Whether `author` is a member.
    pub fn contains(&self, author: &str) -> (found: bool)
        ensures
            found == self@.contains(author@),
    {
        proof {
            use_type_invariant(self);
        }
        self.seen.contains(author)
    }

    /// Adds `author` and says whether the author was new.
    pub fn insert(&mut self, author: String) -> (added: bool)
        ensures
            added == !old(self)@.contains(author@),
            final(self)@ == old(self)@.insert(author@),
            final(self).members() == if added {
                old(self).members().push(author@)
            } else {
                old(self).members()
            },
    {
        proof {
            use_type_invariant(&*self);
        }
        if self.seen.contains(author.as_str()) {
            assert(self@.insert(author@) =~= self@);
            false
        } else {
            let ghost before = self.members@;
            let mut taken = AuthorSet::new();
            std::mem::swap(self, &mut taken);
            let AuthorSet { mut members, mut seen } = taken;
            seen.insert(author.clone());
            members.push(author);
            proof {
                let grown = ids_of(members@);
                assert(grown =~= ids_of(before).push(author@));
                assert forall|i: int, j: int|
                    0 <= i < grown.len() && 0 <= j < grown.len() && i != j implies grown[i]
                    != grown[j] by {
                    if i < before.len() {
                        assert(ids_of(before)[i] == grown[i]);
                    }
                    if j < before.len() {
                        assert(ids_of(before)[j] == grown[j]);
                    }
                }
                assert(grown.to_set() =~= ids_of(before).to_set().insert(author@)) by {
                    assert forall|a: Seq<char>| grown.to_set().contains(a) <==> ids_of(
                        before,
                    ).to_set().insert(author@).contains(a) by {
                        if grown.contains(a) {
                            let i = choose|i: int| 0 <= i < grown.len() && grown[i] == a;
                            if i < before.len() {
                                assert(ids_of(before)[i] == a);
                            }
                        }
                        if ids_of(before).contains(a) {
                            let i = choose|i: int|
                                0 <= i < ids_of(before).len() && ids_of(before)[i] == a;
                            assert(grown[i] == a);
                        }
                        if a == author@ {
                            assert(grown[before.len() as int] == a);
                        }
                    }
                }
            }
            *self = AuthorSet { members, seen };
            true
        }
    }
}

} // verus!
