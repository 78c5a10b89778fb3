//! The order of strings by code point, which breaks ties between languages
//! of equal confidence.

use vstd::prelude::*;
use vstd::std_specs::iter::IteratorSpec;

verus! {

broadcast use vstd::string::group_string_axioms;

/// `a` comes strictly before `b` in the lexicographic order of their code
/// points.
pub open spec fn precedes(a: Seq<char>, b: Seq<char>) -> bool
    decreases a.len(),
{
    if b.len() == 0 {
        false
    } else if a.len() == 0 {
        true
    } else if a[0] != b[0] {
        (a[0] as int) < (b[0] as int)
    } else {
        precedes(a.drop_first(), b.drop_first())
    }
}

/// No string comes before itself.
pub proof fn lemma_precedes_irreflexive(a: Seq<char>)
    ensures
        !precedes(a, a),
    decreases a.len(),
{
    if a.len() > 0 {
        lemma_precedes_irreflexive(a.drop_first());
    }
}

/// Of two different strings exactly one comes before the other.
pub proof fn lemma_precedes_total(a: Seq<char>, b: Seq<char>)
    ensures
        a != b ==> (precedes(a, b) <==> !precedes(b, a)),
        a == b ==> !precedes(a, b) && !precedes(b, a),
    decreases a.len(),
{
    if a == b {
        lemma_precedes_irreflexive(a);
    } else if a.len() > 0 && b.len() > 0 {
        if a[0] == b[0] {
            lemma_precedes_total(a.drop_first(), b.drop_first());
            if a.drop_first() == b.drop_first() {
                assert(a =~= seq![a[0]] + a.drop_first());
                assert(b =~= seq![b[0]] + b.drop_first());
            }
        } else {
            assert(a[0] as int != b[0] as int);
        }
    } else {
        assert(a.len() == 0 ==> a =~= Seq::<char>::empty());
        assert(b.len() == 0 ==> b =~= Seq::<char>::empty());
    }
}

/// The order is transitive.
pub proof fn lemma_precedes_transitive(a: Seq<char>, b: Seq<char>, c: Seq<char>)
    requires
        precedes(a, b),
        precedes(b, c),
    ensures
        precedes(a, c),
    decreases a.len(),
{
    if a.len() > 0 && a[0] == b[0] && b[0] == c[0] {
        lemma_precedes_transitive(a.drop_first(), b.drop_first(), c.drop_first());
    }
}

/// The code point of `c`.
fn code_point(c: char) -> (n: u32)
    ensures
        n as int == c as int,
{
    c as u32
}

/// Whether `a` comes strictly before `b` in the order of code points.
pub(crate) fn str_precedes(a: &str, b: &str) -> (r: bool)
    ensures
        r == precedes(a@, b@),
{
    let mut left = a.chars();
    let mut right = b.chars();
    let ghost mut done: int = 0;
    assert(a@.subrange(0, a@.len() as int) =~= a@);
    assert(b@.subrange(0, b@.len() as int) =~= b@);
    loop
        invariant
            0 <= done <= a@.len(),
            done <= b@.len(),
            left.remaining() == a@.subrange(done, a@.len() as int),
            right.remaining() == b@.subrange(done, b@.len() as int),
            precedes(a@, b@) == precedes(left.remaining(), right.remaining()),
        decreases a@.len() - done,
    {
        let ghost rest_a = left.remaining();
        let ghost rest_b = right.remaining();
        match right.next() {
            None => {
                return false;
            },
            Some(y) => match left.next() {
                None => {
                    return true;
                },
                Some(x) => {
                    if x != y {
                        return code_point(x) < code_point(y);
                    }
                    proof {
                        assert(rest_a.drop_first() =~= a@.subrange(done + 1, a@.len() as int));
                        assert(rest_b.drop_first() =~= b@.subrange(done + 1, b@.len() as int));
                        done = done + 1;
                    }
                },
            },
        }
    }
}

} // verus!
