//! Counting the occurrences of a value in a sequence.

use vstd::prelude::*;

verus! {

/// How often `a` stands in `s`.
pub open spec fn count<A>(s: Seq<A>, a: A) -> nat
    decreases s.len(),
{
    if s.len() == 0 {
        0
    } else {
        count(s.drop_last(), a) + if s.last() == a {
            1nat
        } else {
            0nat
        }
    }
}

/// Counting over a concatenation adds up.
pub proof fn lemma_count_concat<A>(s: Seq<A>, t: Seq<A>, a: A)
    ensures
        count(s + t, a) == count(s, a) + count(t, a),
    decreases t.len(),
{
    if t.len() > 0 {
        assert((s + t).drop_last() =~= s + t.drop_last());
        lemma_count_concat(s, t.drop_last(), a);
    }
}

/// A value is counted zero times exactly when the sequence does not hold it.
pub proof fn lemma_count_zero<A>(s: Seq<A>, a: A)
    ensures
        count(s, a) == 0 <==> !s.contains(a),
    decreases s.len(),
{
    if s.len() > 0 {
        lemma_count_zero(s.drop_last(), a);
        if s.last() != a && !s.drop_last().contains(a) && s.contains(a) {
            let i = choose|i: int| 0 <= i < s.len() && s[i] == a;
            assert(s.drop_last()[i] == a);
        }
    }
}

/// A value that is counted at most once stands in one place only.
pub proof fn lemma_count_once<A>(s: Seq<A>, a: A, i: int, j: int)
    requires
        count(s, a) <= 1,
        0 <= i < s.len(),
        0 <= j < s.len(),
        s[i] == a,
        s[j] == a,
    ensures
        i == j,
    decreases s.len(),
{
    let front = s.drop_last();
    if s.last() == a {
        lemma_count_zero(front, a);
        if i < front.len() {
            assert(front[i] == a);
        }
        if j < front.len() {
            assert(front[j] == a);
        }
    } else {
        lemma_count_once(front, a, i, j);
    }
}

/// The count in a sequence of at most four values, value by value.
pub proof fn lemma_count_up_to_four<A>(s: Seq<A>, a: A)
    requires
        s.len() <= 4,
    ensures
        count(s, a) == (if 0 < s.len() && s[0] == a {
            1nat
        } else {
            0nat
        }) + (if 1 < s.len() && s[1] == a {
            1nat
        } else {
            0nat
        }) + (if 2 < s.len() && s[2] == a {
            1nat
        } else {
            0nat
        }) + (if 3 < s.len() && s[3] == a {
            1nat
        } else {
            0nat
        }),
    decreases s.len(),
{
    if s.len() > 0 {
        lemma_count_up_to_four(s.drop_last(), a);
    }
}

} // verus!
