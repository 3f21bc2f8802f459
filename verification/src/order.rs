//! The order in which an enumeration visits addresses.
//!
//! Addresses are compared slot by slot, first slot first: of two addresses
//! the one with 0 in the first slot where they differ comes first. This is
//! the order of a depth-first walk of the binary address tree that always
//! turns to 0 before it turns to 1.

use vstd::prelude::*;

verus! {

/// Whether `a` and `b` have the same first `n` slots.
pub open spec fn agrees(a: Seq<bool>, b: Seq<bool>, n: int) -> bool {
    forall|j: int| 0 <= j < n ==> a[j] == b[j]
}

/// Whether `a` comes before `b`: in the first slot in which they differ,
/// `a` has 0 and `b` has 1.
pub open spec fn before(a: Seq<bool>, b: Seq<bool>) -> bool {
    exists|i: int| 0 <= i < 64 && #[trigger] agrees(a, b, i) && !a[i] && b[i]
}

/// The first `n` slots read as a binary number, first slot most significant.
pub open spec fn rank(s: Seq<bool>, n: int) -> int
    decreases n,
{
    if n <= 0 {
        0
    } else {
        2 * rank(s, n - 1) + if s[n - 1] {
            1int
        } else {
            0int
        }
    }
}

/// The largest number that `n` slots can spell.
pub open spec fn rank_cap(n: int) -> int
    decreases n,
{
    if n <= 0 {
        0
    } else {
        2 * rank_cap(n - 1) + 1
    }
}

/// A rank lies between zero and the cap.
pub proof fn lemma_rank_bounds(s: Seq<bool>, n: int)
    ensures
        0 <= rank(s, n) <= rank_cap(n),
    decreases n,
{
    if n > 0 {
        lemma_rank_bounds(s, n - 1);
    }
}

/// Sequences that agree on `n` slots have the same rank over them.
pub proof fn lemma_rank_of_agreeing(a: Seq<bool>, b: Seq<bool>, n: int)
    requires
        agrees(a, b, n),
    ensures
        rank(a, n) == rank(b, n),
    decreases n,
{
    if n > 0 {
        lemma_rank_of_agreeing(a, b, n - 1);
    }
}

/// A smaller rank over `n` slots stays smaller over any more slots.
pub proof fn lemma_rank_stays_below(a: Seq<bool>, b: Seq<bool>, n: int, m: int)
    requires
        n <= m,
        rank(a, n) < rank(b, n),
    ensures
        rank(a, m) < rank(b, m),
    decreases m - n,
{
    if n < m {
        lemma_rank_stays_below(a, b, n, m - 1);
    }
}

/// What comes before has the smaller rank.
pub proof fn lemma_before_has_lower_rank(a: Seq<bool>, b: Seq<bool>)
    requires
        before(a, b),
    ensures
        rank(a, 64) < rank(b, 64),
{
    let i = choose|i: int| 0 <= i < 64 && #[trigger] agrees(a, b, i) && !a[i] && b[i];
    lemma_rank_of_agreeing(a, b, i);
    assert(rank(a, i + 1) < rank(b, i + 1));
    lemma_rank_stays_below(a, b, i + 1, 64);
}

/// Two different addresses differ in a first slot.
pub proof fn lemma_first_difference(a: Seq<bool>, b: Seq<bool>, n: int)
    requires
        a.len() == 64,
        b.len() == 64,
        a != b,
        0 <= n <= 64,
        agrees(a, b, n),
    ensures
        exists|i: int| n <= i < 64 && #[trigger] agrees(a, b, i) && a[i] != b[i],
    decreases 64 - n,
{
    if n == 64 {
        assert(a =~= b);
    } else if a[n] != b[n] {
        assert(agrees(a, b, n));
    } else {
        lemma_first_difference(a, b, n + 1);
    }
}

/// Of two different addresses one comes before the other.
pub proof fn lemma_one_comes_first(a: Seq<bool>, b: Seq<bool>)
    requires
        a.len() == 64,
        b.len() == 64,
    ensures
        a == b || before(a, b) || before(b, a),
{
    if a != b {
        lemma_first_difference(a, b, 0);
        let i = choose|i: int| 0 <= i < 64 && #[trigger] agrees(a, b, i) && a[i] != b[i];
        if a[i] {
            assert(agrees(b, a, i));
        }
    }
}

/// The order is the order of ranks.
pub proof fn lemma_lower_rank_is_before(a: Seq<bool>, b: Seq<bool>)
    requires
        a.len() == 64,
        b.len() == 64,
        rank(a, 64) < rank(b, 64),
    ensures
        before(a, b),
{
    lemma_one_comes_first(a, b);
    if before(b, a) {
        lemma_before_has_lower_rank(b, a);
    }
}

/// Nothing comes before itself, and of two addresses at most one comes
/// before the other.
pub proof fn lemma_before_is_strict(a: Seq<bool>, b: Seq<bool>)
    requires
        before(a, b),
    ensures
        a != b,
        !before(b, a),
{
    lemma_before_has_lower_rank(a, b);
    if before(b, a) {
        lemma_before_has_lower_rank(b, a);
    }
}

} // verus!
