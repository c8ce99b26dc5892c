//! Mark vectors: which indices a sequence of flags has set, and where each of
//! them comes to stand when only those are kept.

use vstd::prelude::*;

verus! {

/// The indices below `n` that `marks` has set, in increasing order.
pub open spec fn picked_below(marks: Seq<bool>, n: int) -> Seq<int>
    decreases n,
{
    if n <= 0 {
        Seq::empty()
    } else if marks[n - 1] {
        picked_below(marks, n - 1).push(n - 1)
    } else {
        picked_below(marks, n - 1)
    }
}

/// All indices that `marks` has set, in increasing order.
pub open spec fn picked(marks: Seq<bool>) -> Seq<int> {
    picked_below(marks, marks.len() as int)
}

/// How many indices below `i` are set in `marks`. For a set index this is its
/// position in [`picked`].
pub open spec fn rank(marks: Seq<bool>, i: int) -> int {
    picked_below(marks, i).len() as int
}

/// Every flag of `small` that is set is set in `large` too.
pub open spec fn within(small: Seq<bool>, large: Seq<bool>) -> bool {
    &&& small.len() == large.len()
    &&& forall|i: int| 0 <= i < small.len() && small[i] ==> large[i]
}

/// A rank is a count of indices below `n`.
pub proof fn lemma_rank_bounds(marks: Seq<bool>, n: int)
    ensures
        0 <= rank(marks, n),
        n >= 0 ==> rank(marks, n) <= n,
        n <= 0 ==> rank(marks, n) == 0,
    decreases n,
{
    if n > 0 {
        lemma_rank_bounds(marks, n - 1);
    }
}

/// What is picked below `a` is the beginning of what is picked below any
/// larger bound.
pub proof fn lemma_picked_prefix(marks: Seq<bool>, a: int, b: int)
    requires
        a <= b,
    ensures
        rank(marks, a) <= rank(marks, b),
        forall|k: int|
            0 <= k < rank(marks, a) ==> picked_below(marks, b)[k] == picked_below(marks, a)[k],
    decreases b - a,
{
    if a < b {
        lemma_picked_prefix(marks, a, b - 1);
        lemma_rank_bounds(marks, a);
    }
}

/// What is picked is set, lies below the bound, and stands at its rank.
pub proof fn lemma_picked_member(marks: Seq<bool>, n: int, k: int)
    requires
        0 <= k < rank(marks, n),
    ensures
        0 <= picked_below(marks, n)[k] < n,
        marks[picked_below(marks, n)[k]],
        rank(marks, picked_below(marks, n)[k]) == k,
    decreases n,
{
    if n > 0 {
        if marks[n - 1] && k == rank(marks, n - 1) {
        } else {
            lemma_picked_member(marks, n - 1, k);
        }
    }
}

/// A set index stands in the picked sequence at its rank.
pub proof fn lemma_picked_at_rank(marks: Seq<bool>, n: int, i: int)
    requires
        0 <= i < n,
        marks[i],
    ensures
        0 <= rank(marks, i) < rank(marks, n),
        picked_below(marks, n)[rank(marks, i)] == i,
{
    lemma_rank_bounds(marks, i);
    lemma_picked_prefix(marks, i + 1, n);
}

/// The picked sequence is strictly increasing.
pub proof fn lemma_picked_increasing(marks: Seq<bool>, n: int, k1: int, k2: int)
    requires
        0 <= k1 < k2 < rank(marks, n),
    ensures
        picked_below(marks, n)[k1] < picked_below(marks, n)[k2],
{
    lemma_picked_member(marks, n, k1);
    lemma_picked_member(marks, n, k2);
    let i1 = picked_below(marks, n)[k1];
    let i2 = picked_below(marks, n)[k2];
    if i2 <= i1 {
        lemma_picked_prefix(marks, i2, i1);
    }
}

/// Setting more flags never lowers a rank.
pub proof fn lemma_rank_within(small: Seq<bool>, large: Seq<bool>, n: int)
    requires
        within(small, large),
        n <= small.len(),
    ensures
        rank(small, n) <= rank(large, n),
    decreases n,
{
    if n > 0 {
        lemma_rank_within(small, large, n - 1);
    }
}

/// Setting one more flag below `n` raises the rank of `n`.
pub proof fn lemma_rank_grows(small: Seq<bool>, large: Seq<bool>, n: int, t: int)
    requires
        within(small, large),
        0 <= t < n <= small.len(),
        !small[t],
        large[t],
    ensures
        rank(small, n) < rank(large, n),
    decreases n,
{
    if t == n - 1 {
        lemma_rank_within(small, large, n - 1);
    } else {
        lemma_rank_grows(small, large, n - 1, t);
    }
}

/// Where every flag below `n` is set, every index keeps its place.
pub proof fn lemma_rank_all_set(marks: Seq<bool>, n: int)
    requires
        0 <= n,
        forall|i: int| 0 <= i < n ==> marks[i],
    ensures
        rank(marks, n) == n,
        forall|k: int| 0 <= k < n ==> picked_below(marks, n)[k] == k,
    decreases n,
{
    if n > 0 {
        lemma_rank_all_set(marks, n - 1);
    }
}

} // verus!
