//! Lemmas on chains of references: how steps compose, where a chain ends, what
//! is reachable, and what an update of one cell leaves in place.

use crate::heap::Heap;
use vstd::prelude::*;

verus! {

/// `a + b` steps are `a` steps followed by `b` steps.
pub proof fn lemma_hop_add(h: Heap, i: int, a: nat, b: nat)
    ensures
        h.hop(i, a + b) == h.hop(h.hop(i, a), b),
    decreases b,
{
    if b > 0 {
        lemma_hop_add(h, i, a, (b - 1) as nat);
        assert(a + b - 1 == a + (b - 1));
    }
}

/// One more step can be taken first as well as last.
pub proof fn lemma_hop_front(h: Heap, i: int, n: nat)
    ensures
        h.hop(i, n + 1) == h.hop(h.next(i), n),
{
    lemma_hop_add(h, i, 1, n);
    assert(h.hop(i, 1) == h.next(h.hop(i, 0)));
    assert(1 + n == n + 1);
}

/// Steps from a cell stay among the cells.
pub proof fn lemma_hop_in_range(h: Heap, i: int, n: nat)
    requires
        h.links_in_range(),
        h.holds(i),
    ensures
        h.holds(h.hop(i, n)),
    decreases n,
{
    if n > 0 {
        lemma_hop_in_range(h, i, (n - 1) as nat);
    }
}

/// A chain that has come to its value stays there.
pub proof fn lemma_hop_stays(h: Heap, i: int, n: nat, m: nat)
    requires
        h.settles(i, n),
        n <= m,
    ensures
        h.hop(i, m) == h.hop(i, n),
    decreases m - n,
{
    if n < m {
        lemma_hop_stays(h, i, n, (m - 1) as nat);
    }
}

/// Wherever a chain is seen to end, that is its tip.
pub proof fn lemma_tip(h: Heap, i: int, n: nat)
    requires
        h.settles(i, n),
    ensures
        h.tip(i) == h.hop(i, n),
        h.cells[h.tip(i)] is Value,
        h.ends(i),
{
    let d = h.depth(i);
    assert(h.settles(i, d));
    if d <= n {
        lemma_hop_stays(h, i, d, n);
    } else {
        lemma_hop_stays(h, i, n, d);
    }
}

/// Where a chain leads depends on the cells alone, not on the roots.
pub proof fn lemma_same_cells_hop(h: Heap, g: Heap, i: int, n: nat)
    requires
        h.cells == g.cells,
    ensures
        h.hop(i, n) == g.hop(i, n),
    decreases n,
{
    if n > 0 {
        lemma_same_cells_hop(h, g, i, (n - 1) as nat);
    }
}

/// What is reachable is a cell.
pub proof fn lemma_reachable_in_range(h: Heap, i: int)
    requires
        h.links_in_range(),
        h.roots_in_range(),
        h.reachable(i),
    ensures
        h.holds(i),
{
    let (j, n) = choose|j: int, n: nat| h.reaches(j, n, i);
    lemma_hop_in_range(h, h.roots[j]->Some_0, n);
}

/// What a root names is reachable.
pub proof fn lemma_root_reachable(h: Heap, j: int)
    requires
        0 <= j < h.roots.len(),
        h.roots[j] is Some,
    ensures
        h.reachable(h.roots[j]->Some_0),
{
    assert(h.reaches(j, 0, h.roots[j]->Some_0));
}

/// What can be reached from a reachable cell is reachable.
pub proof fn lemma_reachable_hop(h: Heap, i: int, n: nat)
    requires
        h.reachable(i),
    ensures
        h.reachable(h.hop(i, n)),
{
    let (j, m) = choose|j: int, m: nat| h.reaches(j, m, i);
    lemma_hop_add(h, h.roots[j]->Some_0, m, n);
    assert(h.reaches(j, m + n, h.hop(i, n)));
}

/// The target of a reachable reference is reachable.
pub proof fn lemma_reachable_next(h: Heap, i: int)
    requires
        h.reachable(i),
    ensures
        h.reachable(h.next(i)),
{
    lemma_reachable_hop(h, i, 1);
    assert(h.hop(i, 1) == h.next(h.hop(i, 0)));
}

/// `marks` has every cell that a root names.
pub open spec fn holds_roots(h: Heap, marks: Seq<bool>) -> bool {
    forall|j: int|
        0 <= j < h.roots.len() ==> ((#[trigger] h.roots[j]) matches Some(t) ==> marks[t])
}

/// With each cell that `marks` has, it has the cell that one step leads to.
pub open spec fn closed_under_next(h: Heap, marks: Seq<bool>) -> bool {
    forall|i: int| h.holds(i) && marks[i] ==> marks[#[trigger] h.next(i)]
}

/// `marks` has reachable cells only.
pub open spec fn only_reachable(h: Heap, marks: Seq<bool>) -> bool {
    forall|i: int| h.holds(i) && #[trigger] marks[i] ==> h.reachable(i)
}

/// A set of cells that has the roots and is closed under steps has every
/// reachable cell.
pub proof fn lemma_closed_marks_cover(h: Heap, marks: Seq<bool>, i: int)
    requires
        h.links_in_range(),
        h.roots_in_range(),
        holds_roots(h, marks),
        closed_under_next(h, marks),
        h.reachable(i),
    ensures
        marks[i],
{
    let (j, n) = choose|j: int, n: nat| h.reaches(j, n, i);
    lemma_marked_hop(h, marks, h.roots[j]->Some_0, n);
}

proof fn lemma_marked_hop(h: Heap, marks: Seq<bool>, s: int, n: nat)
    requires
        h.links_in_range(),
        closed_under_next(h, marks),
        h.holds(s),
        marks[s],
    ensures
        marks[h.hop(s, n)],
    decreases n,
{
    if n > 0 {
        lemma_marked_hop(h, marks, s, (n - 1) as nat);
        lemma_hop_in_range(h, s, (n - 1) as nat);
    }
}

/// Marks that hold reachable cells only, hold the roots and are closed under
/// steps are the marks of the reachable cells.
pub proof fn lemma_marks_are_live(h: Heap, marks: Seq<bool>)
    requires
        h.links_in_range(),
        h.roots_in_range(),
        marks.len() == h.cells.len(),
        only_reachable(h, marks),
        holds_roots(h, marks),
        closed_under_next(h, marks),
    ensures
        marks == h.live(),
{
    assert forall|i: int| 0 <= i < marks.len() implies marks[i] == h.live()[i] by {
        if h.reachable(i) {
            lemma_closed_marks_cover(h, marks, i);
        }
    }
    assert(marks =~= h.live());
}

} // verus!
