//! What is read through a cell, and what a collection keeps and what it
//! drops, stated of the model and proved.

use crate::chain::lemma_hop_front;
use crate::chain::lemma_reachable_in_range;
use crate::chain::lemma_reachable_next;
use crate::chain::lemma_root_reachable;
use crate::chain::lemma_same_cells_hop;
use crate::chain::lemma_tip;
use crate::heap::Cell;
use crate::heap::Heap;
use crate::marks::lemma_picked_at_rank;
use crate::marks::lemma_picked_member;
use crate::marks::lemma_rank_all_set;
use crate::marks::lemma_rank_bounds;
use vstd::prelude::*;

verus! {

/// Reading through a reference gives what its target gives.
pub proof fn lemma_value_through(h: Heap, i: int)
    requires
        h.wf(),
        h.holds(i),
    ensures
        h.value_at(i) == h.value_at(h.next(i)),
{
    let t = h.next(i);
    assert(h.holds(t));
    assert(h.ends(t));
    let d = h.depth(t);
    lemma_hop_front(h, i, d);
    lemma_tip(h, i, d + 1);
}

/// A value cell gives its own payload.
pub proof fn lemma_value_direct(h: Heap, i: int)
    requires
        h.cells[i] is Value,
    ensures
        h.tip(i) == i,
        h.value_at(i) == h.cells[i]->Value_0,
{
    assert(h.settles(i, 0));
    lemma_tip(h, i, 0);
}

/// What is read through a cell depends on the cells alone, not on the roots.
pub proof fn lemma_same_cells_value(h: Heap, g: Heap, i: int)
    requires
        h.cells == g.cells,
        h.ends(i),
    ensures
        g.ends(i),
        h.tip(i) == g.tip(i),
        h.value_at(i) == g.value_at(i),
{
    let d = h.depth(i);
    lemma_same_cells_hop(h, g, i, d);
    assert(g.settles(i, d));
    lemma_tip(h, i, d);
    lemma_tip(g, i, d);
}

/// A reachable cell is found among the survivors at its new index.
pub proof fn lemma_survivor_of(h: Heap, i: int)
    requires
        h.wf(),
        h.reachable(i),
    ensures
        h.holds(i),
        0 <= h.new_index(i) < h.survivors().len(),
        h.survivors()[h.new_index(i)] == i,
        h.collected().holds(h.new_index(i)),
        h.collected().cells[h.new_index(i)] == h.moved(h.cells[i]),
{
    lemma_reachable_in_range(h, i);
    lemma_picked_at_rank(h.live(), h.cells.len() as int, i);
}

/// Every survivor is a reachable cell, and its new index is its place among
/// the survivors.
pub proof fn lemma_survivor_origin(h: Heap, k: int)
    requires
        0 <= k < h.survivors().len(),
    ensures
        h.holds(h.survivors()[k]),
        h.reachable(h.survivors()[k]),
        h.new_index(h.survivors()[k]) == k,
{
    lemma_picked_member(h.live(), h.cells.len() as int, k);
}

/// No more cells survive than there were.
pub proof fn lemma_survivors_bound(h: Heap)
    ensures
        h.collected().cells.len() == h.survivors().len(),
        h.survivors().len() <= h.cells.len(),
        h.collected().roots.len() == h.roots.len(),
{
    lemma_rank_bounds(h.live(), h.cells.len() as int);
}

/// A step in the collected heap is the step of the old heap, renumbered.
pub proof fn lemma_collected_next(h: Heap, i: int)
    requires
        h.wf(),
        h.reachable(i),
    ensures
        h.reachable(h.next(i)),
        h.collected().next(h.new_index(i)) == h.new_index(h.next(i)),
{
    lemma_survivor_of(h, i);
    lemma_reachable_next(h, i);
}

/// A chain in the collected heap is the chain of the old heap, renumbered.
pub proof fn lemma_collected_hop(h: Heap, i: int, n: nat)
    requires
        h.wf(),
        h.reachable(i),
    ensures
        h.reachable(h.hop(i, n)),
        h.collected().hop(h.new_index(i), n) == h.new_index(h.hop(i, n)),
    decreases n,
{
    if n > 0 {
        let m = (n - 1) as nat;
        lemma_collected_hop(h, i, m);
        lemma_collected_next(h, h.hop(i, m));
    }
}

/// A collection keeps the invariant of the heap.
pub proof fn lemma_collected_wf(h: Heap)
    requires
        h.wf(),
    ensures
        h.collected().wf(),
{
    let c = h.collected();
    assert forall|k: int| c.holds(k) implies c.holds(#[trigger] c.next(k)) by {
        lemma_survivor_origin(h, k);
        let i = h.survivors()[k];
        lemma_collected_next(h, i);
        lemma_survivor_of(h, h.next(i));
    }
    assert forall|k: int| c.holds(k) implies #[trigger] c.ends(k) by {
        lemma_survivor_origin(h, k);
        let i = h.survivors()[k];
        assert(h.ends(i));
        let d = h.depth(i);
        lemma_collected_hop(h, i, d);
        lemma_survivor_of(h, h.hop(i, d));
        assert(c.settles(k, d));
    }
    assert forall|j: int| 0 <= j < c.roots.len() implies ((#[trigger] c.roots[j]) matches Some(t)
        ==> c.holds(t)) by {
        if h.roots[j] is Some {
            lemma_root_reachable(h, j);
            lemma_survivor_of(h, h.roots[j]->Some_0);
        }
    }
}

/// Reachability is preserved: a cell that was reachable is a cell of the
/// collected heap, at its new index, and the payload read through it is the
/// one that was read through it before.
pub proof fn lemma_reachable_survives(h: Heap, i: int)
    requires
        h.wf(),
        h.reachable(i),
    ensures
        h.collected().holds(h.new_index(i)),
        h.collected().reachable(h.new_index(i)),
        h.collected().value_at(h.new_index(i)) == h.value_at(i),
{
    let c = h.collected();
    lemma_survivor_of(h, i);
    assert(h.ends(i));
    let d = h.depth(i);
    lemma_collected_hop(h, i, d);
    lemma_survivor_of(h, h.tip(i));
    assert(c.settles(h.new_index(i), d));
    lemma_tip(c, h.new_index(i), d);
    let (j, n) = choose|j: int, n: nat| h.reaches(j, n, i);
    lemma_root_reachable(h, j);
    lemma_collected_hop(h, h.roots[j]->Some_0, n);
    assert(c.reaches(j, n, h.new_index(i)));
}

/// The unreachable is purged: a cell of the collected heap is the image of a
/// reachable cell, never of an unreachable one, and it is itself reachable
/// from the roots as they stand after the collection.
pub proof fn lemma_unreachable_purged(h: Heap, k: int)
    requires
        h.wf(),
        h.collected().holds(k),
    ensures
        h.reachable(h.survivors()[k]),
        h.new_index(h.survivors()[k]) == k,
        h.collected().cells[k] == h.moved(h.cells[h.survivors()[k]]),
        h.collected().reachable(k),
        forall|i: int| h.holds(i) && !h.reachable(i) ==> h.survivors()[k] != i,
{
    lemma_survivor_origin(h, k);
    lemma_reachable_survives(h, h.survivors()[k]);
}

/// References are renumbered consistently: a reachable reference stands at
/// its new index and names the new index of its old target, through which
/// the same payload is read as before.
pub proof fn lemma_reference_remapped(h: Heap, i: int, t: int)
    requires
        h.wf(),
        h.reachable(i),
        h.cells[i] == Cell::Ref(t),
    ensures
        h.collected().cells[h.new_index(i)] == Cell::Ref(h.new_index(t)),
        h.collected().holds(h.new_index(t)),
        h.collected().value_at(h.new_index(t)) == h.value_at(t),
{
    lemma_survivor_of(h, i);
    lemma_reachable_next(h, i);
    lemma_reachable_survives(h, t);
}

/// Roots are renumbered consistently: a root that was set names the new index
/// of its old target, through which the same payload is read as before; a
/// root that was empty stays empty.
pub proof fn lemma_root_remapped(h: Heap, j: int)
    requires
        h.wf(),
        0 <= j < h.roots.len(),
    ensures
        h.collected().roots.len() == h.roots.len(),
        h.roots[j] is None ==> h.collected().roots[j] is None,
        h.roots[j] matches Some(t) ==> {
            &&& h.collected().roots[j] == Some(h.new_index(t))
            &&& h.collected().holds(h.new_index(t))
            &&& h.collected().value_at(h.new_index(t)) == h.value_at(t)
        },
{
    if h.roots[j] is Some {
        lemma_root_reachable(h, j);
        lemma_reachable_survives(h, h.roots[j]->Some_0);
    }
}

/// Every cell is reachable.
pub open spec fn all_reachable(h: Heap) -> bool {
    forall|i: int| h.holds(i) ==> #[trigger] h.reachable(i)
}

/// Collecting a heap without garbage changes nothing.
pub proof fn lemma_nothing_to_collect(h: Heap)
    requires
        h.wf(),
        all_reachable(h),
    ensures
        h.collected() == h,
{
    let c = h.collected();
    let count = h.cells.len() as int;
    lemma_rank_all_set(h.live(), count);
    assert forall|i: int| 0 <= i <= count implies h.new_index(i) == i by {
        lemma_rank_all_set(h.live(), i);
    }
    assert forall|k: int| 0 <= k < count implies c.cells[k] == h.cells[k] by {
        assert(h.holds(h.next(k)));
    }
    assert(c.cells =~= h.cells);
    assert(c.roots =~= h.roots);
}

/// After a collection every cell is reachable.
pub proof fn lemma_collected_all_reachable(h: Heap)
    requires
        h.wf(),
    ensures
        all_reachable(h.collected()),
{
    let c = h.collected();
    assert forall|k: int| c.holds(k) implies #[trigger] c.reachable(k) by {
        lemma_unreachable_purged(h, k);
    }
}

/// A second collection right after the first changes nothing.
pub proof fn lemma_collected_twice(h: Heap)
    requires
        h.wf(),
    ensures
        h.collected().collected() == h.collected(),
{
    lemma_collected_wf(h);
    lemma_collected_all_reachable(h);
    lemma_nothing_to_collect(h.collected());
}

} // verus!
