//! Lemmas on what the arena's single-cell updates do to the invariant of the
//! heap: appending a cell, and overwriting one.

use crate::chain::lemma_hop_front;
use crate::chain::lemma_hop_in_range;
use crate::heap::Cell;
use crate::heap::Heap;
use vstd::prelude::*;

verus! {

/// `after` has every cell of `before` but cell `a` as it was.
pub open spec fn same_but(before: Heap, after: Heap, a: int) -> bool {
    &&& before.cells.len() <= after.cells.len()
    &&& forall|x: int| before.holds(x) && x != a ==> after.cells[x] == before.cells[x]
}

/// A chain that does not pass through the altered cell is unaltered.
pub proof fn lemma_hop_untouched(before: Heap, after: Heap, a: int, i: int, n: nat)
    requires
        before.links_in_range(),
        before.holds(i),
        same_but(before, after, a),
        forall|m: nat| m < n ==> before.hop(i, m) != a,
    ensures
        after.hop(i, n) == before.hop(i, n),
    decreases n,
{
    if n > 0 {
        let m = (n - 1) as nat;
        lemma_hop_untouched(before, after, a, i, m);
        lemma_hop_in_range(before, i, m);
        assert(before.hop(i, m) != a);
    }
}

/// Where the chain from the altered cell ends, every chain ends.
pub proof fn lemma_ends_after(before: Heap, after: Heap, a: int, i: int, n: nat)
    requires
        before.links_in_range(),
        before.holds(i),
        same_but(before, after, a),
        before.holds(a) ==> after.ends(a),
        before.settles(i, n),
    ensures
        after.ends(i),
    decreases n,
{
    if i == a {
    } else if before.cells[i] is Value {
        assert(after.settles(i, 0));
    } else {
        let t = before.next(i);
        assert(n > 0);
        let m = (n - 1) as nat;
        lemma_hop_front(before, i, m);
        assert(before.settles(t, m));
        lemma_ends_after(before, after, a, t, m);
        let k = choose|k: nat| after.settles(t, k);
        assert(after.next(i) == t);
        lemma_hop_front(after, i, k);
        assert(after.settles(i, k + 1));
    }
}

/// Appending a value, or a reference to a cell, keeps the invariant.
pub proof fn lemma_push_keeps_wf(h: Heap, c: Cell)
    requires
        h.wf(),
        c matches Cell::Ref(t) ==> h.holds(t),
    ensures
        (Heap { cells: h.cells.push(c), roots: h.roots }).wf(),
{
    let after = Heap { cells: h.cells.push(c), roots: h.roots };
    let a = h.cells.len() as int;
    assert(same_but(h, after, a));
    assert forall|i: int| after.holds(i) implies after.holds(#[trigger] after.next(i)) by {
        if i < a {
            assert(h.holds(h.next(i)));
        }
    }
    assert forall|i: int| after.holds(i) implies #[trigger] after.ends(i) by {
        if i < a {
            assert(h.ends(i));
            lemma_ends_after(h, after, a, i, h.depth(i));
        } else {
            lemma_new_cell_ends(h, after, c);
        }
    }
}

proof fn lemma_new_cell_ends(h: Heap, after: Heap, c: Cell)
    requires
        h.wf(),
        c matches Cell::Ref(t) ==> h.holds(t),
        after == (Heap { cells: h.cells.push(c), roots: h.roots }),
    ensures
        after.ends(h.cells.len() as int),
{
    let a = h.cells.len() as int;
    assert(same_but(h, after, a));
    match c {
        Cell::Value(_) => {
            assert(after.settles(a, 0));
        },
        Cell::Ref(t) => {
            assert(h.ends(t));
            lemma_ends_after(h, after, a, t, h.depth(t));
            let k = choose|k: nat| after.settles(t, k);
            assert(after.next(a) == t);
            lemma_hop_front(after, a, k);
            assert(after.settles(a, k + 1));
        },
    }
}

/// Changing the root table keeps the invariant, where the roots still name
/// cells.
pub proof fn lemma_new_roots_keep_wf(h: Heap, roots: Seq<Option<int>>)
    requires
        h.wf(),
        (Heap { cells: h.cells, roots }).roots_in_range(),
    ensures
        (Heap { cells: h.cells, roots }).wf(),
{
    let after = Heap { cells: h.cells, roots };
    assert(same_but(h, after, -1));
    assert forall|i: int| after.holds(i) implies after.holds(#[trigger] after.next(i)) by {
        assert(h.holds(h.next(i)));
    }
    assert forall|i: int| after.holds(i) implies #[trigger] after.ends(i) by {
        assert(h.ends(i));
        lemma_ends_after(h, after, -1, i, h.depth(i));
    }
}

/// Overwriting a cell with a value keeps the invariant.
pub proof fn lemma_set_value_keeps_wf(h: Heap, a: int, v: u64)
    requires
        h.wf(),
        h.holds(a),
    ensures
        (Heap { cells: h.cells.update(a, Cell::Value(v)), roots: h.roots }).wf(),
{
    let after = Heap { cells: h.cells.update(a, Cell::Value(v)), roots: h.roots };
    assert(same_but(h, after, a));
    assert(after.settles(a, 0));
    assert forall|i: int| after.holds(i) implies after.holds(#[trigger] after.next(i)) by {
        if i != a {
            assert(h.holds(h.next(i)));
        }
    }
    assert forall|i: int| after.holds(i) implies #[trigger] after.ends(i) by {
        assert(h.ends(i));
        lemma_ends_after(h, after, a, i, h.depth(i));
    }
}

/// Overwriting cell `a` with a reference to cell `b` keeps the invariant,
/// unless the chain from `b` passes through `a`.
pub proof fn lemma_set_ref_keeps_wf(h: Heap, a: int, b: int)
    requires
        h.wf(),
        h.holds(a),
        h.holds(b),
        !h.leads_to(b, a),
    ensures
        (Heap { cells: h.cells.update(a, Cell::Ref(b)), roots: h.roots }).wf(),
{
    let after = Heap { cells: h.cells.update(a, Cell::Ref(b)), roots: h.roots };
    assert(same_but(h, after, a));
    assert forall|i: int| after.holds(i) implies after.holds(#[trigger] after.next(i)) by {
        if i != a {
            assert(h.holds(h.next(i)));
        }
    }
    assert(after.ends(a)) by {
        assert(h.ends(b));
        let d = h.depth(b);
        assert forall|m: nat| m < d implies h.hop(b, m) != a by {
            if h.hop(b, m) == a {
                assert(h.leads_to(b, a));
            }
        }
        lemma_hop_untouched(h, after, a, b, d);
        lemma_hop_in_range(h, b, d);
        if h.hop(b, d) == a {
            assert(h.leads_to(b, a));
        }
        assert(after.settles(b, d));
        assert(after.next(a) == b);
        lemma_hop_front(after, a, d);
        assert(after.settles(a, d + 1));
    }
    assert forall|i: int| after.holds(i) implies #[trigger] after.ends(i) by {
        assert(h.ends(i));
        lemma_ends_after(h, after, a, i, h.depth(i));
    }
}

} // verus!
