//! The mathematical model of an arena: a sequence of cells, a root table, and
//! what it means for a cell to be reachable and for a heap to be collected.

use crate::marks::picked;
use crate::marks::rank;
use vstd::prelude::*;

verus! {

/// What one cell holds: a payload word, or the index of another cell.
pub enum Cell {
    Value(u64),
    Ref(int),
}

/// The contents of an arena.
pub struct Heap {
    /// The cells, by index.
    pub cells: Seq<Cell>,
    /// The root table: each entry is empty or names a cell.
    pub roots: Seq<Option<int>>,
}

impl Heap {
    /// `i` is the index of a cell.
    pub open spec fn holds(self, i: int) -> bool {
        0 <= i < self.cells.len()
    }

    /// Where one step from cell `i` leads: to the target of a reference, and
    /// nowhere from a value.
    pub open spec fn next(self, i: int) -> int {
        match self.cells[i] {
            Cell::Ref(t) => t,
            Cell::Value(_) => i,
        }
    }

    /// Where `n` steps from cell `i` lead.
    pub open spec fn hop(self, i: int, n: nat) -> int
        decreases n,
    {
        if n == 0 {
            i
        } else {
            self.next(self.hop(i, (n - 1) as nat))
        }
    }

    /// `n` steps from cell `i` end at a value.
    pub open spec fn settles(self, i: int, n: nat) -> bool {
        self.cells[self.hop(i, n)] is Value
    }

    /// The chain of references that starts at cell `i` comes to a value.
    pub open spec fn ends(self, i: int) -> bool {
        exists|n: nat| self.settles(i, n)
    }

    /// Some number of steps from cell `from` lead to cell `to`.
    pub open spec fn leads_to(self, from: int, to: int) -> bool {
        exists|n: nat| self.hop(from, n) == to
    }

    /// Every reference names a cell.
    pub open spec fn links_in_range(self) -> bool {
        forall|i: int| self.holds(i) ==> self.holds(#[trigger] self.next(i))
    }

    /// No chain of references runs forever.
    pub open spec fn acyclic(self) -> bool {
        forall|i: int| self.holds(i) ==> #[trigger] self.ends(i)
    }

    /// Every root that is set names a cell.
    pub open spec fn roots_in_range(self) -> bool {
        forall|j: int|
            0 <= j < self.roots.len() ==> ((#[trigger] self.roots[j]) matches Some(t)
                ==> self.holds(t))
    }

    /// The invariant of a heap: references and roots name cells, and every
    /// chain of references is finite.
    pub open spec fn wf(self) -> bool {
        &&& self.links_in_range()
        &&& self.acyclic()
        &&& self.roots_in_range()
    }

    /// A number of steps after which the chain from cell `i` has come to its
    /// value.
    pub open spec fn depth(self, i: int) -> nat {
        choose|n: nat| self.settles(i, n)
    }

    /// The cell at which the chain from cell `i` ends.
    pub open spec fn tip(self, i: int) -> int {
        self.hop(i, self.depth(i))
    }

    /// The payload that is read through cell `i`.
    pub open spec fn value_at(self, i: int) -> u64 {
        match self.cells[self.tip(i)] {
            Cell::Value(v) => v,
            Cell::Ref(_) => arbitrary(),
        }
    }

    /// Root `j` is set, and `n` steps from the cell it names lead to cell `i`.
    pub open spec fn reaches(self, j: int, n: nat, i: int) -> bool {
        &&& 0 <= j < self.roots.len()
        &&& self.roots[j] matches Some(s) && self.hop(s, n) == i
    }

    /// Cell `i` is named by a root, or by a reference in a reachable cell.
    pub open spec fn reachable(self, i: int) -> bool {
        exists|j: int, n: nat| self.reaches(j, n, i)
    }

    /// For each cell, whether it is reachable.
    pub open spec fn live(self) -> Seq<bool> {
        Seq::new(self.cells.len(), |i: int| self.reachable(i))
    }

    /// The indices of the reachable cells, in increasing order.
    pub open spec fn survivors(self) -> Seq<int> {
        picked(self.live())
    }

    /// The index that cell `i` has after a collection: the number of
    /// reachable cells before it.
    pub open spec fn new_index(self, i: int) -> int {
        rank(self.live(), i)
    }

    /// A cell as it stands after a collection: a value unchanged, a reference
    /// with the new index of its target.
    pub open spec fn moved(self, c: Cell) -> Cell {
        match c {
            Cell::Value(v) => Cell::Value(v),
            Cell::Ref(t) => Cell::Ref(self.new_index(t)),
        }
    }

    /// A root as it stands after a collection.
    pub open spec fn moved_root(self, r: Option<int>) -> Option<int> {
        match r {
            Some(t) => Some(self.new_index(t)),
            None => None,
        }
    }

    /// The heap after a collection: the reachable cells in their old order,
    /// and every reference and root renumbered accordingly.
    pub open spec fn collected(self) -> Heap {
        Heap {
            cells: Seq::new(
                self.survivors().len(),
                |k: int| self.moved(self.cells[self.survivors()[k]]),
            ),
            roots: Seq::new(self.roots.len(), |j: int| self.moved_root(self.roots[j])),
        }
    }
}

} // verus!
