//! The arena: the store of cells with its root table, and what handles do
//! with it.

use crate::chain::lemma_tip;
use crate::collect::compact;
use crate::collect::mark;
use crate::collect::remap_roots;
use crate::collect::retained;
use crate::handle::Global;
use crate::handle::Handle;
use crate::heap::Cell;
use crate::heap::Heap;
use crate::laws::lemma_collected_wf;
use crate::laws::lemma_survivors_bound;
use crate::token::Gc;
use crate::update::lemma_new_roots_keep_wf;
use crate::update::lemma_push_keeps_wf;
use crate::update::lemma_set_ref_keeps_wf;
use crate::update::lemma_set_value_keeps_wf;
use vstd::prelude::*;

verus! {

/// One cell of an arena: a payload word, or a reference to another cell.
///
/// The payload is an opaque 64-bit word. A host that stores doubles keeps their
/// bit patterns.
#[derive(Debug)]
pub enum ArenaHandle<'a> {
    Value(u64),
    Ref(Handle<'a>),
}

impl<'a> View for ArenaHandle<'a> {
    type V = Cell;

    open spec fn view(&self) -> Cell {
        match self {
            ArenaHandle::Value(v) => Cell::Value(*v),
            ArenaHandle::Ref(h) => Cell::Ref(h@),
        }
    }
}

/// The cells that a vector of cells stands for.
pub open spec fn cells_of<'a>(data: Seq<ArenaHandle<'a>>) -> Seq<Cell> {
    Seq::new(data.len(), |i: int| data[i]@)
}

/// The root that an entry of the root table stands for.
pub open spec fn root_of<'a>(entry: Option<Handle<'a>>) -> Option<int> {
    match entry {
        Some(h) => Some(h@),
        None => None,
    }
}

/// The roots that a root table stands for.
pub open spec fn roots_of<'a>(roots: Seq<Option<Handle<'a>>>) -> Seq<Option<int>> {
    Seq::new(roots.len(), |j: int| root_of(roots[j]))
}

/// The most cells, and the most roots, that 32-bit indices can name.
pub open spec fn index_space() -> int {
    0x1_0000_0000
}

/// A growable store of cells, and the table of roots that a collection starts
/// from.
///
/// Cells name each other by index, so that a collection is free to move them.
/// Indices are stable between collections and are assigned anew by each.
#[derive(Debug)]
pub struct Arena<'a> {
    data: Vec<ArenaHandle<'a>>,
    roots: Vec<Option<Handle<'a>>>,
}

impl<'a> View for Arena<'a> {
    type V = Heap;

    closed spec fn view(&self) -> Heap {
        Heap { cells: cells_of(self.data@), roots: roots_of(self.roots@) }
    }
}

impl<'a> Arena<'a> {
    /// The invariant of an arena: that of its heap, and no more cells or roots
    /// than 32-bit indices can name.
    pub open spec fn wf(&self) -> bool {
        &&& self@.wf()
        &&& self@.cells.len() <= index_space()
        &&& self@.roots.len() <= index_space()
    }

    /// An arena with room for `capacity` cells, and the one token that gives
    /// the right to collect it.
    ///
    /// The arena starts with one cell, a zero payload, which the first root
    /// names: a collection never leaves the arena empty.
    pub fn new(capacity: usize) -> (made: (Self, Gc<'a>))
        ensures
            made.0.wf(),
            made.0@.cells == seq![Cell::Value(0)],
            made.0@.roots == seq![Some(0int)],
    {
        let mut arena = Arena { data: Vec::with_capacity(capacity), roots: Vec::with_capacity(8) };
        proof {
            assert(arena@.cells =~= Seq::empty());
            assert(arena@.roots =~= Seq::empty());
            assert(arena@.wf());
        }
        let root = arena.allocate(0);
        let ghost filled = arena@;
        arena.roots.push(Some(root));
        proof {
            assert(arena@.cells =~= seq![Cell::Value(0)]);
            assert(arena@.roots =~= seq![Some(0int)]);
            lemma_new_roots_keep_wf(filled, arena@.roots);
        }
        (arena, Gc::new())
    }

    /// The number of cells.
    pub fn len(&self) -> (n: usize)
        ensures
            n == self@.cells.len(),
    {
        self.data.len()
    }

    /// The number of entries of the root table, empty ones included.
    pub fn root_count(&self) -> (n: usize)
        ensures
            n == self@.roots.len(),
    {
        self.roots.len()
    }

    /// Appends a cell that holds `value`, and returns its handle.
    pub fn allocate<'l>(&mut self, value: u64) -> (handle: Handle<'l>) where 'a: 'l
        requires
            old(self).wf(),
            old(self)@.cells.len() < index_space(),
        ensures
            final(self).wf(),
            final(self)@.cells == old(self)@.cells.push(Cell::Value(value)),
            final(self)@.roots == old(self)@.roots,
            handle@ == old(self)@.cells.len(),
    {
        let index = self.data.len() as u32;
        proof {
            lemma_push_keeps_wf(self@, Cell::Value(value));
        }
        self.data.push(ArenaHandle::Value(value));
        proof {
            assert(self@.cells =~= old(self)@.cells.push(Cell::Value(value)));
        }
        Handle::new(index)
    }

    /// Appends a cell that refers to the cell of `handle`, and returns the
    /// handle of the new cell. It lives in the region of `handle`: a reference
    /// does not outlive what it refers to.
    pub fn store<'h>(&mut self, handle: Handle<'h>) -> (stored: Handle<'h>) where 'a: 'h
        requires
            old(self).wf(),
            old(self)@.cells.len() < index_space(),
            old(self)@.holds(handle@),
        ensures
            final(self).wf(),
            final(self)@.cells == old(self)@.cells.push(Cell::Ref(handle@)),
            final(self)@.roots == old(self)@.roots,
            stored@ == old(self)@.cells.len(),
    {
        let index = self.data.len() as u32;
        proof {
            lemma_push_keeps_wf(self@, Cell::Ref(handle@));
        }
        self.data.push(ArenaHandle::Ref(handle));
        proof {
            assert(self@.cells =~= old(self)@.cells.push(Cell::Ref(handle@)));
        }
        Handle::new(index)
    }

    /// Collects the arena.
    ///
    /// What a root names is kept, and so is what a kept reference refers to;
    /// every other cell is dropped. The kept cells move to the front in their
    /// order, and every reference and every root is renumbered to name the
    /// same cell as before. The root table keeps its length. The token comes
    /// back; while it was away, no handle of its region could be in use.
    pub fn gc<'gc>(&mut self, gc: Gc<'gc>) -> (token: Gc<'gc>) where 'a: 'gc
        requires
            old(self).wf(),
        ensures
            final(self).wf(),
            final(self)@ == old(self)@.collected(),
            token == gc,
    {
        let ghost before = self@;
        let marks = mark(&self.data, &self.roots);
        let kept = retained(&marks);
        compact(&mut self.data, &kept, Ghost(before));
        remap_roots(&mut self.roots, &kept, Ghost(before));
        proof {
            lemma_collected_wf(before);
            lemma_survivors_bound(before);
        }
        gc
    }
}

impl<'a> Handle<'a> {
    /// Registers the handle in the root table of `arena`, and returns the
    /// name of the new entry. What the handle names is then kept by every
    /// collection, until the entry is taken out again.
    pub fn scope<'ar>(self, arena: &mut Arena<'ar>) -> (global: Global<'ar>) where 'ar: 'a
        requires
            old(arena).wf(),
            old(arena)@.holds(self@),
            old(arena)@.roots.len() < index_space(),
        ensures
            final(arena).wf(),
            final(arena)@.cells == old(arena)@.cells,
            final(arena)@.roots == old(arena)@.roots.push(Some(self@)),
            global@ == old(arena)@.roots.len(),
    {
        let index = arena.roots.len();
        arena.roots.push(Some(self));
        proof {
            assert(arena@.roots =~= old(arena)@.roots.push(Some(self@)));
            lemma_new_roots_keep_wf(old(arena)@, arena@.roots);
        }
        Global::new(index as u32)
    }

    /// Overwrites the cell with a payload.
    pub fn set_value(&self, arena: &mut Arena<'a>, value: u64)
        requires
            old(arena).wf(),
            old(arena)@.holds(self@),
        ensures
            final(arena).wf(),
            final(arena)@.cells == old(arena)@.cells.update(self@, Cell::Value(value)),
            final(arena)@.roots == old(arena)@.roots,
    {
        proof {
            lemma_set_value_keeps_wf(arena@, self@, value);
        }
        let contents = self.get_mut(arena);
        *contents = ArenaHandle::Value(value);
        proof {
            assert(arena@.cells =~= old(arena)@.cells.update(self@, Cell::Value(value)));
        }
    }

    /// Overwrites the cell with a reference to the cell of `handle`.
    ///
    /// The chain of references from `handle` must not pass through this cell:
    /// the new reference would close a cycle.
    pub fn set_handle(&self, arena: &mut Arena<'a>, handle: Handle<'a>)
        requires
            old(arena).wf(),
            old(arena)@.holds(self@),
            old(arena)@.holds(handle@),
            !old(arena)@.leads_to(handle@, self@),
        ensures
            final(arena).wf(),
            final(arena)@.cells == old(arena)@.cells.update(self@, Cell::Ref(handle@)),
            final(arena)@.roots == old(arena)@.roots,
    {
        proof {
            lemma_set_ref_keeps_wf(arena@, self@, handle@);
        }
        let contents = self.get_mut(arena);
        *contents = ArenaHandle::Ref(handle);
        proof {
            assert(arena@.cells =~= old(arena)@.cells.update(self@, Cell::Ref(handle@)));
        }
    }

    /// The payload that is read through the cell: its own, or the one at the
    /// end of the chain of references that starts at it.
    pub fn get_value<'arena>(&self, arena: &'arena Arena<'a>) -> (value: &'arena u64)
        requires
            arena.wf(),
            arena@.holds(self@),
        ensures
            *value == arena@.value_at(self@),
    {
        let ghost h = arena@;
        let ghost depth = h.depth(self@);
        assert(h.ends(self@));
        let mut at = *self;
        let ghost mut steps: nat = 0;
        loop
            invariant
                h == arena@,
                h.wf(),
                h.holds(at@),
                depth == h.depth(self@),
                h.settles(self@, depth),
                at@ == h.hop(self@, steps),
                steps <= depth,
            decreases depth - steps,
        {
            match at.get(arena) {
                ArenaHandle::Value(v) => {
                    proof {
                        lemma_tip(h, self@, steps);
                    }
                    return v;
                },
                ArenaHandle::Ref(target) => {
                    proof {
                        assert(h.next(at@) == target@);
                        assert(h.holds(h.next(at@)));
                        steps = steps + 1;
                    }
                    at = target.copy();
                },
            }
        }
    }

    /// The cell that the handle names.
    pub fn get<'arena>(&self, arena: &'arena Arena<'a>) -> (cell: &'arena ArenaHandle<'a>)
        requires
            arena@.holds(self@),
        ensures
            cell@ == arena@.cells[self@],
    {
        &arena.data[self.index() as usize]
    }

    /// The cell that the handle names, to be overwritten. Whoever writes to it
    /// answers for the invariant of the arena.
    pub(crate) fn get_mut<'arena>(&self, arena: &'arena mut Arena<'a>) -> (cell: &'arena mut ArenaHandle<
        'a,
    >)
        requires
            old(arena)@.holds(self@),
        ensures
            cell@ == old(arena)@.cells[self@],
            final(arena)@.cells =~= old(arena)@.cells.update(self@, final(cell)@),
            final(arena)@.roots == old(arena)@.roots,
    {
        &mut arena.data[self.index() as usize]
    }
}

impl<'a> Global<'a> {
    /// The handle that is registered under this name, as it stands now.
    pub fn get(&self, arena: &Arena<'a>) -> (handle: Handle<'a>)
        requires
            0 <= self@ < arena@.roots.len(),
            arena@.roots[self@] is Some,
        ensures
            Some(handle@) == arena@.roots[self@],
    {
        arena.roots[self.index() as usize].as_ref().unwrap().copy()
    }

    /// Takes the handle out of the root table. The entry stays, empty, so
    /// that the other names keep their meaning.
    pub fn take<'l>(self, arena: &mut Arena) -> (handle: Handle<'l>) where 'a: 'l
        requires
            old(arena).wf(),
            0 <= self@ < old(arena)@.roots.len(),
            old(arena)@.roots[self@] is Some,
        ensures
            final(arena).wf(),
            Some(handle@) == old(arena)@.roots[self@],
            final(arena)@.cells == old(arena)@.cells,
            final(arena)@.roots == old(arena)@.roots.update(self@, None),
    {
        let taken = arena.roots[self.index() as usize].take();
        proof {
            assert(arena@.roots =~= old(arena)@.roots.update(self@, None));
            lemma_new_roots_keep_wf(old(arena)@, arena@.roots);
        }
        taken.unwrap().local()
    }
}

} // verus!
