//! The steps of a collection: mark what the roots reach, list what is kept,
//! move it to the front, and renumber every reference and root.

use crate::arena::cells_of;
use crate::arena::index_space;
use crate::arena::root_of;
use crate::arena::roots_of;
use crate::arena::ArenaHandle;
use crate::chain::closed_under_next;
use crate::chain::holds_roots;
use crate::chain::lemma_marks_are_live;
use crate::chain::lemma_reachable_in_range;
use crate::chain::lemma_reachable_next;
use crate::chain::lemma_root_reachable;
use crate::chain::only_reachable;
use crate::handle::Handle;
use crate::heap::Heap;
use crate::marks::lemma_picked_at_rank;
use crate::marks::lemma_picked_increasing;
use crate::marks::lemma_picked_member;
use crate::marks::lemma_rank_bounds;
use crate::marks::lemma_rank_grows;
use crate::marks::lemma_rank_within;
use crate::marks::picked;
use crate::marks::picked_below;
use crate::marks::rank;
use crate::marks::within;
use vstd::prelude::*;

verus! {

/// The heap that a vector of cells and a root table stand for.
pub open spec fn heap_of<'a>(
    data: Seq<ArenaHandle<'a>>,
    roots: Seq<Option<Handle<'a>>>,
) -> Heap {
    Heap { cells: cells_of(data), roots: roots_of(roots) }
}

/// One of the first `upto` roots names cell `i`.
pub open spec fn named_below(roots: Seq<Option<int>>, upto: int, i: int) -> bool {
    exists|j: int| 0 <= j < upto && #[trigger] roots[j] == Some(i)
}

/// The list of kept indices, as integers.
pub open spec fn indices(kept: Seq<u32>) -> Seq<int> {
    Seq::new(kept.len(), |k: int| kept[k] as int)
}

/// Each element is less than the next.
pub open spec fn increasing(kept: Seq<u32>) -> bool {
    forall|a: int, b: int| 0 <= a < b < kept.len() ==> kept[a] < kept[b]
}

/// The seed of the marking: of `count` cells, exactly those that a root names.
pub(crate) fn seed<'a>(count: usize, roots: &Vec<Option<Handle<'a>>>) -> (marks: Vec<bool>)
    requires
        forall|j: int|
            0 <= j < roots.len() ==> ((#[trigger] roots[j]) matches Some(h) ==> 0 <= h@ < count),
    ensures
        marks.len() == count,
        forall|i: int|
            0 <= i < count ==> (marks[i] <==> named_below(
                roots_of(roots@),
                roots.len() as int,
                i,
            )),
{
    let mut marks: Vec<bool> = Vec::new();
    while marks.len() < count
        invariant
            marks.len() <= count,
            forall|i: int| 0 <= i < marks.len() ==> !marks[i],
        decreases count - marks.len(),
    {
        marks.push(false);
    }
    let mut j: usize = 0;
    while j < roots.len()
        invariant
            j <= roots.len(),
            marks.len() == count,
            forall|j: int|
                0 <= j < roots.len() ==> ((#[trigger] roots[j]) matches Some(h) ==> 0 <= h@
                    < count),
            forall|i: int|
                0 <= i < count ==> (marks[i] <==> named_below(roots_of(roots@), j as int, i)),
        decreases roots.len() - j,
    {
        let ghost before = marks@;
        match &roots[j] {
            Some(h) => {
                let target = h.index() as usize;
                marks[target] = true;
            },
            None => {},
        }
        proof {
            let table = roots_of(roots@);
            assert forall|i: int| 0 <= i < count implies (marks[i] <==> named_below(
                table,
                j + 1,
                i,
            )) by {
                if named_below(table, j + 1, i) {
                    let w = choose|w: int| 0 <= w < j + 1 && #[trigger] table[w] == Some(i);
                    if w < j {
                        assert(named_below(table, j as int, i));
                    }
                }
                if before[i] {
                    assert(named_below(table, j as int, i));
                    let w = choose|w: int| 0 <= w < j && #[trigger] table[w] == Some(i);
                    assert(0 <= w < j + 1 && table[w] == Some(i));
                }
                if marks[i] && !before[i] {
                    assert(table[j as int] == Some(i));
                }
            }
        }
        j += 1;
    }
    marks
}

/// One pass of the marking: for every marked cell that is a reference, marks
/// its target. Says whether a mark was added.
pub(crate) fn mark_pass<'a>(
    data: &Vec<ArenaHandle<'a>>,
    marks: &mut Vec<bool>,
    Ghost(h): Ghost<Heap>,
) -> (grew: bool)
    requires
        h.cells == cells_of(data@),
        h.links_in_range(),
        old(marks).len() == data.len(),
        only_reachable(h, old(marks)@),
    ensures
        within(old(marks)@, final(marks)@),
        only_reachable(h, final(marks)@),
        grew ==> rank(old(marks)@, data.len() as int) < rank(final(marks)@, data.len() as int),
        !grew ==> final(marks)@ == old(marks)@ && closed_under_next(h, final(marks)@),
{
    let count = data.len();
    let mut grew = false;
    let mut i: usize = 0;
    while i < count
        invariant
            i <= count,
            count == data.len(),
            marks.len() == count,
            h.cells == cells_of(data@),
            h.links_in_range(),
            within(old(marks)@, marks@),
            only_reachable(h, marks@),
            grew ==> rank(old(marks)@, count as int) < rank(marks@, count as int),
            !grew ==> marks@ == old(marks)@,
            !grew ==> forall|x: int| 0 <= x < i && marks[x] ==> marks[#[trigger] h.next(x)],
        decreases count - i,
    {
        if marks[i] {
            match &data[i] {
                ArenaHandle::Ref(t) => {
                    assert(h.next(i as int) == t@);
                    assert(h.holds(h.next(i as int)));
                    let target = t.index() as usize;
                    if !marks[target] {
                        let ghost before = marks@;
                        marks[target] = true;
                        grew = true;
                        proof {
                            lemma_reachable_next(h, i as int);
                            lemma_rank_within(old(marks)@, before, count as int);
                            lemma_rank_grows(before, marks@, count as int, target as int);
                        }
                    }
                },
                ArenaHandle::Value(_) => {
                    assert(h.next(i as int) == i);
                },
            }
        }
        i += 1;
    }
    grew
}

/// The marking: the cells that the roots name, and then, pass after pass,
/// what those refer to, until a pass adds nothing. Each pass that goes on adds
/// a mark, and there are no more marks than cells.
pub(crate) fn mark<'a>(data: &Vec<ArenaHandle<'a>>, roots: &Vec<Option<Handle<'a>>>) -> (marks:
    Vec<bool>)
    requires
        heap_of(data@, roots@).links_in_range(),
        heap_of(data@, roots@).roots_in_range(),
    ensures
        marks@ == heap_of(data@, roots@).live(),
{
    let ghost h = heap_of(data@, roots@);
    let count = data.len();
    proof {
        assert forall|j: int| 0 <= j < roots.len() implies ((#[trigger] roots[j]) matches Some(t)
            ==> 0 <= t@ < count) by {
            assert(h.roots[j] == root_of(roots[j]));
        }
    }
    let mut marks = seed(count, roots);
    proof {
        assert forall|i: int| h.holds(i) && #[trigger] marks[i] implies h.reachable(i) by {
            let j = choose|j: int| 0 <= j < roots.len() && #[trigger] h.roots[j] == Some(i);
            lemma_root_reachable(h, j);
        }
        assert forall|j: int| 0 <= j < h.roots.len() implies ((#[trigger] h.roots[j]) matches Some(
            t,
        ) ==> marks[t]) by {
            if h.roots[j] is Some {
                let t = h.roots[j]->Some_0;
                assert(h.holds(t));
                assert(named_below(h.roots, roots.len() as int, t));
            }
        }
    }
    loop
        invariant
            count == data.len(),
            marks.len() == count,
            h == heap_of(data@, roots@),
            h.links_in_range(),
            h.roots_in_range(),
            only_reachable(h, marks@),
            holds_roots(h, marks@),
        ensures
            closed_under_next(h, marks@),
        decreases count - rank(marks@, count as int),
    {
        proof {
            lemma_rank_bounds(marks@, count as int);
        }
        let ghost before = marks@;
        let grew = mark_pass(data, &mut marks, Ghost(h));
        proof {
            lemma_rank_bounds(marks@, count as int);
        }
        if !grew {
            break ;
        }
    }
    proof {
        lemma_marks_are_live(h, marks@);
    }
    marks
}

/// The indices that `marks` has set, in increasing order.
pub(crate) fn retained(marks: &Vec<bool>) -> (kept: Vec<u32>)
    requires
        marks.len() <= index_space(),
    ensures
        indices(kept@) == picked(marks@),
{
    let mut kept: Vec<u32> = Vec::new();
    let mut i: usize = 0;
    while i < marks.len()
        invariant
            i <= marks.len(),
            marks.len() <= index_space(),
            indices(kept@) == picked_below(marks@, i as int),
        decreases marks.len() - i,
    {
        if marks[i] {
            let ghost before = kept@;
            kept.push(i as u32);
            assert(indices(kept@) =~= indices(before).push(i as int));
        }
        i += 1;
    }
    kept
}

/// Where `target` stands in the increasing list `kept`, if it is there.
pub(crate) fn position(kept: &Vec<u32>, target: u32) -> (found: Option<usize>)
    requires
        increasing(kept@),
    ensures
        match found {
            Some(k) => k < kept.len() && kept[k as int] == target,
            None => forall|k: int| 0 <= k < kept.len() ==> kept[k] != target,
        },
{
    let mut low: usize = 0;
    let mut high: usize = kept.len();
    while low < high
        invariant
            low <= high <= kept.len(),
            increasing(kept@),
            forall|k: int| 0 <= k < low ==> kept[k] < target,
            forall|k: int| high <= k < kept.len() ==> kept[k] > target,
        decreases high - low,
    {
        let middle = low + (high - low) / 2;
        let here = kept[middle];
        if here == target {
            return Some(middle);
        } else if here < target {
            low = middle + 1;
        } else {
            high = middle;
        }
    }
    None
}

/// What is known of the list of kept indices once the marking is done: it is
/// the increasing list of the reachable cells of `h`.
pub open spec fn lists_survivors(kept: Seq<u32>, h: Heap) -> bool {
    &&& h.links_in_range()
    &&& h.roots_in_range()
    &&& h.cells.len() <= index_space()
    &&& indices(kept) == h.survivors()
}

/// The list of survivors is increasing, and it has every reachable cell at
/// the place of its new index.
pub proof fn lemma_survivor_list(kept: Seq<u32>, h: Heap)
    requires
        lists_survivors(kept, h),
    ensures
        increasing(kept),
        kept.len() <= h.cells.len(),
        forall|k: int|
            0 <= k < kept.len() ==> k <= #[trigger] kept[k] < h.cells.len() && h.reachable(
                kept[k] as int,
            ) && h.new_index(kept[k] as int) == k,
        forall|i: int|
            h.reachable(i) ==> 0 <= #[trigger] h.new_index(i) < kept.len() && kept[h.new_index(
                i,
            )] == i,
{
    let live = h.live();
    let count = live.len() as int;
    lemma_rank_bounds(live, count);
    assert(indices(kept).len() == kept.len());
    assert forall|k: int| 0 <= k < kept.len() implies k <= #[trigger] kept[k] < h.cells.len()
        && h.reachable(kept[k] as int) && h.new_index(kept[k] as int) == k by {
        assert(indices(kept)[k] == kept[k]);
        lemma_picked_member(live, count, k);
        lemma_rank_bounds(live, kept[k] as int);
    }
    assert forall|a: int, b: int| 0 <= a < b < kept.len() implies kept[a] < kept[b] by {
        assert(indices(kept)[a] == kept[a]);
        assert(indices(kept)[b] == kept[b]);
        lemma_picked_increasing(live, count, a, b);
    }
    assert forall|i: int| h.reachable(i) implies 0 <= #[trigger] h.new_index(i) < kept.len()
        && kept[h.new_index(i)] == i by {
        lemma_reachable_in_range(h, i);
        lemma_picked_at_rank(live, count, i);
        assert(indices(kept)[h.new_index(i)] == kept[h.new_index(i)]);
    }
}

/// The new index of a reachable cell, found in the list of survivors.
pub(crate) fn new_index_of(kept: &Vec<u32>, old_index: u32, Ghost(h): Ghost<Heap>) -> (new_index:
    u32)
    requires
        lists_survivors(kept@, h),
        h.reachable(old_index as int),
    ensures
        new_index == h.new_index(old_index as int),
{
    proof {
        lemma_survivor_list(kept@, h);
    }
    let found = position(kept, old_index);
    assert(found is Some) by {
        assert(kept[h.new_index(old_index as int)] == old_index);
    }
    found.unwrap() as u32
}

/// Moves the kept cells to the front, in their order, with every reference
/// renumbered, and drops the rest.
pub(crate) fn compact<'a>(data: &mut Vec<ArenaHandle<'a>>, kept: &Vec<u32>, Ghost(h): Ghost<Heap>)
    requires
        lists_survivors(kept@, h),
        cells_of(old(data)@) == h.cells,
    ensures
        cells_of(final(data)@) == h.collected().cells,
{
    let count = kept.len();
    proof {
        lemma_survivor_list(kept@, h);
        assert(cells_of(data@).len() == data.len());
    }
    let mut k: usize = 0;
    while k < count
        invariant
            k <= count,
            count == kept.len(),
            lists_survivors(kept@, h),
            data.len() == h.cells.len(),
            count <= data.len(),
            forall|x: int| 0 <= x < k ==> (#[trigger] data[x])@ == h.moved(h.cells[kept[x] as int]),
            forall|x: int| k <= x < data.len() ==> (#[trigger] data[x])@ == h.cells[x],
        decreases count - k,
    {
        proof {
            lemma_survivor_list(kept@, h);
        }
        let from = kept[k] as usize;
        let cell = match &data[from] {
            ArenaHandle::Value(v) => ArenaHandle::Value(*v),
            ArenaHandle::Ref(t) => {
                proof {
                    assert(h.next(from as int) == t@);
                    lemma_reachable_next(h, from as int);
                }
                ArenaHandle::Ref(Handle::new(new_index_of(kept, t.index(), Ghost(h))))
            },
        };
        data[k] = cell;
        k += 1;
    }
    data.truncate(count);
    proof {
        let after = h.collected().cells;
        assert(indices(kept@).len() == kept.len());
        assert forall|x: int| 0 <= x < count implies cells_of(data@)[x] == after[x] by {
            assert(indices(kept@)[x] == kept[x]);
        }
        assert(cells_of(data@) =~= after);
    }
}

/// Renumbers every root that is set.
pub(crate) fn remap_roots<'a>(
    roots: &mut Vec<Option<Handle<'a>>>,
    kept: &Vec<u32>,
    Ghost(h): Ghost<Heap>,
)
    requires
        lists_survivors(kept@, h),
        roots_of(old(roots)@) == h.roots,
    ensures
        roots_of(final(roots)@) == h.collected().roots,
{
    let count = roots.len();
    proof {
        assert(roots_of(roots@).len() == roots.len());
    }
    let mut j: usize = 0;
    while j < count
        invariant
            j <= count,
            count == roots.len(),
            count == h.roots.len(),
            lists_survivors(kept@, h),
            forall|x: int| 0 <= x < j ==> root_of(#[trigger] roots[x]) == h.moved_root(h.roots[x]),
            forall|x: int| j <= x < count ==> root_of(#[trigger] roots[x]) == h.roots[x],
        decreases count - j,
    {
        let moved = match &roots[j] {
            Some(t) => {
                proof {
                    assert(h.roots[j as int] == Some(t@));
                    lemma_root_reachable(h, j as int);
                }
                Some(Handle::new(new_index_of(kept, t.index(), Ghost(h))))
            },
            None => None,
        };
        roots[j] = moved;
        j += 1;
    }
    proof {
        assert(roots_of(roots@) =~= h.collected().roots);
    }
}

} // verus!
