//! Handles: indices into an arena, tagged with a region.

use crate::region::Contravariant;
use std::cmp::Ordering;
use vstd::prelude::*;
use vstd::std_specs::cmp::PartialEqSpecImpl;
use vstd::std_specs::cmp::PartialOrdSpecImpl;

verus! {

/// The name of one cell of an arena.
///
/// A handle owns nothing. At run time it is a 32-bit index; its region `'a`
/// exists only for the compiler. Handles compare, order and hash by index
/// alone.
#[derive(Debug, Clone, Copy, Eq, Hash, Ord)]
pub struct Handle<'a>(u32, Contravariant<'a>);

impl<'a> View for Handle<'a> {
    type V = int;

    /// The index of the cell that the handle names.
    closed spec fn view(&self) -> int {
        self.0 as int
    }
}

impl<'a> Handle<'a> {
    pub(crate) fn new(index: u32) -> (h: Handle<'a>)
        ensures
            h@ == index,
    {
        Handle(index, Contravariant::new())
    }

    /// The index of the cell that the handle names.
    pub fn index(&self) -> (i: u32)
        ensures
            i == self@,
    {
        self.0
    }

    /// A use of the handle that does nothing. It lets a caller find out whether
    /// the compiler still accepts the handle at some point of a program.
    pub fn test_usage(&self) {
    }

    /// The same index in any region `'l` that `'a` outlives.
    ///
    /// This shortens the region, which the compiler does not do by
    /// itself. The caller vouches that the cell is still a cell of the arena
    /// in `'l`; joining the result to the current token makes that hold.
    pub fn local<'l>(self) -> (h: Handle<'l>) where 'a: 'l
        ensures
            h@ == self@,
    {
        Handle(self.0, Contravariant::new())
    }

    /// As [`Handle::local`], from a borrowed handle.
    pub fn copy<'l>(&self) -> (h: Handle<'l>) where 'a: 'l
        ensures
            h@ == self@,
    {
        Handle(self.0, Contravariant::new())
    }

    /// The same index with the widest region. Such a handle belongs to no
    /// token; it must be bound again before it is read.
    pub fn unbind(self) -> (h: Handle<'static>)
        ensures
            h@ == self@,
    {
        Handle(self.0, Contravariant::new())
    }
}

impl<'a> PartialEq for Handle<'a> {
    fn eq(&self, other: &Self) -> (r: bool) {
        self.0 == other.0
    }
}

impl<'a> PartialEqSpecImpl for Handle<'a> {
    open spec fn obeys_eq_spec() -> bool {
        true
    }

    open spec fn eq_spec(&self, other: &Self) -> bool {
        self@ == other@
    }
}

impl<'a> PartialOrd for Handle<'a> {
    fn partial_cmp(&self, other: &Self) -> (r: Option<Ordering>) {
        if self.0 < other.0 {
            Some(Ordering::Less)
        } else if self.0 > other.0 {
            Some(Ordering::Greater)
        } else {
            Some(Ordering::Equal)
        }
    }
}

impl<'a> PartialOrdSpecImpl for Handle<'a> {
    open spec fn obeys_partial_cmp_spec() -> bool {
        true
    }

    open spec fn partial_cmp_spec(&self, other: &Self) -> Option<Ordering> {
        if self@ < other@ {
            Some(Ordering::Less)
        } else if self@ > other@ {
            Some(Ordering::Greater)
        } else {
            Some(Ordering::Equal)
        }
    }
}

/// The name of one entry of an arena's root table.
///
/// A handle that was registered with [`Handle::scope`] is found again under
/// its `Global` after any number of collections.
pub struct Global<'a> {
    index: u32,
    _marker: Contravariant<'a>,
}

impl<'a> View for Global<'a> {
    type V = int;

    /// The index of the entry in the root table.
    closed spec fn view(&self) -> int {
        self.index as int
    }
}

impl<'a> Global<'a> {
    pub(crate) fn new(index: u32) -> (g: Global<'a>)
        ensures
            g@ == index,
    {
        Global { index, _marker: Contravariant::new() }
    }

    /// The index of the entry in the root table.
    pub fn index(&self) -> (i: u32)
        ensures
            i == self@,
    {
        self.index
    }
}

} // verus!
