//! The two capability tokens that are threaded through every use of an arena.
//!
//! A [`Gc`] is the right to run a collection. There is one per arena: it comes
//! from [`crate::Arena::new`], it cannot be copied, and every way of passing it
//! on borrows it exclusively for as long as the copy lives. A [`NoGc`] is made
//! from a `Gc` and certifies a span in which no collection runs, so that any
//! number of handles may be read.
//!
//! The tokens have no runtime content. What they do, they do through the
//! compiler.

use crate::handle::Handle;
use crate::region::Covariant;
use vstd::prelude::*;
use vstd::std_specs::convert::FromSpec;
use vstd::std_specs::convert::FromSpecImpl;

verus! {

/// The right to collect.
#[derive(Debug)]
pub struct Gc<'a>(Covariant<'a>);

/// The certificate that no collection runs in `'a`.
#[derive(Debug, Clone, Copy)]
pub struct NoGc<'a>(Covariant<'a>);

impl<'gc> Gc<'gc> {
    /// Only [`crate::Arena::new`] calls this, once for each arena.
    pub(crate) fn new() -> Self {
        Gc(Covariant::new())
    }

    /// Declares that `handle` is in use for as long as this borrow of the token
    /// lasts. Nothing happens at run time; the compiler will then refuse
    /// any exclusive use of the token, and so any collection, while the handle
    /// is still used.
    #[inline(always)]
    pub fn join<'a>(&'a self, _handle: &Handle<'a>) {
    }

    /// The same right for a shorter span. The token itself cannot be used
    /// until the result is gone, and is then what it was.
    pub fn reborrow(&mut self) -> (lent: Gc<'_>)
        ensures
            lent == *old(self),
            *final(self) == *old(self),
    {
        Gc(self.0)
    }

    /// A certificate that no collection runs while this borrow of the token
    /// lasts: the one that [`Gc::into_nogc`] would give, for a shorter span
    /// and without giving up the token.
    pub fn nogc(&self) -> (nogc: NoGc<'_>)
        ensures
            nogc == <NoGc<'gc> as FromSpec<Gc<'gc>>>::from_spec(*self),
    {
        NoGc(self.0)
    }

    /// Gives up the right to collect for a certificate that lasts the whole
    /// region.
    pub fn into_nogc(self) -> (nogc: NoGc<'gc>)
        ensures
            nogc == <NoGc<'gc> as FromSpec<Gc<'gc>>>::from_spec(self),
    {
        NoGc::from(self)
    }

    /// As [`Gc::reborrow`], for a callee that is handed one handle of this
    /// region along with the token.
    pub fn bind_one(&mut self, _a: Handle<'gc>) -> (lent: Gc<'_>)
        ensures
            lent == *old(self),
            *final(self) == *old(self),
    {
        Gc(self.0)
    }

    /// As [`Gc::reborrow`], for a callee that is handed two handles of this
    /// region along with the token.
    pub fn bind_two(&mut self, _a: Handle<'gc>, _b: Handle<'gc>) -> (lent: Gc<'_>)
        ensures
            lent == *old(self),
            *final(self) == *old(self),
    {
        Gc(self.0)
    }
}

impl<'a> From<Gc<'a>> for NoGc<'a> {
    fn from(gc: Gc<'a>) -> (nogc: Self) {
        NoGc(gc.0)
    }
}

impl<'a> FromSpecImpl<Gc<'a>> for NoGc<'a> {
    open spec fn obeys_from_spec() -> bool {
        true
    }

    closed spec fn from_spec(gc: Gc<'a>) -> Self {
        NoGc(gc.0)
    }
}

impl<'a> NoGc<'a> {
    /// Declares that `handle` is in use in the region of this certificate.
    /// Nothing happens at run time.
    #[inline(always)]
    pub fn join(self, _handle: Handle<'a>) {
    }
}

impl<'a> Handle<'a> {
    /// The same index, bound to the region of `nogc`.
    pub fn bind(self, _nogc: NoGc<'a>) -> (h: Self)
        ensures
            h == self,
    {
        self
    }
}

} // verus!
