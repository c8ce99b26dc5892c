//! Zero-sized region markers.
//!
//! A region is a lifetime that says for how long a handle or a token may be
//! used. The markers carry no data: they only fix how the compiler may
//! stretch or shrink the lifetime they are tagged with.

use std::marker::PhantomData;
use vstd::prelude::*;

verus! {

/// A marker that is covariant in `'a`: the region may shrink, never grow.
///
/// Tokens use it, so that a token can be lent out for a shorter span than the
/// one it was made for.
#[derive(Debug, Clone, Copy, PartialEq, Eq, Hash, PartialOrd, Ord)]
pub(crate) struct Covariant<'a>(PhantomData<&'a ()>);

impl<'a> Covariant<'a> {
    pub(crate) fn new() -> Self {
        Covariant(PhantomData)
    }
}

/// A marker that is contravariant in `'a`: the region may grow, never shrink.
///
/// Handles use it. Joining a handle to a token (see [`crate::Gc::join`]) then
/// forces the borrow of the token to last at least as long as the handle is in
/// use, which is what keeps a collection from running in between.
///
/// Contravariance needs a function-pointer type under the `PhantomData`, and
/// the verifier has no model of those. The struct is therefore opaque to it.
/// It has no runtime content, so there is nothing to state about it.
#[verifier::external_body]
#[derive(Debug, PartialEq, Eq, Hash, PartialOrd, Ord)]
pub(crate) struct Contravariant<'a>(PhantomData<fn(&'a ())>);

impl<'a> Contravariant<'a> {
    /// Makes the marker from `std::marker::PhantomData`. The result has no
    /// content, and no contract is claimed for it.
    #[verifier::external_body]
    pub(crate) fn new() -> Self {
        Contravariant(PhantomData)
    }
}

impl<'a> Clone for Contravariant<'a> {
    /// Copies the `PhantomData` inside. No contract is claimed.
    #[verifier::external_body]
    fn clone(&self) -> Self {
        Contravariant(self.0)
    }
}

impl<'a> Copy for Contravariant<'a> {}

} // verus!
