//! An id for a lifetime that is made once, and the brand that ties the
//! lifetime to the place of the id.

use vstd::prelude::*;
use core::marker::PhantomData;

verus! {

/// A lifetime that can neither grow nor shrink to fit another.
#[derive(Copy, Clone, Ord, PartialOrd, Eq, PartialEq, Hash, Debug)]
pub struct Id<'id>(pub PhantomData<&'id mut &'id ()>);

/// Ties the lifetime `'id` to the place of an id: the lifetime ends no later
/// than the place, and no sooner than this value is dropped.
pub struct LifetimeBrand<'id>(PhantomData<&'id Id<'id>>);

impl<'id> LifetimeBrand<'id> {
    /// The brand of the id at `_id`.
    pub fn new(_id: &'id Id<'id>) -> Self {
        LifetimeBrand(PhantomData)
    }
}

impl<'id> Drop for LifetimeBrand<'id> {
    fn drop(&mut self)
        opens_invariants none
        no_unwind
    {
    }
}

} // verus!
