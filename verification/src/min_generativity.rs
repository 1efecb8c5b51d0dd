//! Lifetimes that are made once: a guard holds a lifetime that no other
//! guard holds, as long as each guard is made beside a brand of its own that
//! is dropped where the guard's scope ends.

use vstd::prelude::*;
use core::marker::PhantomData;
use vstd::std_specs::convert::FromSpecImpl;

verus! {

/// A lifetime that can neither grow nor shrink to fit another.
pub type Id<'id> = PhantomData<&'id mut &'id ()>;

/// The one holder of the lifetime `'id`.
#[derive(Eq, PartialEq, Debug)]
pub struct Guard<'id>(pub Id<'id>);

impl<'id> From<Guard<'id>> for Id<'id> {
    fn from(guard: Guard<'id>) -> (id: Self)
    {
        guard.0
    }
}

impl<'id> FromSpecImpl<Guard<'id>> for Id<'id> {
    open spec fn obeys_from_spec() -> bool {
        true
    }

    open spec fn from_spec(guard: Guard<'id>) -> Self {
        guard.0
    }
}

/// Ties the lifetime `'id` to the place of an id: the lifetime ends no later
/// than the place, and no sooner than this value is dropped.
pub struct LifetimeBrand<'id>(PhantomData<&'id Id<'id>>);

impl<'id> LifetimeBrand<'id> {
    /// The brand of the id at `_id`.
    pub fn new(_id: &'id Id<'id>) -> Self {
        LifetimeBrand(PhantomData)
    }
}

impl<'id> Drop for LifetimeBrand<'id> {
    fn drop(&mut self)
        opens_invariants none
        no_unwind
    {
    }
}

} // verus!
