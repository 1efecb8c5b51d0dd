//! A vector whose indices carry its brand: an index is made by the vector it
//! belongs to, at a position that the vector has, and the vector never
//! shrinks.

use vstd::prelude::*;
use core::marker::PhantomData;

verus! {

/// A lifetime that can neither grow nor shrink to fit another.
#[derive(Clone, Copy)]
struct InvariantLifetime<'id>(PhantomData<&'id mut &'id ()>);

impl<'id> InvariantLifetime<'id> {
    #[inline]
    fn new() -> InvariantLifetime<'id> {
        InvariantLifetime(PhantomData)
    }
}

/// A vector under the brand `'id`.
pub struct BrandedVec<'id, T> {
    inner: Vec<T>,
    marker: InvariantLifetime<'id>,
}

/// A position in the vector of the brand `'id`.
#[derive(Clone, Copy)]
pub struct BrandedIndex<'id> {
    idx: usize,
    marker: InvariantLifetime<'id>,
}

impl<'id, T> View for BrandedVec<'id, T> {
    type V = Seq<T>;

    closed spec fn view(&self) -> Seq<T> {
        self.inner@
    }
}

impl<'id> View for BrandedIndex<'id> {
    type V = usize;

    closed spec fn view(&self) -> usize {
        self.idx
    }
}

impl<'id, T> BrandedVec<'id, T> {
    /// Puts `inner` under a brand of its own and hands it to `f`. What `f`
    /// returns is returned.
    ///
    /// `f` has to take a vector of every brand, so the brand it meets cannot
    /// be one that it knows.
    pub fn new<R>(inner: Vec<T>, f: impl for <'id2>FnOnce(BrandedVec<'id2, T>) -> R) -> (r: R)
        requires
            forall|branded: BrandedVec<'id, T>|
                branded@ == inner@ ==> #[trigger] call_requires(f, (branded,)),
        ensures
            exists|branded: BrandedVec<'id, T>|
                branded@ == inner@ && #[trigger] call_ensures(f, (branded,), r),
    {
        let branded_vec = BrandedVec { inner, marker: InvariantLifetime::new() };
        assert(branded_vec@ == inner@);
        assert(call_requires(f, (branded_vec,)));
        f(branded_vec)
    }

    /// The index of the position `index`, if the vector has it.
    pub fn get_index(&self, index: usize) -> (r: Option<BrandedIndex<'id>>)
        ensures
            index < self@.len() ==> r is Some && r->Some_0@ == index,
            index >= self@.len() ==> r is None,
    {
        if index < self.inner.len() {
            Some(BrandedIndex { idx: index, marker: InvariantLifetime::new() })
        } else {
            None
        }
    }

    /// The element at `index`, read without a check of the bounds.
    ///
    /// An index of this brand was made by this vector. The verifier does not
    /// read brands: to it the caller shows that the vector has the position.
    pub fn get(&self, index: BrandedIndex<'id>) -> (element: &T)
        requires
            index@ < self@.len(),
        ensures
            *element == self@[index@ as int],
    {
        &self.inner[index.idx]
    }

    /// The element at `index`, to be written, reached without a check of the
    /// bounds.
    ///
    /// An index of this brand was made by this vector. The verifier does not
    /// read brands: to it the caller shows that the vector has the position.
    pub fn get_mut<'a>(&'a mut self, index: BrandedIndex<'id>) -> (element: &'a mut T)
        requires
            index@ < old(self)@.len(),
        ensures
            *element == old(self)@[index@ as int],
            final(self)@ == old(self)@.update(index@ as int, *final(element)),
    {
        &mut self.inner[index.idx]
    }

    /// Appends `val` and returns the index of the position it took.
    pub fn push<'a>(&'a mut self, val: T) -> (index: BrandedIndex<'id>)
        ensures
            final(self)@ == old(self)@.push(val),
            index@ == old(self)@.len(),
    {
        let index = BrandedIndex { idx: self.inner.len(), marker: InvariantLifetime::new() };
        self.inner.push(val);
        index
    }
}

} // verus!
