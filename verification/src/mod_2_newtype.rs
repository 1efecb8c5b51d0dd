//! A permutation that is validated when it is made. Composition checks the
//! lengths and nothing else: no group stands behind the permutation.

use vstd::prelude::*;
use crate::composer;
use crate::error::Error;
use crate::mapping::{compose, is_mapping, lemma_compose_is_mapping, validation};
use crate::validate_permutation;

verus! {

/// A mapping that was found to be a bijection on `0..len`.
pub struct Permutation(Vec<usize>);

impl View for Permutation {
    type V = Seq<usize>;

    closed spec fn view(&self) -> Seq<usize> {
        self.0@
    }
}

impl Permutation {
    #[verifier::type_invariant]
    spec fn is_valid(self) -> bool {
        is_mapping(self.0@, self.0@.len())
    }

    /// Makes a permutation of `mapping`, which must be a bijection on the
    /// positions it has.
    pub fn from_mapping(mapping: Vec<usize>) -> (r: Result<Self, Error>)
        ensures
            match r {
                Ok(p) => p@ == mapping@ && is_mapping(mapping@, mapping@.len()),
                Err(e) => validation(mapping@, mapping@.len()) == Err::<(), Error>(e),
            },
    {
        match validate_permutation(mapping.as_slice(), mapping.len()) {
            Ok(()) => Ok(Self(mapping)),
            Err(e) => Err(e),
        }
    }

    /// The mapping of this permutation: position `i` holds the image of `i`.
    pub fn mapping(&self) -> (m: &[usize])
        ensures
            m@ == self@,
            is_mapping(m@, m@.len()),
    {
        proof {
            use_type_invariant(self);
        }
        self.0.as_slice()
    }

    /// Writes the composition of `self` and `b` into `result`, `b` applied
    /// first. Permutations of different lengths are refused and `result` is
    /// left as it was.
    pub fn compose_into(&self, b: &Self, result: &mut Self) -> (r: Result<(), Error>)
        ensures
            self@.len() == b@.len() && b@.len() == old(result)@.len() ==> r is Ok
                && final(result)@ == compose(self@, b@),
            !(self@.len() == b@.len() && b@.len() == old(result)@.len()) ==> r == Err::<(), Error>(
                Error::LengthMismatch,
            ) && final(result)@ == old(result)@,
    {
        if self.0.len() != b.0.len() || b.0.len() != result.0.len() {
            return Err(Error::LengthMismatch);
        }
        proof {
            use_type_invariant(self);
            use_type_invariant(b);
            lemma_compose_is_mapping(self@, b@, self@.len());
        }
        // The buffer leaves `result` while it is written: half-written, it is
        // no permutation.
        let mut images: Vec<usize> = Vec::new();
        core::mem::swap(&mut result.0, &mut images);
        composer::compose_into(self.0.as_slice(), b.0.as_slice(), images.as_mut_slice());
        core::mem::swap(&mut result.0, &mut images);
        Ok(())
    }

    /// The composition of `self` and `b`, `b` applied first, as a new
    /// permutation.
    pub fn compose(&self, b: &Self) -> (r: Result<Self, Error>)
        ensures
            match r {
                Ok(p) => self@.len() == b@.len() && p@ == compose(self@, b@),
                Err(e) => self@.len() != b@.len() && e == Error::LengthMismatch,
            },
    {
        if self.0.len() != b.0.len() {
            return Err(Error::LengthMismatch);
        }
        proof {
            use_type_invariant(self);
            use_type_invariant(b);
            lemma_compose_is_mapping(self@, b@, self@.len());
        }
        let mut images: Vec<usize> = vec![0; self.0.len()];
        composer::compose_into(self.0.as_slice(), b.0.as_slice(), images.as_mut_slice());
        Ok(Self(images))
    }
}

} // verus!
