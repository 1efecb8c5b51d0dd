//! Composition under a stated precondition: the caller shows that the
//! permutations belong to one group, and nothing is checked at run time.

use vstd::prelude::*;
use crate::composer;
use crate::error::Error;
use crate::mapping::{
    all_mappings, compose, group_validation, is_mapping, lemma_compose_is_mapping, seqs_of,
    validation,
};
use crate::{validate_base_mappings, validate_permutation};

verus! {

/// A group of permutations on `0..len`, given by the base permutations that
/// generate it.
pub struct PermGroup {
    base_permutation_length: usize,
    base_permutations: Vec<Permutation>,
}

/// A mapping that was found to be a bijection.
pub struct Permutation(Vec<usize>);

impl View for Permutation {
    type V = Seq<usize>;

    closed spec fn view(&self) -> Seq<usize> {
        self.0@
    }
}

/// The mappings of the permutations, in their order.
pub open spec fn mappings_of(permutations: Seq<Permutation>) -> Seq<Seq<usize>> {
    permutations.map_values(|p: Permutation| p@)
}

impl PermGroup {
    /// The size of the domain on which the group acts.
    pub closed spec fn domain_size(&self) -> nat {
        self.base_permutation_length as nat
    }

    /// The base permutations, in the order in which they were given.
    pub closed spec fn bases(&self) -> Seq<Permutation> {
        self.base_permutations@
    }

    #[verifier::type_invariant]
    spec fn is_valid(self) -> bool {
        forall|k: int|
            0 <= k < self.base_permutations@.len() ==> is_mapping(
                (#[trigger] self.base_permutations@[k]).0@,
                self.base_permutation_length as nat,
            )
    }

    /// Makes a group on `0..base_permutation_length` of the base mappings.
    ///
    /// The mappings are validated in their order, and the first that is
    /// refused ends the call with its error.
    pub fn new(base_permutation_length: usize, base_permutation_mappings: Vec<Vec<usize>>) -> (r:
        Result<Self, Error>)
        ensures
            match r {
                Ok(group) => {
                    &&& all_mappings(
                        seqs_of(base_permutation_mappings@),
                        base_permutation_length as nat,
                    )
                    &&& group.domain_size() == base_permutation_length
                    &&& mappings_of(group.bases()) == seqs_of(base_permutation_mappings@)
                },
                Err(e) => group_validation(
                    seqs_of(base_permutation_mappings@),
                    base_permutation_length as nat,
                ) == Err::<(), Error>(e),
            },
    {
        match validate_base_mappings(&base_permutation_mappings, base_permutation_length) {
            Err(e) => { return Err(e); },
            Ok(()) => {},
        }
        let ghost all = seqs_of(base_permutation_mappings@);
        let ghost n = base_permutation_length as nat;
        let mut base_permutations: Vec<Permutation> = Vec::new();
        for mapping in it: base_permutation_mappings
            invariant
                all == seqs_of(it.seq()),
                all_mappings(all, n),
                base_permutations@.len() == it.index(),
                forall|k: int|
                    0 <= k < base_permutations@.len() ==> (#[trigger] base_permutations@[k]).0@
                        == all[k],
        {
            proof {
                assert(all[it.index() as int] == mapping@);
            }
            base_permutations.push(Permutation(mapping));
        }
        let group = Self { base_permutation_length, base_permutations };
        proof {
            assert(mappings_of(group.bases()) =~= all);
        }
        Ok(group)
    }

    /// The base permutations, in the order in which they were given. Each
    /// acts on the domain of the group.
    pub fn base_permutations(&self) -> (bases: &[Permutation])
        ensures
            bases@ == self.bases(),
            forall|k: int| 0 <= k < bases@.len() ==> (#[trigger] bases@[k])@.len() == self.domain_size(),
    {
        proof {
            use_type_invariant(self);
        }
        self.base_permutations.as_slice()
    }
}

impl Permutation {
    #[verifier::type_invariant]
    spec fn is_valid(self) -> bool {
        is_mapping(self.0@, self.0@.len())
    }

    /// The mapping of this permutation: position `i` holds the image of `i`.
    pub fn mapping(&self) -> (m: &[usize])
        ensures
            m@ == self@,
            is_mapping(m@, m@.len()),
    {
        proof {
            use_type_invariant(self);
        }
        self.0.as_slice()
    }
}

impl Clone for Permutation {
    fn clone(&self) -> (copy: Self)
        ensures
            copy@ == self@,
    {
        proof {
            use_type_invariant(self);
        }
        Permutation(self.0.clone())
    }
}

/// A permutation that can be composed with the permutations of its group.
///
/// The group is not looked at when two permutations are composed. That they
/// belong to one group, and so act on one domain, is the caller's to show.
pub trait ComposablePermutation: Clone + Sized {
    /// The mapping of the permutation: position `i` holds the image of `i`.
    spec fn images(&self) -> Seq<usize>;

    /// A clone has the mapping of what it was cloned from.
    proof fn lemma_clone_keeps_images(&self, copy: &Self)
        requires
            cloned(*self, *copy),
        ensures
            copy.images() == self.images(),
    ;

    /// Makes a permutation of `mapping`, which must be a bijection on the
    /// positions it has.
    fn from_mapping(mapping: Vec<usize>) -> (r: Result<Self, Error>)
        ensures
            match r {
                Ok(p) => p.images() == mapping@ && is_mapping(mapping@, mapping@.len()),
                Err(e) => validation(mapping@, mapping@.len()) == Err::<(), Error>(e),
            },
    ;

    /// Writes the composition of `self` and `b` into `into`, `b` applied
    /// first.
    ///
    /// `self`, `b` and `into` must all be from one permutation group: they
    /// act on one domain.
    fn compose_into(&self, b: &Self, into: &mut Self)
        requires
            self.images().len() == b.images().len(),
            b.images().len() == old(into).images().len(),
        ensures
            final(into).images() == compose(self.images(), b.images()),
    ;

    /// The composition of `self` and `b`, `b` applied first, as a new
    /// permutation.
    ///
    /// `self` and `b` must both be from one permutation group: they act on
    /// one domain.
    fn compose(&self, b: &Self) -> (r: Self)
        requires
            self.images().len() == b.images().len(),
        ensures
            r.images() == compose(self.images(), b.images()),
    {
        let mut result = self.clone();
        proof {
            self.lemma_clone_keeps_images(&result);
        }
        self.compose_into(b, &mut result);
        result
    }
}

impl ComposablePermutation for Permutation {
    open spec fn images(&self) -> Seq<usize> {
        self@
    }

    proof fn lemma_clone_keeps_images(&self, copy: &Self) {
        if vstd::pervasive::strictly_cloned(*self, *copy) {
            assert(call_ensures(Permutation::clone, (self,), *copy));
        }
    }

    fn from_mapping(mapping: Vec<usize>) -> (r: Result<Self, Error>) {
        match validate_permutation(mapping.as_slice(), mapping.len()) {
            Ok(()) => Ok(Self(mapping)),
            Err(e) => Err(e),
        }
    }

    fn compose_into(&self, b: &Self, into: &mut Self) {
        proof {
            use_type_invariant(self);
            use_type_invariant(b);
            lemma_compose_is_mapping(self@, b@, self@.len());
        }
        // The buffer leaves `into` while it is written: half-written, it is
        // no permutation.
        let mut images: Vec<usize> = Vec::new();
        core::mem::swap(&mut into.0, &mut images);
        composer::compose_into(self.0.as_slice(), b.0.as_slice(), images.as_mut_slice());
        core::mem::swap(&mut into.0, &mut images);
    }
}

} // verus!
