//! Known to be unsound as a guard: do not build on it.
//!
//! Permutations carry a token type in place of a brand. A token type that is
//! declared where the group is made looks new, but each pass through that
//! place declares the same type again: two groups made there have one token,
//! and the compiler lets their permutations meet in one composition. The
//! module is kept to show this failure. What it still promises it promises
//! through the preconditions of the composition, which the verifier checks
//! and the compiler does not.

use vstd::prelude::*;
use core::marker::PhantomData;
use crate::composer;
use crate::error::Error;
use crate::mapping::{
    all_mappings, compose, group_validation, is_mapping, lemma_compose_is_mapping, seqs_of,
    validation,
};
use crate::oracle::views_of;
use crate::{admission, validate_admission, validate_base_mappings, validate_permutation};

verus! {

/// A group of permutations on `0..len`, given by the base permutations that
/// generate it. `Tok` is the token that its permutations carry; it does not
/// tell this group from another with the same token.
pub struct PermGroup<Tok> {
    base_permutation_length: usize,
    base_permutations: Vec<Permutation<Tok>>,
}

/// A mapping that was found to be a bijection, with the token of a group.
pub struct Permutation<Tok>(Vec<usize>, PhantomData<Tok>);

impl<Tok> View for Permutation<Tok> {
    type V = Seq<usize>;

    closed spec fn view(&self) -> Seq<usize> {
        self.0@
    }
}

/// The mappings of the permutations, in their order.
pub open spec fn mappings_of<Tok>(permutations: Seq<Permutation<Tok>>) -> Seq<Seq<usize>> {
    permutations.map_values(|p: Permutation<Tok>| p@)
}

impl<Tok> PermGroup<Tok> {
    /// The size of the domain on which the group acts.
    pub closed spec fn domain_size(&self) -> nat {
        self.base_permutation_length as nat
    }

    /// The base permutations, in the order in which they were given.
    pub closed spec fn bases(&self) -> Seq<Permutation<Tok>> {
        self.base_permutations@
    }

    #[verifier::type_invariant]
    spec fn is_valid(self) -> bool {
        forall|k: int|
            0 <= k < self.base_permutations@.len() ==> is_mapping(
                (#[trigger] self.base_permutations@[k]).0@,
                self.base_permutation_length as nat,
            )
    }

    /// Makes a group on `0..base_permutation_length` of the base mappings,
    /// under the token `Tok`. Nothing keeps a second group from the same
    /// token.
    ///
    /// The mappings are validated in their order, and the first that is
    /// refused ends the call with its error.
    pub fn new(base_permutation_length: usize, base_permutation_mappings: Vec<Vec<usize>>) -> (r:
        Result<Self, Error>)
        ensures
            match r {
                Ok(group) => {
                    &&& all_mappings(
                        seqs_of(base_permutation_mappings@),
                        base_permutation_length as nat,
                    )
                    &&& group.domain_size() == base_permutation_length
                    &&& mappings_of(group.bases()) == seqs_of(base_permutation_mappings@)
                },
                Err(e) => group_validation(
                    seqs_of(base_permutation_mappings@),
                    base_permutation_length as nat,
                ) == Err::<(), Error>(e),
            },
    {
        match validate_base_mappings(&base_permutation_mappings, base_permutation_length) {
            Err(e) => { return Err(e); },
            Ok(()) => {},
        }
        let ghost all = seqs_of(base_permutation_mappings@);
        let ghost n = base_permutation_length as nat;
        let mut base_permutations: Vec<Permutation<Tok>> = Vec::new();
        for mapping in it: base_permutation_mappings
            invariant
                all == seqs_of(it.seq()),
                all_mappings(all, n),
                base_permutations@.len() == it.index(),
                forall|k: int|
                    0 <= k < base_permutations@.len() ==> (#[trigger] base_permutations@[k]).0@
                        == all[k],
        {
            proof {
                assert(all[it.index() as int] == mapping@);
            }
            base_permutations.push(Permutation(mapping, PhantomData));
        }
        let group = Self { base_permutation_length, base_permutations };
        proof {
            assert(mappings_of(group.bases()) =~= all);
        }
        Ok(group)
    }

    /// Admits `mapping` to the group: it has to be a bijection on the domain
    /// of the group, and generated by the base permutations. The permutation
    /// that comes back carries the token of the group.
    pub fn permutation_from_mapping(&self, mapping: Vec<usize>) -> (r: Result<
        Permutation<Tok>,
        Error,
    >)
        ensures
            match r {
                Ok(p) => {
                    &&& admission(mapping@, self.domain_size(), mappings_of(self.bases())) is Ok
                    &&& p@ == mapping@
                    &&& p@.len() == self.domain_size()
                },
                Err(e) => admission(mapping@, self.domain_size(), mappings_of(self.bases()))
                    == Err::<(), Error>(e),
            },
    {
        Permutation::from_mapping_and_group(mapping, self)
    }

    /// The mappings of the base permutations, borrowed, in their order.
    fn base_slices(&self) -> (slices: Vec<&[usize]>)
        ensures
            views_of(slices@) == mappings_of(self.bases()),
            all_mappings(views_of(slices@), self.domain_size()),
    {
        proof {
            use_type_invariant(self);
        }
        let mut slices: Vec<&[usize]> = Vec::new();
        let mut k: usize = 0;
        while k < self.base_permutations.len()
            invariant
                k <= self.base_permutations@.len(),
                slices@.len() == k,
                forall|j: int|
                    0 <= j < k ==> (#[trigger] slices@[j])@ == self.base_permutations@[j].0@,
            decreases self.base_permutations@.len() - k,
        {
            slices.push(self.base_permutations[k].0.as_slice());
            k += 1;
        }
        proof {
            assert(views_of(slices@) =~= mappings_of(self.bases()));
        }
        slices
    }

    /// The base permutations, in the order in which they were given. Each
    /// acts on the domain of the group.
    pub fn base_permutations(&self) -> (bases: &[Permutation<Tok>])
        ensures
            bases@ == self.bases(),
            forall|k: int|
                0 <= k < bases@.len() ==> (#[trigger] bases@[k])@.len() == self.domain_size(),
    {
        proof {
            use_type_invariant(self);
        }
        self.base_permutations.as_slice()
    }
}

impl<Tok> Permutation<Tok> {
    #[verifier::type_invariant]
    spec fn is_valid(self) -> bool {
        is_mapping(self.0@, self.0@.len())
    }

    /// Makes a permutation of `mapping`, which must be a bijection on the
    /// positions it has, under the token `Tok`.
    ///
    /// Nothing is asked of a group. A permutation made here composes with
    /// the permutations of each group of this token that has its length,
    /// whether the group generates it or not.
    pub fn from_mapping(mapping: Vec<usize>) -> (r: Result<Self, Error>)
        ensures
            match r {
                Ok(p) => p@ == mapping@ && is_mapping(mapping@, mapping@.len()),
                Err(e) => validation(mapping@, mapping@.len()) == Err::<(), Error>(e),
            },
    {
        match validate_permutation(mapping.as_slice(), mapping.len()) {
            Ok(()) => Ok(Self(mapping, PhantomData)),
            Err(e) => Err(e),
        }
    }

    /// Admits `mapping` to `group`: it has to be a bijection on the domain of
    /// the group, and generated by the base permutations. The permutation
    /// that comes back carries the token of the group.
    pub fn from_mapping_and_group(mapping: Vec<usize>, group: &PermGroup<Tok>) -> (r: Result<
        Self,
        Error,
    >)
        ensures
            match r {
                Ok(p) => {
                    &&& admission(mapping@, group.domain_size(), mappings_of(group.bases())) is Ok
                    &&& p@ == mapping@
                    &&& p@.len() == group.domain_size()
                },
                Err(e) => admission(mapping@, group.domain_size(), mappings_of(group.bases()))
                    == Err::<(), Error>(e),
            },
    {
        let bases = group.base_slices();
        match validate_admission(
            mapping.as_slice(),
            group.base_permutation_length,
            bases.as_slice(),
        ) {
            Err(e) => Err(e),
            Ok(()) => Ok(Self(mapping, PhantomData)),
        }
    }

    /// The mapping of this permutation: position `i` holds the image of `i`.
    pub fn mapping(&self) -> (m: &[usize])
        ensures
            m@ == self@,
            is_mapping(m@, m@.len()),
    {
        proof {
            use_type_invariant(self);
        }
        self.0.as_slice()
    }

    /// Writes the composition of `self` and `b` into `result`, `b` applied
    /// first.
    ///
    /// That the three carry one token does not show that they come from one
    /// group. The caller shows that they act on one domain.
    pub fn compose_into(&self, b: &Self, result: &mut Self)
        requires
            self@.len() == b@.len(),
            b@.len() == old(result)@.len(),
        ensures
            final(result)@ == compose(self@, b@),
    {
        proof {
            use_type_invariant(self);
            use_type_invariant(b);
            lemma_compose_is_mapping(self@, b@, self@.len());
        }
        // The buffer leaves `result` while it is written: half-written, it is
        // no permutation.
        let mut images: Vec<usize> = Vec::new();
        core::mem::swap(&mut result.0, &mut images);
        composer::compose_into(self.0.as_slice(), b.0.as_slice(), images.as_mut_slice());
        core::mem::swap(&mut result.0, &mut images);
    }

    /// The composition of `self` and `b`, `b` applied first, as a new
    /// permutation with the token of both. The caller shows that they act on
    /// one domain.
    pub fn compose(&self, b: &Self) -> (r: Self)
        requires
            self@.len() == b@.len(),
        ensures
            r@ == compose(self@, b@),
    {
        proof {
            use_type_invariant(self);
            use_type_invariant(b);
            lemma_compose_is_mapping(self@, b@, self@.len());
        }
        let mut images: Vec<usize> = vec![0; self.0.len()];
        composer::compose_into(self.0.as_slice(), b.0.as_slice(), images.as_mut_slice());
        Self(images, PhantomData)
    }
}

} // verus!
