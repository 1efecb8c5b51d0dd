//! Permutations that carry the brand of their group in their type: a
//! lifetime that no other group shares. Permutations of different groups
//! cannot be handed to one composition, and nothing is checked at run time.

use vstd::prelude::*;
use generativity::Guard as BrandGuard;
use generativity::Id as Brand;
use crate::composer;
use crate::error::Error;
use crate::mapping::{
    all_mappings, compose, group_validation, is_mapping, lemma_compose_is_mapping, seqs_of,
};
use crate::oracle::views_of;
use crate::{admission, validate_admission, validate_base_mappings};

verus! {

/// The guard of `generativity`: the one holder of a lifetime that was made
/// for it. Opaque to the verifier.
#[verifier::external_type_specification]
#[verifier::external_body]
pub struct ExBrandGuard<'id>(BrandGuard<'id>);

/// The id of `generativity`: a copy of the lifetime of a guard. Opaque to the
/// verifier.
#[verifier::external_type_specification]
#[verifier::external_body]
pub struct ExBrand<'id>(Brand<'id>);

/// Calls the conversion of `generativity` from a guard to its id, which uses
/// the guard up. Nothing is claimed of the id: it holds no data.
#[verifier::external_body]
fn brand_of<'id>(guard: BrandGuard<'id>) -> Brand<'id> {
    guard.into()
}

/// A group of permutations on `0..len`, given by the base permutations that
/// generate it, with the brand that its permutations carry.
pub struct PermGroup<'id> {
    base_permutation_length: usize,
    base_permutations: Vec<Permutation<'id>>,
    id: Brand<'id>,
}

/// A mapping that was found to be a bijection, with the brand of a group.
pub struct Permutation<'id>(Vec<usize>, Brand<'id>);

impl<'id> View for Permutation<'id> {
    type V = Seq<usize>;

    closed spec fn view(&self) -> Seq<usize> {
        self.0@
    }
}

/// The mappings of the permutations, in their order.
pub open spec fn mappings_of<'id>(permutations: Seq<Permutation<'id>>) -> Seq<Seq<usize>> {
    permutations.map_values(|p: Permutation<'id>| p@)
}

impl<'id> PermGroup<'id> {
    /// The size of the domain on which the group acts.
    pub closed spec fn domain_size(&self) -> nat {
        self.base_permutation_length as nat
    }

    /// The base permutations, in the order in which they were given.
    pub closed spec fn bases(&self) -> Seq<Permutation<'id>> {
        self.base_permutations@
    }

    #[verifier::type_invariant]
    spec fn is_valid(self) -> bool {
        forall|k: int|
            0 <= k < self.base_permutations@.len() ==> is_mapping(
                (#[trigger] self.base_permutations@[k]).0@,
                self.base_permutation_length as nat,
            )
    }

    /// Makes a group on `0..base_permutation_length` of the base mappings,
    /// under the brand of `guard`, which is used up.
    ///
    /// The mappings are validated in their order, and the first that is
    /// refused ends the call with its error.
    pub fn new(
        base_permutation_length: usize,
        base_permutation_mappings: Vec<Vec<usize>>,
        guard: BrandGuard<'id>,
    ) -> (r: Result<Self, Error>)
        ensures
            match r {
                Ok(group) => {
                    &&& all_mappings(
                        seqs_of(base_permutation_mappings@),
                        base_permutation_length as nat,
                    )
                    &&& group.domain_size() == base_permutation_length
                    &&& mappings_of(group.bases()) == seqs_of(base_permutation_mappings@)
                },
                Err(e) => group_validation(
                    seqs_of(base_permutation_mappings@),
                    base_permutation_length as nat,
                ) == Err::<(), Error>(e),
            },
    {
        match validate_base_mappings(&base_permutation_mappings, base_permutation_length) {
            Err(e) => { return Err(e); },
            Ok(()) => {},
        }
        let id = brand_of(guard);
        let ghost all = seqs_of(base_permutation_mappings@);
        let ghost n = base_permutation_length as nat;
        let mut base_permutations: Vec<Permutation<'id>> = Vec::new();
        for mapping in it: base_permutation_mappings
            invariant
                all == seqs_of(it.seq()),
                all_mappings(all, n),
                base_permutations@.len() == it.index(),
                forall|k: int|
                    0 <= k < base_permutations@.len() ==> (#[trigger] base_permutations@[k]).0@
                        == all[k],
        {
            proof {
                assert(all[it.index() as int] == mapping@);
            }
            base_permutations.push(Permutation(mapping, id));
        }
        let group = Self { base_permutation_length, base_permutations, id };
        proof {
            assert(mappings_of(group.bases()) =~= all);
        }
        Ok(group)
    }

    /// Admits `mapping` to the group: it has to be a bijection on the domain
    /// of the group, and generated by the base permutations. The permutation
    /// that comes back carries the brand of the group.
    pub fn permutation_from_mapping(&self, mapping: Vec<usize>) -> (r: Result<
        Permutation<'id>,
        Error,
    >)
        ensures
            match r {
                Ok(p) => {
                    &&& admission(mapping@, self.domain_size(), mappings_of(self.bases())) is Ok
                    &&& p@ == mapping@
                    &&& p@.len() == self.domain_size()
                },
                Err(e) => admission(mapping@, self.domain_size(), mappings_of(self.bases()))
                    == Err::<(), Error>(e),
            },
    {
        Permutation::from_mapping_and_group(mapping, self)
    }

    /// The mappings of the base permutations, borrowed, in their order.
    fn base_slices(&self) -> (slices: Vec<&[usize]>)
        ensures
            views_of(slices@) == mappings_of(self.bases()),
            all_mappings(views_of(slices@), self.domain_size()),
    {
        proof {
            use_type_invariant(self);
        }
        let mut slices: Vec<&[usize]> = Vec::new();
        let mut k: usize = 0;
        while k < self.base_permutations.len()
            invariant
                k <= self.base_permutations@.len(),
                slices@.len() == k,
                forall|j: int|
                    0 <= j < k ==> (#[trigger] slices@[j])@ == self.base_permutations@[j].0@,
            decreases self.base_permutations@.len() - k,
        {
            slices.push(self.base_permutations[k].0.as_slice());
            k += 1;
        }
        proof {
            assert(views_of(slices@) =~= mappings_of(self.bases()));
        }
        slices
    }

    /// The base permutations, in the order in which they were given. Each
    /// acts on the domain of the group.
    pub fn base_permutations(&self) -> (bases: &[Permutation<'id>])
        ensures
            bases@ == self.bases(),
            forall|k: int|
                0 <= k < bases@.len() ==> (#[trigger] bases@[k])@.len() == self.domain_size(),
    {
        proof {
            use_type_invariant(self);
        }
        self.base_permutations.as_slice()
    }
}

impl<'id> Permutation<'id> {
    #[verifier::type_invariant]
    spec fn is_valid(self) -> bool {
        is_mapping(self.0@, self.0@.len())
    }

    /// Admits `mapping` to `group`: it has to be a bijection on the domain of
    /// the group, and generated by the base permutations. The permutation
    /// that comes back carries the brand of the group.
    pub fn from_mapping_and_group(mapping: Vec<usize>, group: &PermGroup<'id>) -> (r: Result<
        Self,
        Error,
    >)
        ensures
            match r {
                Ok(p) => {
                    &&& admission(mapping@, group.domain_size(), mappings_of(group.bases())) is Ok
                    &&& p@ == mapping@
                    &&& p@.len() == group.domain_size()
                },
                Err(e) => admission(mapping@, group.domain_size(), mappings_of(group.bases()))
                    == Err::<(), Error>(e),
            },
    {
        let bases = group.base_slices();
        match validate_admission(
            mapping.as_slice(),
            group.base_permutation_length,
            bases.as_slice(),
        ) {
            Err(e) => Err(e),
            Ok(()) => Ok(Self(mapping, group.id)),
        }
    }

    /// The mapping of this permutation: position `i` holds the image of `i`.
    pub fn mapping(&self) -> (m: &[usize])
        ensures
            m@ == self@,
            is_mapping(m@, m@.len()),
    {
        proof {
            use_type_invariant(self);
        }
        self.0.as_slice()
    }

    /// Writes the composition of `self` and `b` into `result`, `b` applied
    /// first.
    ///
    /// The three carry one brand, so they come from one group and act on one
    /// domain. The verifier does not read brands: to it the caller shows that
    /// the lengths agree.
    pub fn compose_into(&self, b: &Self, result: &mut Self)
        requires
            self@.len() == b@.len(),
            b@.len() == old(result)@.len(),
        ensures
            final(result)@ == compose(self@, b@),
    {
        proof {
            use_type_invariant(self);
            use_type_invariant(b);
            lemma_compose_is_mapping(self@, b@, self@.len());
        }
        // The buffer leaves `result` while it is written: half-written, it is
        // no permutation.
        let mut images: Vec<usize> = Vec::new();
        core::mem::swap(&mut result.0, &mut images);
        composer::compose_into(self.0.as_slice(), b.0.as_slice(), images.as_mut_slice());
        core::mem::swap(&mut result.0, &mut images);
    }

    /// The composition of `self` and `b`, `b` applied first, as a new
    /// permutation with the brand of both.
    pub fn compose(&self, b: &Self) -> (r: Self)
        requires
            self@.len() == b@.len(),
        ensures
            r@ == compose(self@, b@),
    {
        proof {
            use_type_invariant(self);
            use_type_invariant(b);
            lemma_compose_is_mapping(self@, b@, self@.len());
        }
        let mut images: Vec<usize> = vec![0; self.0.len()];
        composer::compose_into(self.0.as_slice(), b.0.as_slice(), images.as_mut_slice());
        Self(images, self.1)
    }
}

} // verus!
