//! Permutations that carry the id of their group. Composition compares the
//! ids at run time and refuses permutations of different groups.

use vstd::prelude::*;
use std::sync::atomic::AtomicU64;
use std::sync::atomic::Ordering;
use crate::composer;
use crate::error::Error;
use crate::mapping::{
    all_mappings, compose, group_validation, is_mapping, lemma_compose_is_mapping, seqs_of,
    validation,
};
use crate::oracle::views_of;
use crate::{admission, validate_admission, validate_base_mappings, validate_permutation};

verus! {

/// A group of permutations on `0..len`, given by the base permutations that
/// generate it, with an id that its permutations carry.
pub struct PermGroup {
    base_permutation_length: usize,
    base_permutations: Vec<Permutation>,
    id: u64,
}

/// A mapping that was found to be a bijection, with the id of a group.
pub struct Permutation(Vec<usize>, u64);

impl View for Permutation {
    type V = Seq<usize>;

    closed spec fn view(&self) -> Seq<usize> {
        self.0@
    }
}

/// Draws an id from the counter, which goes up by one.
fn next_id(ids: &AtomicU64) -> u64 {
    ids.fetch_add(1, Ordering::Relaxed)
}

/// The mappings of the permutations, in their order.
pub open spec fn mappings_of(permutations: Seq<Permutation>) -> Seq<Seq<usize>> {
    permutations.map_values(|p: Permutation| p@)
}

impl PermGroup {
    /// The size of the domain on which the group acts.
    pub closed spec fn domain_size(&self) -> nat {
        self.base_permutation_length as nat
    }

    /// The id that each permutation of the group carries.
    pub closed spec fn id(&self) -> u64 {
        self.id
    }

    /// The base permutations, in the order in which they were given.
    pub closed spec fn bases(&self) -> Seq<Permutation> {
        self.base_permutations@
    }

    #[verifier::type_invariant]
    spec fn is_valid(self) -> bool {
        forall|k: int|
            0 <= k < self.base_permutations@.len() ==> {
                &&& is_mapping(
                    (#[trigger] self.base_permutations@[k]).0@,
                    self.base_permutation_length as nat,
                )
                &&& self.base_permutations@[k].1 == self.id
            }
    }

    /// Makes a group on `0..base_permutation_length` of the base mappings.
    ///
    /// The mappings are validated in their order, and the first that is
    /// refused ends the call with its error: the counter is then left alone.
    /// Otherwise the group takes its id from `ids`, which goes up by one.
    /// Groups that draw their ids from one counter get different ids, as long
    /// as the counter does not wrap around.
    pub fn new(
        base_permutation_length: usize,
        base_permutation_mappings: Vec<Vec<usize>>,
        ids: &AtomicU64,
    ) -> (r: Result<Self, Error>)
        ensures
            match r {
                Ok(group) => {
                    &&& all_mappings(
                        seqs_of(base_permutation_mappings@),
                        base_permutation_length as nat,
                    )
                    &&& group.domain_size() == base_permutation_length
                    &&& mappings_of(group.bases()) == seqs_of(base_permutation_mappings@)
                },
                Err(e) => group_validation(
                    seqs_of(base_permutation_mappings@),
                    base_permutation_length as nat,
                ) == Err::<(), Error>(e),
            },
    {
        match validate_base_mappings(&base_permutation_mappings, base_permutation_length) {
            Err(e) => Err(e),
            Ok(()) => {
                let id = next_id(ids);
                Ok(Self::tagged(base_permutation_length, base_permutation_mappings, id))
            },
        }
    }

    /// Makes a group of base mappings that are known to be valid, under the
    /// id that is given.
    pub fn tagged(
        base_permutation_length: usize,
        base_permutation_mappings: Vec<Vec<usize>>,
        id: u64,
    ) -> (group: Self)
        requires
            all_mappings(seqs_of(base_permutation_mappings@), base_permutation_length as nat),
        ensures
            group.domain_size() == base_permutation_length,
            group.id() == id,
            mappings_of(group.bases()) == seqs_of(base_permutation_mappings@),
    {
        let ghost all = seqs_of(base_permutation_mappings@);
        let ghost n = base_permutation_length as nat;
        let mut base_permutations: Vec<Permutation> = Vec::new();
        for mapping in it: base_permutation_mappings
            invariant
                all == seqs_of(it.seq()),
                all_mappings(all, n),
                base_permutations@.len() == it.index(),
                forall|k: int|
                    0 <= k < base_permutations@.len() ==> {
                        &&& (#[trigger] base_permutations@[k]).0@ == all[k]
                        &&& base_permutations@[k].1 == id
                    },
        {
            proof {
                assert(all[it.index() as int] == mapping@);
            }
            base_permutations.push(Permutation(mapping, id));
        }
        let group = Self { base_permutation_length, base_permutations, id };
        proof {
            assert(mappings_of(group.bases()) =~= all);
        }
        group
    }

    /// Admits `mapping` to the group: it has to be a bijection on the domain
    /// of the group, and generated by the base permutations. The permutation
    /// that comes back carries the id of the group.
    pub fn permutation_from_mapping(&self, mapping: Vec<usize>) -> (r: Result<Permutation, Error>)
        ensures
            match r {
                Ok(p) => {
                    &&& admission(mapping@, self.domain_size(), mappings_of(self.bases())) is Ok
                    &&& p@ == mapping@
                    &&& p@.len() == self.domain_size()
                    &&& p.id() == self.id()
                },
                Err(e) => admission(mapping@, self.domain_size(), mappings_of(self.bases()))
                    == Err::<(), Error>(e),
            },
    {
        Permutation::from_mapping_and_group(mapping, self)
    }

    /// The mappings of the base permutations, borrowed, in their order.
    fn base_slices(&self) -> (slices: Vec<&[usize]>)
        ensures
            views_of(slices@) == mappings_of(self.bases()),
            all_mappings(views_of(slices@), self.domain_size()),
    {
        proof {
            use_type_invariant(self);
        }
        let mut slices: Vec<&[usize]> = Vec::new();
        let mut k: usize = 0;
        while k < self.base_permutations.len()
            invariant
                k <= self.base_permutations@.len(),
                slices@.len() == k,
                forall|j: int| 0 <= j < k ==> (#[trigger] slices@[j])@ == self.base_permutations@[j].0@,
            decreases self.base_permutations@.len() - k,
        {
            slices.push(self.base_permutations[k].0.as_slice());
            k += 1;
        }
        proof {
            assert(views_of(slices@) =~= mappings_of(self.bases()));
        }
        slices
    }

    /// The base permutations, in the order in which they were given. Each
    /// carries the id of the group and acts on its domain.
    pub fn base_permutations(&self) -> (bases: &[Permutation])
        ensures
            bases@ == self.bases(),
            forall|k: int|
                0 <= k < bases@.len() ==> (#[trigger] bases@[k]).id() == self.id()
                    && bases@[k]@.len() == self.domain_size(),
    {
        proof {
            use_type_invariant(self);
        }
        self.base_permutations.as_slice()
    }
}

impl Permutation {
    /// The id of the group whose member this permutation is.
    pub closed spec fn id(&self) -> u64 {
        self.1
    }

    #[verifier::type_invariant]
    spec fn is_valid(self) -> bool {
        is_mapping(self.0@, self.0@.len())
    }

    /// Makes a permutation of `mapping`, which must be a bijection on the
    /// positions it has, and gives it the id `id`.
    ///
    /// Nothing is asked of the group that has this id. A permutation made
    /// here composes with the members of that group if it has their length,
    /// whether the group generates it or not.
    pub fn from_mapping(mapping: Vec<usize>, id: u64) -> (r: Result<Self, Error>)
        ensures
            match r {
                Ok(p) => p@ == mapping@ && p.id() == id && is_mapping(mapping@, mapping@.len()),
                Err(e) => validation(mapping@, mapping@.len()) == Err::<(), Error>(e),
            },
    {
        match validate_permutation(mapping.as_slice(), mapping.len()) {
            Ok(()) => Ok(Self(mapping, id)),
            Err(e) => Err(e),
        }
    }

    /// Admits `mapping` to `group`: it has to be a bijection on the domain of
    /// the group, and generated by the base permutations. The permutation
    /// that comes back carries the id of the group.
    pub fn from_mapping_and_group(mapping: Vec<usize>, group: &PermGroup) -> (r: Result<
        Self,
        Error,
    >)
        ensures
            match r {
                Ok(p) => {
                    &&& admission(mapping@, group.domain_size(), mappings_of(group.bases())) is Ok
                    &&& p@ == mapping@
                    &&& p@.len() == group.domain_size()
                    &&& p.id() == group.id()
                },
                Err(e) => admission(mapping@, group.domain_size(), mappings_of(group.bases()))
                    == Err::<(), Error>(e),
            },
    {
        let bases = group.base_slices();
        match validate_admission(
            mapping.as_slice(),
            group.base_permutation_length,
            bases.as_slice(),
        ) {
            Err(e) => Err(e),
            Ok(()) => Ok(Self(mapping, group.id)),
        }
    }

    /// The mapping of this permutation: position `i` holds the image of `i`.
    pub fn mapping(&self) -> (m: &[usize])
        ensures
            m@ == self@,
            is_mapping(m@, m@.len()),
    {
        proof {
            use_type_invariant(self);
        }
        self.0.as_slice()
    }

    /// Writes the composition of `self` and `b` into `into`, `b` applied
    /// first, if the three carry one id.
    ///
    /// The ids are compared first: if two of them differ, the call fails with
    /// `GroupMismatch`. Permutations with one id and different lengths, which
    /// no single group hands out, fail with `LengthMismatch`. A call that
    /// fails leaves `into` as it was.
    pub fn compose_into(&self, b: &Self, into: &mut Self) -> (r: Result<(), Error>)
        ensures
            final(into).id() == old(into).id(),
            r is Err ==> final(into)@ == old(into)@,
            !(self.id() == b.id() && b.id() == old(into).id()) ==> r == Err::<(), Error>(
                Error::GroupMismatch,
            ),
            self.id() == b.id() && b.id() == old(into).id() && !(self@.len() == b@.len()
                && b@.len() == old(into)@.len()) ==> r == Err::<(), Error>(Error::LengthMismatch),
            self.id() == b.id() && b.id() == old(into).id() && self@.len() == b@.len() && b@.len()
                == old(into)@.len() ==> r is Ok && final(into)@ == compose(self@, b@),
    {
        if self.1 != b.1 || b.1 != into.1 {
            return Err(Error::GroupMismatch);
        }
        if self.0.len() != b.0.len() || b.0.len() != into.0.len() {
            return Err(Error::LengthMismatch);
        }
        proof {
            use_type_invariant(self);
            use_type_invariant(b);
            lemma_compose_is_mapping(self@, b@, self@.len());
        }
        // The buffer leaves `into` while it is written: half-written, it is
        // no permutation.
        let mut images: Vec<usize> = Vec::new();
        core::mem::swap(&mut into.0, &mut images);
        composer::compose_into(self.0.as_slice(), b.0.as_slice(), images.as_mut_slice());
        core::mem::swap(&mut into.0, &mut images);
        Ok(())
    }

    /// The composition of `self` and `b`, `b` applied first, as a new
    /// permutation with the id of both.
    ///
    /// Permutations with different ids fail with `GroupMismatch`;
    /// permutations with one id and different lengths, which no single group
    /// hands out, fail with `LengthMismatch`.
    pub fn compose(&self, b: &Self) -> (r: Result<Self, Error>)
        ensures
            self.id() != b.id() ==> r == Err::<Self, Error>(Error::GroupMismatch),
            self.id() == b.id() && self@.len() != b@.len() ==> r == Err::<Self, Error>(
                Error::LengthMismatch,
            ),
            self.id() == b.id() && self@.len() == b@.len() ==> r is Ok && r->Ok_0@ == compose(
                self@,
                b@,
            ) && r->Ok_0.id() == self.id(),
    {
        if self.1 != b.1 {
            return Err(Error::GroupMismatch);
        }
        if self.0.len() != b.0.len() {
            return Err(Error::LengthMismatch);
        }
        proof {
            use_type_invariant(self);
            use_type_invariant(b);
            lemma_compose_is_mapping(self@, b@, self@.len());
        }
        let mut images: Vec<usize> = vec![0; self.0.len()];
        composer::compose_into(self.0.as_slice(), b.0.as_slice(), images.as_mut_slice());
        Ok(Self(images, self.1))
    }
}

} // verus!
