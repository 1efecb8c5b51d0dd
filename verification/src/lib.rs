//! Composition of permutations that are guaranteed to belong to one
//! permutation group, under several ways of guarding that guarantee.

use vstd::prelude::*;

pub mod error;
pub mod branded_vec;
pub mod composer;
pub mod generative_lifetimes;
pub mod mapping;
pub mod min_generativity;
pub mod mod_1_slice;
pub mod mod_2_newtype;
pub mod mod_3_unsafe_trait;
pub mod mod_4_atomic_id;
pub mod mod_5_generativity;
pub mod mod_6_unsound_token;
pub mod oracle;

pub use error::Error;

verus! {

use crate::mapping::{
    all_mappings, clean_prefix, group_validation, is_mapping, lemma_clean_prefix_is_mapping,
    lemma_group_validation_fault, lemma_validation_fault, seqs_of, validation,
};
use crate::oracle::{
    any_moves_a_point, chain_element, chain_elements, chain_has_member, element_images,
    image_table, images_of_all, is_identity, is_member, is_table, largest_entry,
    lemma_moved_point_below_largest, lemma_table_of_mapping, membership_verdict, points_up_to,
    table_of, tables_of, views_of,
};

/// Checks that `mapping` is a bijection on `0..expected_length`.
///
/// The scan goes from the front and stops at the first entry that breaks the
/// rule: an entry outside the domain gives `OutOfRange`, an entry that an
/// earlier position already holds gives `DuplicateEntry`.
pub fn validate_permutation(mapping: &[usize], expected_length: usize) -> (r: Result<(), Error>)
    ensures
        r == validation(mapping@, expected_length as nat),
        r is Ok <==> is_mapping(mapping@, expected_length as nat),
{
    if mapping.len() != expected_length {
        return Err(Error::LengthMismatch);
    }
    let ghost n = expected_length as nat;
    let mut seen: Vec<bool> = vec![false; expected_length];
    let mut i: usize = 0;
    while i < mapping.len()
        invariant
            n == expected_length,
            mapping@.len() == n,
            seen@.len() == n,
            i <= mapping@.len(),
            clean_prefix(mapping@, n, i as int),
            forall|v: int|
                0 <= v < n ==> (#[trigger] seen@[v] <==> exists|j: int|
                    0 <= j < i && mapping@[j] == v),
        decreases mapping@.len() - i,
    {
        let index = mapping[i];
        if index >= expected_length {
            proof {
                assert(!(mapping@[i as int] < n));
                lemma_validation_fault(mapping@, n, i as int);
            }
            return Err(Error::OutOfRange);
        }
        if seen[index] {
            proof {
                let j = choose|j: int| 0 <= j < i && mapping@[j] == index;
                assert(mapping@[j] == mapping@[i as int]);
                lemma_validation_fault(mapping@, n, i as int);
            }
            return Err(Error::DuplicateEntry);
        }
        proof {
            assert forall|a: int, b: int| 0 <= a < b < i + 1 implies mapping@[a]
                != mapping@[b] by {
                if b == i && mapping@[a] == mapping@[b] {
                    assert(seen@[index as int]);
                }
            }
        }
        let ghost before = seen@;
        seen[index] = true;
        proof {
            assert forall|v: int| 0 <= v < n implies (#[trigger] seen@[v] <==> exists|j: int|
                0 <= j < i + 1 && mapping@[j] == v) by {
                if v == index {
                    assert(mapping@[i as int] == v);
                } else if before[v] {
                    let j = choose|j: int| 0 <= j < i && mapping@[j] == v;
                    assert(0 <= j < i + 1 && mapping@[j] == v);
                } else if exists|j: int| 0 <= j < i + 1 && mapping@[j] == v {
                    let j = choose|j: int| 0 <= j < i + 1 && mapping@[j] == v;
                    assert(j < i);
                }
            }
        }
        i += 1;
    }
    proof {
        lemma_clean_prefix_is_mapping(mapping@, n);
    }
    Ok(())
}

/// Decides whether `permutation` is generated by `base_permutations`, which
/// are taken in their order.
///
/// Where a base permutation moves a point, the stabilizer chain of
/// `permutation_rs` is asked, once. Base permutations that move nothing
/// generate the identity alone, and the chain, which cannot be built from
/// them, is not asked.
pub fn validate_permutation_group_membership(
    permutation: &[usize],
    base_permutations: &[&[usize]],
) -> (r: Result<(), Error>)
    requires
        is_mapping(permutation@, permutation@.len()),
        forall|k: int|
            0 <= k < base_permutations@.len() ==> is_mapping(
                (#[trigger] base_permutations@[k])@,
                permutation@.len(),
            ),
    ensures
        is_member(permutation@, views_of(base_permutations@)) ==> r == Ok::<(), Error>(()),
        !is_member(permutation@, views_of(base_permutations@)) ==> r == Err::<(), Error>(
            Error::NotAMember,
        ),
{
    let ghost n = permutation@.len();
    let ghost generators = views_of(base_permutations@);
    if !any_moves_a_point(base_permutations) {
        return membership_verdict(is_identity(permutation));
    }
    let largest = largest_entry(base_permutations);
    proof {
        assert forall|k: int| 0 <= k < generators.len() implies is_mapping(
            #[trigger] generators[k],
            n,
        ) by {
            assert(generators[k] == base_permutations@[k]@);
        }
        lemma_moved_point_below_largest(generators, n, largest as nat);
        lemma_table_of_mapping(permutation@, n);
    }
    let points = points_up_to(largest);
    let elements = chain_elements(base_permutations);
    let candidate = chain_element(image_table(permutation));
    proof {
        assert forall|k: int| 0 <= k < elements@.len() implies is_table(
            element_images(#[trigger] elements@[k]),
            points@.len() + 1,
        ) by {
            assert(images_of_all(elements@)[k] == tables_of(generators)[k]);
            lemma_table_of_mapping(generators[k], n);
        }
        let (k, x) = choose|k: int, x: u64|
            0 <= k < generators.len() && x < largest && #[trigger] table_of(generators[k])[x] != x;
        assert(images_of_all(elements@)[k] == tables_of(generators)[k]);
        assert(element_images(elements@[k])[x] != x);
    }
    membership_verdict(chain_has_member(points, elements, candidate))
}

/// Validates the base mappings of a group in their order, each against
/// `expected_length`, and stops at the first that is refused.
pub fn validate_base_mappings(mappings: &Vec<Vec<usize>>, expected_length: usize) -> (r: Result<
    (),
    Error,
>)
    ensures
        r == group_validation(seqs_of(mappings@), expected_length as nat),
        r is Ok <==> all_mappings(seqs_of(mappings@), expected_length as nat),
{
    let ghost all = seqs_of(mappings@);
    let ghost n = expected_length as nat;
    let mut k: usize = 0;
    while k < mappings.len()
        invariant
            all == seqs_of(mappings@),
            n == expected_length,
            k <= mappings@.len(),
            all_mappings(all.take(k as int), n),
        decreases mappings@.len() - k,
    {
        match validate_permutation(mappings[k].as_slice(), expected_length) {
            Ok(()) => {},
            Err(e) => {
                proof {
                    assert(all[k as int] == mappings@[k as int]@);
                    lemma_group_validation_fault(all, n, k as int);
                }
                return Err(e);
            },
        }
        proof {
            assert(all[k as int] == mappings@[k as int]@);
            assert forall|j: int| 0 <= j < k + 1 implies is_mapping(
                #[trigger] all.take(k + 1)[j],
                n,
            ) by {
                if j < k {
                    assert(all.take(k as int)[j] == all[j]);
                }
            }
        }
        k += 1;
    }
    proof {
        assert(all.take(mappings@.len() as int) =~= all);
    }
    Ok(())
}

/// What the admission of `mapping` to a group answers: the error of the
/// validator if it refuses the mapping, `NotAMember` if the base mappings do
/// not generate it.
pub open spec fn admission(mapping: Seq<usize>, n: nat, generators: Seq<Seq<usize>>) -> Result<
    (),
    Error,
> {
    match validation(mapping, n) {
        Err(e) => Err(e),
        Ok(()) => if is_member(mapping, generators) {
            Ok(())
        } else {
            Err(Error::NotAMember)
        },
    }
}

/// Decides whether `mapping` may join the group on `0..expected_length` that
/// `base_permutations` generate: it has to be a bijection on that domain, and
/// generated by them.
pub fn validate_admission(
    mapping: &[usize],
    expected_length: usize,
    base_permutations: &[&[usize]],
) -> (r: Result<(), Error>)
    requires
        all_mappings(views_of(base_permutations@), expected_length as nat),
    ensures
        r == admission(mapping@, expected_length as nat, views_of(base_permutations@)),
        r is Ok ==> is_mapping(mapping@, expected_length as nat),
{
    match validate_permutation(mapping, expected_length) {
        Err(e) => Err(e),
        Ok(()) => {
            proof {
                assert forall|k: int| 0 <= k < base_permutations@.len() implies is_mapping(
                    (#[trigger] base_permutations@[k])@,
                    mapping@.len(),
                ) by {
                    assert(views_of(base_permutations@)[k] == base_permutations@[k]@);
                }
            }
            validate_permutation_group_membership(mapping, base_permutations)
        },
    }
}

} // verus!
