use generativity_pattern_rs::composer;
use generativity_pattern_rs::mod_1_slice;
use generativity_pattern_rs::mod_2_newtype;
use generativity_pattern_rs::mod_3_unsafe_trait;
use generativity_pattern_rs::mod_3_unsafe_trait::ComposablePermutation;
use generativity_pattern_rs::mod_4_atomic_id;
use generativity_pattern_rs::mod_6_unsound_token;
use generativity_pattern_rs::Error;
use std::sync::atomic::AtomicU64;
use std::sync::atomic::Ordering;

const PERM_A: [usize; 15] = [8, 1, 10, 0, 9, 4, 12, 2, 6, 3, 7, 14, 11, 5, 13];
const PERM_B: [usize; 15] = [1, 4, 7, 3, 10, 12, 6, 8, 5, 13, 0, 14, 2, 11, 9];
const A_AFTER_B: [usize; 15] = [1, 9, 2, 0, 7, 11, 12, 6, 4, 5, 8, 13, 10, 14, 3];
const B_AFTER_A: [usize; 15] = [5, 4, 0, 1, 13, 10, 2, 7, 6, 3, 8, 9, 14, 12, 11];

struct InvariantToken;

#[test]
fn newtype_validates_when_it_is_made() {
    assert!(mod_2_newtype::Permutation::from_mapping(vec![1, 2, 0]).is_ok());
    assert_eq!(
        mod_2_newtype::Permutation::from_mapping(vec![0, 3, 1]).err(),
        Some(Error::OutOfRange)
    );
    assert_eq!(
        mod_2_newtype::Permutation::from_mapping(vec![0, 0, 1]).err(),
        Some(Error::DuplicateEntry)
    );
    let p = mod_2_newtype::Permutation::from_mapping(vec![1, 2, 0]).unwrap();
    assert_eq!(p.mapping(), [1, 2, 0]);
}

#[test]
fn newtype_composes_on_fifteen_points() {
    let a = mod_2_newtype::Permutation::from_mapping(PERM_A.to_vec()).unwrap();
    let b = mod_2_newtype::Permutation::from_mapping(PERM_B.to_vec()).unwrap();
    let product = a.compose(&b).unwrap();
    for i in 0..15 {
        assert_eq!(product.mapping()[i], PERM_A[PERM_B[i]]);
    }
    let mut into = b.compose(&a).unwrap();
    assert_eq!(into.mapping(), B_AFTER_A);
    assert_eq!(a.compose_into(&b, &mut into), Ok(()));
    assert_eq!(into.mapping(), A_AFTER_B);
}

#[test]
fn newtype_refuses_different_lengths() {
    let a = mod_2_newtype::Permutation::from_mapping(vec![1, 2, 0]).unwrap();
    let b = mod_2_newtype::Permutation::from_mapping(vec![1, 0]).unwrap();
    assert_eq!(a.compose(&b).err(), Some(Error::LengthMismatch));
    assert_eq!(b.compose(&a).err(), Some(Error::LengthMismatch));
    let mut into = mod_2_newtype::Permutation::from_mapping(vec![0, 1]).unwrap();
    assert_eq!(a.compose_into(&a, &mut into), Err(Error::LengthMismatch));
    assert_eq!(into.mapping(), [0, 1]);
    let mut into = mod_2_newtype::Permutation::from_mapping(vec![0, 2, 1]).unwrap();
    assert_eq!(a.compose_into(&b, &mut into), Err(Error::LengthMismatch));
    assert_eq!(into.mapping(), [0, 2, 1]);
}

#[test]
fn contract_group_keeps_the_order_of_its_base_mappings() {
    let group =
        mod_3_unsafe_trait::PermGroup::new(15, vec![PERM_A.to_vec(), PERM_B.to_vec()]).unwrap();
    assert_eq!(group.base_permutations().len(), 2);
    assert_eq!(group.base_permutations()[0].mapping(), PERM_A);
    assert_eq!(group.base_permutations()[1].mapping(), PERM_B);
}

#[test]
fn contract_group_fails_with_the_first_error() {
    let r = mod_3_unsafe_trait::PermGroup::new(3, vec![vec![1, 2, 0], vec![0, 1], vec![0, 0, 1]]);
    assert_eq!(r.err(), Some(Error::LengthMismatch));
    let r = mod_3_unsafe_trait::PermGroup::new(3, vec![vec![0, 0, 1], vec![0, 1]]);
    assert_eq!(r.err(), Some(Error::DuplicateEntry));
    let r = mod_3_unsafe_trait::PermGroup::new(3, vec![vec![0, 1, 3]]);
    assert_eq!(r.err(), Some(Error::OutOfRange));
    assert!(mod_3_unsafe_trait::PermGroup::new(3, Vec::new()).is_ok());
}

#[test]
fn contract_composes_on_fifteen_points() {
    let group =
        mod_3_unsafe_trait::PermGroup::new(15, vec![PERM_A.to_vec(), PERM_B.to_vec()]).unwrap();
    let a = &group.base_permutations()[0];
    let b = &group.base_permutations()[1];
    let mut into = a.compose(b);
    for i in 0..15 {
        assert_eq!(into.mapping()[i], PERM_A[PERM_B[i]]);
    }
    b.compose_into(a, &mut into);
    assert_eq!(into.mapping(), B_AFTER_A);
}

#[test]
fn contract_permutation_validates_and_clones() {
    let p = <mod_3_unsafe_trait::Permutation as ComposablePermutation>::from_mapping(vec![1, 0])
        .unwrap();
    assert_eq!(p.clone().mapping(), [1, 0]);
    let r = <mod_3_unsafe_trait::Permutation as ComposablePermutation>::from_mapping(vec![1, 1]);
    assert_eq!(r.err(), Some(Error::DuplicateEntry));
}

#[test]
fn tagged_permutations_of_two_groups_do_not_compose() {
    let ids = AtomicU64::new(0);
    let first = mod_4_atomic_id::PermGroup::new(3, vec![vec![1, 2, 0]], &ids).unwrap();
    let second = mod_4_atomic_id::PermGroup::new(3, vec![vec![1, 2, 0]], &ids).unwrap();
    let a = &first.base_permutations()[0];
    let b = &second.base_permutations()[0];
    let mut into = a.compose(a).unwrap();
    assert_eq!(a.compose_into(b, &mut into), Err(Error::GroupMismatch));
    assert_eq!(b.compose_into(a, &mut into), Err(Error::GroupMismatch));
    assert_eq!(b.compose_into(b, &mut into), Err(Error::GroupMismatch));
    assert_eq!(into.mapping(), [2, 0, 1]);
    assert_eq!(a.compose(b).err(), Some(Error::GroupMismatch));
}

#[test]
fn tagged_permutations_of_one_group_compose_as_the_composer_does() {
    let ids = AtomicU64::new(0);
    let group =
        mod_4_atomic_id::PermGroup::new(15, vec![PERM_A.to_vec(), PERM_B.to_vec()], &ids).unwrap();
    let a = &group.base_permutations()[0];
    let b = &group.base_permutations()[1];
    let mut into = b.compose(a).unwrap();
    assert_eq!(a.compose_into(b, &mut into), Ok(()));
    let mut expected = [0; 15];
    composer::compose_into(&PERM_A, &PERM_B, &mut expected);
    assert_eq!(into.mapping(), expected);
    assert_eq!(a.compose(b).unwrap().mapping(), expected);
}

#[test]
fn the_counter_goes_up_once_for_each_group_that_is_made() {
    let ids = AtomicU64::new(7);
    assert!(mod_4_atomic_id::PermGroup::new(3, vec![vec![1, 2, 0]], &ids).is_ok());
    assert_eq!(ids.load(Ordering::Relaxed), 8);
    assert!(mod_4_atomic_id::PermGroup::new(3, vec![vec![1, 2]], &ids).is_err());
    assert_eq!(ids.load(Ordering::Relaxed), 8);
    assert!(mod_4_atomic_id::PermGroup::new(2, Vec::new(), &ids).is_ok());
    assert_eq!(ids.load(Ordering::Relaxed), 9);
}

#[test]
fn tagged_group_fails_with_the_first_error() {
    let ids = AtomicU64::new(0);
    let r = mod_4_atomic_id::PermGroup::new(3, vec![vec![1, 2, 0], vec![0, 1]], &ids);
    assert_eq!(r.err(), Some(Error::LengthMismatch));
    let r = mod_4_atomic_id::PermGroup::new(3, vec![vec![2, 2, 0], vec![0, 1]], &ids);
    assert_eq!(r.err(), Some(Error::DuplicateEntry));
    let r = mod_4_atomic_id::PermGroup::new(3, vec![vec![1, 2, 3]], &ids);
    assert_eq!(r.err(), Some(Error::OutOfRange));
}

#[test]
fn an_id_that_is_given_by_hand_is_compared_like_any_other() {
    let group = mod_4_atomic_id::PermGroup::tagged(3, vec![vec![1, 2, 0]], 41);
    let a = &group.base_permutations()[0];
    let same = mod_4_atomic_id::Permutation::from_mapping(vec![0, 2, 1], 41).unwrap();
    let other = mod_4_atomic_id::Permutation::from_mapping(vec![0, 2, 1], 42).unwrap();
    let longer = mod_4_atomic_id::Permutation::from_mapping(vec![0, 2, 1, 3], 41).unwrap();
    assert_eq!(a.compose(&same).unwrap().mapping(), [1, 0, 2]);
    assert_eq!(a.compose(&other).err(), Some(Error::GroupMismatch));
    assert_eq!(a.compose(&longer).err(), Some(Error::LengthMismatch));
    assert_eq!(
        mod_4_atomic_id::Permutation::from_mapping(vec![0, 2, 2], 41).err(),
        Some(Error::DuplicateEntry)
    );
}

#[test]
fn token_composes_on_fifteen_points() {
    let group = mod_6_unsound_token::PermGroup::<InvariantToken>::new(
        15,
        vec![PERM_A.to_vec(), PERM_B.to_vec()],
    )
    .unwrap();
    let a = &group.base_permutations()[0];
    let b = &group.base_permutations()[1];
    let mut into = a.compose(b);
    for i in 0..15 {
        assert_eq!(into.mapping()[i], PERM_A[PERM_B[i]]);
    }
    b.compose_into(a, &mut into);
    assert_eq!(into.mapping(), B_AFTER_A);
}

#[test]
fn token_group_fails_with_the_first_error() {
    let r = mod_6_unsound_token::PermGroup::<InvariantToken>::new(3, vec![vec![0, 1], vec![3]]);
    assert_eq!(r.err(), Some(Error::LengthMismatch));
    let r = mod_6_unsound_token::Permutation::<InvariantToken>::from_mapping(vec![0, 2]);
    assert_eq!(r.err(), Some(Error::OutOfRange));
}

#[test]
fn unsound() {
    let first = (4, vec![vec![1, 2, 0, 3]]);
    let second = (3, vec![vec![2, 0, 1]]);

    let mut perm_groups = vec![];
    for (len, mappings) in [first, second] {
        perm_groups
            .push(mod_6_unsound_token::PermGroup::<InvariantToken>::new(len, mappings).unwrap());
    }
    let first_perm = &perm_groups[0].base_permutations()[0];
    let second_perm = &perm_groups[1].base_permutations()[0];

    // No compile error: the token does not keep the groups apart. Only the
    // precondition of `compose` does, and these two do not meet it.
    if first_perm.mapping().len() == second_perm.mapping().len() {
        first_perm.compose(second_perm);
    }
    assert_eq!(first_perm.mapping().len(), 4);
    assert_eq!(second_perm.mapping().len(), 3);
}

#[test]
fn the_strategies_agree_on_fifteen_points() {
    let mut slices = [0; 15];
    let mut seen_a = [false; 15];
    let mut seen_b = [false; 15];
    mod_1_slice::compose_into(&PERM_A, &PERM_B, &mut slices, &mut seen_a, &mut seen_b).unwrap();

    let a = mod_2_newtype::Permutation::from_mapping(PERM_A.to_vec()).unwrap();
    let b = mod_2_newtype::Permutation::from_mapping(PERM_B.to_vec()).unwrap();
    let newtype = a.compose(&b).unwrap();

    let group =
        mod_3_unsafe_trait::PermGroup::new(15, vec![PERM_A.to_vec(), PERM_B.to_vec()]).unwrap();
    let contract = group.base_permutations()[0].compose(&group.base_permutations()[1]);

    let ids = AtomicU64::new(0);
    let group =
        mod_4_atomic_id::PermGroup::new(15, vec![PERM_A.to_vec(), PERM_B.to_vec()], &ids).unwrap();
    let tagged = group.base_permutations()[0].compose(&group.base_permutations()[1]).unwrap();

    let group = mod_6_unsound_token::PermGroup::<InvariantToken>::new(
        15,
        vec![PERM_A.to_vec(), PERM_B.to_vec()],
    )
    .unwrap();
    let token = group.base_permutations()[0].compose(&group.base_permutations()[1]);

    assert_eq!(slices, A_AFTER_B);
    assert_eq!(newtype.mapping(), A_AFTER_B);
    assert_eq!(contract.mapping(), A_AFTER_B);
    assert_eq!(tagged.mapping(), A_AFTER_B);
    assert_eq!(token.mapping(), A_AFTER_B);
}
