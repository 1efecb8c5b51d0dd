use generativity_pattern_rs::composer;
use generativity_pattern_rs::mod_2_newtype::Permutation;
use generativity_pattern_rs::validate_permutation;

const PERM_A: [usize; 15] = [8, 1, 10, 0, 9, 4, 12, 2, 6, 3, 7, 14, 11, 5, 13];
const PERM_B: [usize; 15] = [1, 4, 7, 3, 10, 12, 6, 8, 5, 13, 0, 14, 2, 11, 9];
const B_INVERSE: [usize; 15] = [10, 0, 12, 3, 1, 8, 6, 2, 7, 14, 4, 13, 5, 9, 11];
const IDENTITY: [usize; 15] = [0, 1, 2, 3, 4, 5, 6, 7, 8, 9, 10, 11, 12, 13, 14];

fn composed(a: &[usize], b: &[usize]) -> Vec<usize> {
    let mut into = vec![0; a.len()];
    composer::compose_into(a, b, &mut into);
    into
}

#[test]
fn a_left_inverse_of_b_recovers_a() {
    assert_eq!(validate_permutation(&B_INVERSE, 15), Ok(()));
    assert_eq!(composed(&B_INVERSE, &PERM_B), IDENTITY);
    let product = composed(&PERM_A, &PERM_B);
    assert_eq!(composed(&product, &B_INVERSE), PERM_A);
}

#[test]
fn a_left_inverse_recovers_on_three_points() {
    let a = Permutation::from_mapping(vec![1, 0, 2]).unwrap();
    let b = Permutation::from_mapping(vec![1, 2, 0]).unwrap();
    let b_inverse = Permutation::from_mapping(vec![2, 0, 1]).unwrap();
    assert_eq!(b_inverse.compose(&b).unwrap().mapping(), [0, 1, 2]);
    let product = a.compose(&b).unwrap();
    assert_eq!(product.mapping(), [0, 2, 1]);
    assert_eq!(product.compose(&b_inverse).unwrap().mapping(), [1, 0, 2]);
}

#[test]
fn the_identity_changes_nothing_on_either_side() {
    assert_eq!(composed(&IDENTITY, &PERM_A), PERM_A);
    assert_eq!(composed(&PERM_A, &IDENTITY), PERM_A);
    assert_eq!(composed(&[0], &[0]), [0]);
    let p = Permutation::from_mapping(vec![2, 0, 1]).unwrap();
    let identity = Permutation::from_mapping(vec![0, 1, 2]).unwrap();
    assert_eq!(identity.compose(&p).unwrap().mapping(), [2, 0, 1]);
    assert_eq!(p.compose(&identity).unwrap().mapping(), [2, 0, 1]);
}

#[test]
fn composition_is_associative() {
    let left = composed(&composed(&PERM_A, &PERM_B), &PERM_A);
    let right = composed(&PERM_A, &composed(&PERM_B, &PERM_A));
    assert_eq!(left, right);
}

#[test]
fn composition_does_not_commute() {
    assert_eq!(composed(&[1, 0, 2], &[0, 2, 1]), [1, 2, 0]);
    assert_eq!(composed(&[0, 2, 1], &[1, 0, 2]), [2, 0, 1]);
}
