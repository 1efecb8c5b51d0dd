use generativity_pattern_rs::composer;
use generativity_pattern_rs::mod_1_slice;
use generativity_pattern_rs::Error;

const PERM_A: [usize; 15] = [8, 1, 10, 0, 9, 4, 12, 2, 6, 3, 7, 14, 11, 5, 13];
const PERM_B: [usize; 15] = [1, 4, 7, 3, 10, 12, 6, 8, 5, 13, 0, 14, 2, 11, 9];
const A_AFTER_B: [usize; 15] = [1, 9, 2, 0, 7, 11, 12, 6, 4, 5, 8, 13, 10, 14, 3];

#[test]
fn composer_applies_the_right_operand_first() {
    let mut into = [0; 3];
    composer::compose_into(&[1, 0, 2], &[0, 2, 1], &mut into);
    assert_eq!(into, [1, 2, 0]);
    composer::compose_into(&[0, 2, 1], &[1, 0, 2], &mut into);
    assert_eq!(into, [2, 0, 1]);
}

#[test]
fn composer_on_fifteen_points() {
    let mut into = [0; 15];
    composer::compose_into(&PERM_A, &PERM_B, &mut into);
    for i in 0..15 {
        assert_eq!(into[i], PERM_A[PERM_B[i]]);
    }
    assert_eq!(into, A_AFTER_B);
}

#[test]
fn composer_on_the_empty_domain() {
    let mut into: [usize; 0] = [];
    composer::compose_into(&[], &[], &mut into);
    assert_eq!(into, []);
}

#[test]
fn slices_compose_on_fifteen_points() {
    let mut into = [0; 15];
    let mut seen_a = [true; 15];
    let mut seen_b = [true; 15];
    let r = mod_1_slice::compose_into(&PERM_A, &PERM_B, &mut into, &mut seen_a, &mut seen_b);
    assert_eq!(r, Ok(()));
    for i in 0..15 {
        assert_eq!(into[i], PERM_A[PERM_B[i]]);
    }
    assert_eq!(into, A_AFTER_B);
}

#[test]
fn slices_of_different_lengths_are_refused() {
    let mut into = [9; 3];
    let mut seen_a = [false; 3];
    let mut seen_b = [false; 3];
    let r = mod_1_slice::compose_into(&[0, 1], &[1, 0, 2], &mut into, &mut seen_a, &mut seen_b);
    assert_eq!(r, Err(Error::LengthMismatch));
    assert_eq!(into, [9, 9, 9]);
    let mut short = [9; 2];
    let r = mod_1_slice::compose_into(
        &[0, 1, 2],
        &[1, 0, 2],
        &mut short,
        &mut seen_a,
        &mut seen_b,
    );
    assert_eq!(r, Err(Error::LengthMismatch));
    assert_eq!(short, [9, 9]);
}

#[test]
fn slices_stop_at_an_entry_of_b_out_of_range() {
    let mut into = [9; 3];
    let mut seen_a = [false; 3];
    let mut seen_b = [false; 3];
    let r = mod_1_slice::compose_into(&[1, 2, 0], &[2, 3, 0], &mut into, &mut seen_a, &mut seen_b);
    assert_eq!(r, Err(Error::OutOfRange));
    assert_eq!(into, [0, 9, 9]);
}

#[test]
fn slices_stop_at_a_repeated_entry_of_b() {
    let mut into = [9; 3];
    let mut seen_a = [false; 3];
    let mut seen_b = [false; 3];
    let r = mod_1_slice::compose_into(&[1, 2, 0], &[2, 1, 2], &mut into, &mut seen_a, &mut seen_b);
    assert_eq!(r, Err(Error::DuplicateEntry));
    assert_eq!(into, [0, 2, 9]);
}

#[test]
fn slices_stop_at_an_entry_of_a_out_of_range() {
    let mut into = [9; 3];
    let mut seen_a = [false; 3];
    let mut seen_b = [false; 3];
    let r = mod_1_slice::compose_into(&[1, 7, 0], &[0, 1, 2], &mut into, &mut seen_a, &mut seen_b);
    assert_eq!(r, Err(Error::OutOfRange));
    assert_eq!(into, [1, 9, 9]);
}

#[test]
fn slices_stop_at_a_repeated_entry_of_a() {
    let mut into = [9; 3];
    let mut seen_a = [false; 3];
    let mut seen_b = [false; 3];
    let r = mod_1_slice::compose_into(&[1, 1, 0], &[2, 0, 1], &mut into, &mut seen_a, &mut seen_b);
    assert_eq!(r, Err(Error::DuplicateEntry));
    assert_eq!(into, [0, 1, 9]);
}

#[test]
fn slices_look_at_b_before_a() {
    let mut into = [9; 2];
    let mut seen_a = [false; 2];
    let mut seen_b = [false; 2];
    let r = mod_1_slice::compose_into(&[5, 5], &[4, 4], &mut into, &mut seen_a, &mut seen_b);
    assert_eq!(r, Err(Error::OutOfRange));
    assert_eq!(into, [9, 9]);
    let r = mod_1_slice::compose_into(&[1, 1], &[0, 0], &mut into, &mut seen_a, &mut seen_b);
    assert_eq!(r, Err(Error::DuplicateEntry));
    assert_eq!(into, [1, 9]);
}

#[test]
fn slices_leave_a_flag_for_each_entry_they_took() {
    let mut into = [9; 3];
    let mut seen_a = [true; 3];
    let mut seen_b = [true; 3];
    let r = mod_1_slice::compose_into(&[1, 2, 0], &[2, 0, 1], &mut into, &mut seen_a, &mut seen_b);
    assert_eq!(r, Ok(()));
    assert_eq!(seen_a, [true, true, true]);
    assert_eq!(seen_b, [true, true, true]);
    let r = mod_1_slice::compose_into(&[1, 2, 0], &[2, 3, 0], &mut into, &mut seen_a, &mut seen_b);
    assert_eq!(r, Err(Error::OutOfRange));
    assert_eq!(seen_a, [true, false, false]);
    assert_eq!(seen_b, [false, false, true]);
    let r = mod_1_slice::compose_into(&[1, 7, 0], &[0, 1, 2], &mut into, &mut seen_a, &mut seen_b);
    assert_eq!(r, Err(Error::OutOfRange));
    assert_eq!(seen_a, [false, true, false]);
    assert_eq!(seen_b, [true, true, false]);
    let r = mod_1_slice::compose_into(&[0, 1], &[1, 0, 2], &mut into, &mut seen_a, &mut seen_b);
    assert_eq!(r, Err(Error::LengthMismatch));
    assert_eq!(seen_a, [false, true, false]);
    assert_eq!(seen_b, [true, true, false]);
}
