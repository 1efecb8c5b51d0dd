use generativity_pattern_rs::validate_base_mappings;
use generativity_pattern_rs::validate_permutation;
use generativity_pattern_rs::Error;

#[test]
fn validator_accepts_bijections() {
    assert_eq!(validate_permutation(&[1, 2, 0], 3), Ok(()));
    assert_eq!(validate_permutation(&[0], 1), Ok(()));
    assert_eq!(validate_permutation(&[], 0), Ok(()));
    assert_eq!(
        validate_permutation(&[8, 1, 10, 0, 9, 4, 12, 2, 6, 3, 7, 14, 11, 5, 13], 15),
        Ok(())
    );
}

#[test]
fn validator_rejects_a_mapping_one_element_too_short() {
    assert_eq!(validate_permutation(&[0, 1], 3), Err(Error::LengthMismatch));
}

#[test]
fn validator_rejects_a_mapping_that_is_too_long() {
    assert_eq!(validate_permutation(&[0, 1, 2, 3], 3), Err(Error::LengthMismatch));
}

#[test]
fn validator_rejects_the_value_n_on_a_domain_of_size_n() {
    assert_eq!(validate_permutation(&[0, 3, 1], 3), Err(Error::OutOfRange));
}

#[test]
fn validator_rejects_the_value_zero_twice() {
    assert_eq!(validate_permutation(&[0, 0, 1], 3), Err(Error::DuplicateEntry));
}

#[test]
fn validator_checks_the_length_before_the_entries() {
    assert_eq!(validate_permutation(&[7, 7], 3), Err(Error::LengthMismatch));
}

#[test]
fn validator_reports_the_first_fault_it_meets() {
    assert_eq!(validate_permutation(&[0, 0, 5], 3), Err(Error::DuplicateEntry));
    assert_eq!(validate_permutation(&[5, 0, 0], 3), Err(Error::OutOfRange));
    assert_eq!(validate_permutation(&[1, 1, 1], 3), Err(Error::DuplicateEntry));
}

#[test]
fn base_mappings_fail_with_the_error_of_the_first_that_is_refused() {
    let good = vec![vec![1, 2, 0], vec![0, 2, 1]];
    assert_eq!(validate_base_mappings(&good, 3), Ok(()));
    assert_eq!(validate_base_mappings(&Vec::new(), 3), Ok(()));
    let short_then_duplicate = vec![vec![1, 2, 0], vec![0, 1], vec![0, 0, 1]];
    assert_eq!(validate_base_mappings(&short_then_duplicate, 3), Err(Error::LengthMismatch));
    let duplicate_then_short = vec![vec![0, 0, 1], vec![0, 1]];
    assert_eq!(validate_base_mappings(&duplicate_then_short, 3), Err(Error::DuplicateEntry));
    let out_of_range = vec![vec![1, 2, 0], vec![0, 1, 3]];
    assert_eq!(validate_base_mappings(&out_of_range, 3), Err(Error::OutOfRange));
}

#[test]
fn each_error_has_its_message() {
    assert_eq!(Error::LengthMismatch.message(), "Permutations must have the same length");
    assert_eq!(
        Error::OutOfRange.message(),
        "Permutation contains an element greater than or equal to the length"
    );
    assert_eq!(Error::DuplicateEntry.message(), "Permutation contains duplicate elements");
    assert_eq!(Error::NotAMember.message(), "Permutation is not a member of this group");
    assert_eq!(
        Error::GroupMismatch.message(),
        "Permutations must come from the same permutation group"
    );
}
