//! The ways in which an operation of this crate can fail.

use vstd::prelude::*;

verus! {

/// Why a mapping was rejected or a composition refused.
#[derive(Clone, Copy, Debug, PartialEq, Eq, Structural)]
pub enum Error {
    /// A mapping does not have the expected number of entries, or two
    /// permutations that were to be composed differ in length.
    LengthMismatch,
    /// A mapping holds an entry that lies outside its domain.
    OutOfRange,
    /// A mapping holds the same entry twice.
    DuplicateEntry,
    /// A mapping is not generated by the base permutations of the group.
    NotAMember,
    /// Permutations of different groups were to be composed.
    GroupMismatch,
}

impl Error {
    /// The text of the message, as a sequence of characters.
    pub open spec fn text(self) -> Seq<char> {
        match self {
            Error::LengthMismatch => "Permutations must have the same length"@,
            Error::OutOfRange => "Permutation contains an element greater than or equal to the length"@,
            Error::DuplicateEntry => "Permutation contains duplicate elements"@,
            Error::NotAMember => "Permutation is not a member of this group"@,
            Error::GroupMismatch => "Permutations must come from the same permutation group"@,
        }
    }

    /// A sentence that describes the error.
    pub fn message(self) -> (s: &'static str)
        ensures
            s@ == self.text(),
    {
        match self {
            Error::LengthMismatch => "Permutations must have the same length",
            Error::OutOfRange => "Permutation contains an element greater than or equal to the length",
            Error::DuplicateEntry => "Permutation contains duplicate elements",
            Error::NotAMember => "Permutation is not a member of this group",
            Error::GroupMismatch => "Permutations must come from the same permutation group",
        }
    }
}

} // verus!
