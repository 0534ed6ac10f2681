use vstd::prelude::*;

verus! {

/// The errors that the permutation can report.
#[derive(Debug, Clone, Copy, PartialEq, Eq, Structural)]
pub enum PermutationError {
    /// An index at or past the length of the permutation was asked for. `shuffle` is the
    /// index asked for, and `max_shuffle` is the length of the permutation, which every
    /// index must stay below.
    ShuffleOutOfRange { shuffle: u32, max_shuffle: u32 },
}

/// A result whose error is a permutation error.
pub type PermutationResult<T> = Result<T, PermutationError>;

} // verus!
