//! Permutations of `[0, n)` computed one index at a time, with no storage.
//!
//! A `HashedPermutation` maps an index to its place in a pseudo-random permutation
//! chosen by a seed, using Kensler's hashed permutation: rounds of an invertible bit
//! mixer on the smallest power-of-two domain that holds `[0, n)`, repeated until the
//! value falls below `n`, then a rotation by the seed. A `HashedIter` walks the whole
//! permutation in order.
mod counting;
mod error;
mod iterator;
mod kensler;
mod mixing;
mod walk;

pub use error::{PermutationError, PermutationResult};
pub use iterator::{lemma_remaining_matches_shuffle, HashedIter};
pub use kensler::{
    domain_mask, lemma_permuted_in_range, lemma_permuted_injective, lemma_permuted_onto,
    lemma_shuffle_deterministic, permuted, HashedPermutation,
};
