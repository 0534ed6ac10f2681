//! A walk through a whole permutation, one value at a time, in O(1) space.
use vstd::prelude::*;
use crate::error::PermutationError;
use crate::kensler::{permuted, HashedPermutation};

verus! {

/// Yields the values of a permutation at indices `0, 1, 2, ...` until the length is
/// reached.
pub struct HashedIter {
    /// The permutation that is walked.
    permutation_engine: HashedPermutation,
    /// The next index to ask the permutation for.
    current_idx: u32,
}

impl HashedIter {
    /// The permutation that is walked.
    pub closed spec fn engine(&self) -> HashedPermutation {
        self.permutation_engine
    }

    /// The next index to ask the permutation for.
    pub closed spec fn cursor(&self) -> u32 {
        self.current_idx
    }

    /// The permutation is well formed and the cursor has not passed its length.
    pub open spec fn wf(&self) -> bool {
        self.engine().wf() && self.cursor() <= self.engine().length
    }

    /// The values still to come, in order: the permutation at each index from the
    /// cursor up to the length.
    pub open spec fn remaining(&self) -> Seq<u32> {
        let e = self.engine();
        Seq::new(
            (e.length - self.cursor()) as nat,
            |k: int| permuted(e.seed, e.length, (self.cursor() + k) as u32),
        )
    }

    /// Creates a walk through a permutation of `[0, length)` with a random seed.
    pub fn new(length: u32) -> (r: Self)
        requires
            length > 0,
        ensures
            r.wf(),
            r.engine().length == length,
            r.cursor() == 0,
    {
        let permutation_engine = HashedPermutation::new(length);
        HashedIter { permutation_engine, current_idx: 0 }
    }

    /// Creates a walk through the permutation of `[0, length)` that `seed` selects.
    pub fn new_with_seed(length: u32, seed: u32) -> (r: Self)
        requires
            length > 0,
        ensures
            r.wf(),
            r.engine() == (HashedPermutation { seed, length }),
            r.cursor() == 0,
            r.remaining() == Seq::new(length as nat, |k: int| permuted(seed, length, k as u32)),
    {
        let permutation_engine = HashedPermutation::new_with_seed(length, seed);
        let r = HashedIter { permutation_engine, current_idx: 0 };
        assert(r.remaining() =~= Seq::new(length as nat, |k: int| permuted(seed, length, k as u32)));
        r
    }

    /// The next value of the permutation, or `None` once every index has been visited.
    pub fn next(&mut self) -> (r: Option<u32>)
        requires
            old(self).wf(),
        ensures
            final(self).wf(),
            final(self).engine() == old(self).engine(),
            r == (if old(self).remaining().len() == 0 {
                None
            } else {
                Some(old(self).remaining()[0])
            }),
            final(self).remaining() == (if old(self).remaining().len() == 0 {
                old(self).remaining()
            } else {
                old(self).remaining().drop_first()
            }),
    {
        match self.permutation_engine.shuffle(self.current_idx) {
            Ok(elem) => {
                self.current_idx += 1;
                proof {
                    assert(final(self).remaining() =~= old(self).remaining().drop_first());
                }
                Some(elem)
            },
            Err(_) => None,
        }
    }
}

/// The values still to come from a walk are the permutation's results at the
/// indices from the cursor up to the length, in order, and there are exactly as many
/// of them as indices left.
pub proof fn lemma_remaining_matches_shuffle(it: HashedIter, k: int)
    requires
        it.wf(),
        0 <= k < it.remaining().len(),
    ensures
        it.remaining().len() == it.engine().length - it.cursor(),
        it.engine().shuffle_spec((it.cursor() + k) as u32) == Ok::<u32, PermutationError>(it.remaining()[k]),
{
}

} // verus!
