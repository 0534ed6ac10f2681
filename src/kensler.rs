//! The hashed permutation and the state that selects it.
//!
//! The method is Andrew Kensler's, from his 2013 paper on correlated multi-jittered
//! sampling.
use vstd::prelude::*;
use crate::counting::lemma_injective_onto;
use crate::error::{PermutationError, PermutationResult};
use crate::mixing::{is_low_mask, mix};
use crate::walk::{lemma_walk_injective, lemma_walk_landing, walk};

verus! {

/// Sets every bit below the highest set bit of `v`.
pub open spec fn smear(v: u32) -> u32 {
    let v = v | (v >> 1u32);
    let v = v | (v >> 2u32);
    let v = v | (v >> 4u32);
    let v = v | (v >> 8u32);
    v | (v >> 16u32)
}

/// The smallest mask of the form `2^b - 1` that holds every index below `length`.
pub open spec fn domain_mask(length: u32) -> u32 {
    smear((length - 1) as u32)
}

/// The value at `index` of the permutation of `[0, length)` that `seed` selects: the
/// first value below `length` that rounds of mixing reach from `index`, rotated by
/// `seed` modulo `length`.
pub open spec fn permuted(seed: u32, length: u32, index: u32) -> u32 {
    let w = domain_mask(length);
    ((walk(index, seed, w, length, w as nat) as int + seed as int) % length as int) as u32
}

proof fn lemma_smear(v: u32)
    by (bit_vector)
    ensures
        v <= smear(v),
        smear(v) & ((smear(v) as u64 + 1) as u32) == 0,
{
}

proof fn lemma_domain_mask(length: u32)
    requires
        length > 0,
    ensures
        is_low_mask(domain_mask(length)),
        length as int <= domain_mask(length) as int + 1,
{
    lemma_smear((length - 1) as u32);
}

proof fn lemma_rotation_injective(a: int, b: int, s: int, n: int)
    requires
        0 <= a < n,
        0 <= b < n,
        0 <= s,
        (a + s) % n == (b + s) % n,
    ensures
        a == b,
{
    vstd::arithmetic::div_mod::lemma_fundamental_div_mod(a + s, n);
    vstd::arithmetic::div_mod::lemma_fundamental_div_mod(b + s, n);
    let qa = (a + s) / n;
    let qb = (b + s) / n;
    assert(a - b == (qa - qb) * n) by (nonlinear_arith)
        requires
            a + s == n * qa + (a + s) % n,
            b + s == n * qb + (b + s) % n,
            (a + s) % n == (b + s) % n,
    ;
    if qa > qb {
        assert(a - b >= n) by (nonlinear_arith)
            requires
                a - b == (qa - qb) * n,
                qa - qb >= 1,
                n > 0,
        ;
    } else if qa < qb {
        assert(b - a >= n) by (nonlinear_arith)
            requires
                a - b == (qa - qb) * n,
                qb - qa >= 1,
                n > 0,
        ;
    } else {
        assert(a - b == 0) by (nonlinear_arith)
            requires
                a - b == (qa - qb) * n,
                qa == qb,
        ;
    }
}

/// Every index below the length is sent below the length.
pub proof fn lemma_permuted_in_range(seed: u32, length: u32, index: u32)
    requires
        length > 0,
        index < length,
    ensures
        permuted(seed, length, index) < length,
{
    let w = domain_mask(length);
    lemma_domain_mask(length);
    lemma_walk_landing(index, seed, w, length);
}

/// Two indices below the length that are sent to the same value are the same index.
pub proof fn lemma_permuted_injective(seed: u32, length: u32, x: u32, y: u32)
    requires
        length > 0,
        x < length,
        y < length,
        permuted(seed, length, x) == permuted(seed, length, y),
    ensures
        x == y,
{
    let w = domain_mask(length);
    lemma_domain_mask(length);
    let a = walk(x, seed, w, length, w as nat);
    let b = walk(y, seed, w, length, w as nat);
    lemma_walk_landing(x, seed, w, length);
    lemma_walk_landing(y, seed, w, length);
    lemma_rotation_injective(a as int, b as int, seed as int, length as int);
    lemma_walk_injective(x, y, seed, w, length);
}

/// Every value below the length is the image of some index below the length, so that
/// the indices `0..length` are sent onto `{0, ..., length - 1}`, each value once.
pub proof fn lemma_permuted_onto(seed: u32, length: u32, value: u32)
    requires
        length > 0,
        value < length,
    ensures
        exists|index: u32| index < length && #[trigger] permuted(seed, length, index) == value,
{
    let f = |j: int| permuted(seed, length, j as u32) as int;
    assert forall|j: int| 0 <= j < length implies 0 <= #[trigger] f(j) < length by {
        lemma_permuted_in_range(seed, length, j as u32);
    }
    assert forall|i: int, j: int|
        0 <= i < length && 0 <= j < length && #[trigger] f(i) == #[trigger] f(j) implies i == j by {
        lemma_permuted_injective(seed, length, i as u32, j as u32);
    }
    lemma_injective_onto(f, length as int, value as int);
    let x = choose|x: int| 0 <= x < length && #[trigger] f(x) == value;
    assert(permuted(seed, length, x as u32) == value);
}

/// The state of one permutation of `[0, length)`: the seed that selects it and the
/// length. The length must be positive.
#[derive(Clone, Copy, Debug)]
pub struct HashedPermutation {
    /// The seed that selects the permutation. The same seed gives the same
    /// permutation every time.
    pub seed: u32,
    /// The number of values permuted, `0..length`.
    pub length: u32,
}

impl HashedPermutation {
    /// The length is positive.
    pub open spec fn wf(&self) -> bool {
        self.length > 0
    }

    /// What `shuffle` returns for `input`.
    pub open spec fn shuffle_spec(&self, input: u32) -> PermutationResult<u32> {
        if input >= self.length {
            Err(PermutationError::ShuffleOutOfRange { shuffle: input, max_shuffle: self.length })
        } else {
            Ok(permuted(self.seed, self.length, input))
        }
    }

    /// Creates a permutation of `[0, length)` with a random seed.
    pub fn new(length: u32) -> (r: Self)
        requires
            length > 0,
        ensures
            r.length == length,
            r.wf(),
    {
        let seed = random_seed();
        HashedPermutation { length, seed }
    }

    /// Creates the permutation of `[0, length)` that `seed` selects.
    pub fn new_with_seed(length: u32, seed: u32) -> (r: Self)
        requires
            length > 0,
        ensures
            r.length == length,
            r.seed == seed,
            r.wf(),
    {
        HashedPermutation { length, seed }
    }

    /// The value at `input` of the permutation, or an error if `input` is not below the
    /// length.
    pub fn shuffle(&self, input: u32) -> (r: PermutationResult<u32>)
        requires
            self.wf(),
        ensures
            r == self.shuffle_spec(input),
            input < self.length ==> permuted(self.seed, self.length, input) < self.length,
    {
        if input >= self.length {
            return Err(
                PermutationError::ShuffleOutOfRange { shuffle: input, max_shuffle: self.length },
            );
        }
        let n = self.length;
        let seed = self.seed;
        let mut w = n - 1;
        w |= w >> 1;
        w |= w >> 2;
        w |= w >> 4;
        w |= w >> 8;
        w |= w >> 16;
        proof {
            lemma_domain_mask(n);
            lemma_walk_landing(input, seed, w, n);
            lemma_permuted_in_range(seed, n, input);
        }
        assert(w == domain_mask(n));
        let ghost target = walk(input, seed, w, n, w as nat);
        let ghost mut fuel: nat = w as nat;
        let mut i = input;
        loop
            invariant_except_break
                target == walk(i, seed, w, n, fuel),
            invariant
                target < n,
            ensures
                i == target,
            decreases fuel,
        {
            i = mix(i, seed, w);
            if i < n {
                break;
            }
            proof {
                fuel = (fuel - 1) as nat;
            }
        }
        Ok(((i as u64 + seed as u64) % (n as u64)) as u32)
    }
}

/// Relies on rand::random: a seed drawn from the thread-local generator. Nothing is
/// known of its value.
#[verifier::external_body]
fn random_seed() -> (r: u32) {
    rand::random::<u32>()
}

/// Two permutations with the same seed and length give the same result for every index.
pub proof fn lemma_shuffle_deterministic(a: HashedPermutation, b: HashedPermutation, input: u32)
    requires
        a.seed == b.seed,
        a.length == b.length,
    ensures
        a.shuffle_spec(input) == b.shuffle_spec(input),
{
}

} // verus!
