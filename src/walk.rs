//! Cycle-walking: rounds of mixing repeated until the value falls below the length.
use vstd::prelude::*;
use crate::counting::lemma_pigeonhole;
use crate::mixing::{is_low_mask, lemma_mix_round_bounded, lemma_mix_round_injective, mix_round};

verus! {

/// `k` rounds of mixing applied to `i`.
pub open spec fn mix_iter(i: u32, seed: u32, w: u32, k: nat) -> u32
    decreases k,
{
    if k == 0 {
        i
    } else {
        mix_round(mix_iter(i, seed, w, (k - 1) as nat), seed, w)
    }
}

/// Applies rounds to `i` until the value is below `n`, with at most `fuel + 1` rounds.
pub open spec fn walk(i: u32, seed: u32, w: u32, n: u32, fuel: nat) -> u32
    decreases fuel,
{
    let j = mix_round(i, seed, w);
    if j < n || fuel == 0 {
        j
    } else {
        walk(j, seed, w, n, (fuel - 1) as nat)
    }
}

/// After `k` rounds, `x` first falls below `n`.
pub open spec fn lands_at(x: u32, seed: u32, w: u32, n: u32, k: nat) -> bool {
    &&& 1 <= k
    &&& mix_iter(x, seed, w, k) < n
    &&& forall|j: nat| 1 <= j < k ==> #[trigger] mix_iter(x, seed, w, j) >= n
}

proof fn lemma_iter_bounded(x: u32, seed: u32, w: u32, k: nat)
    requires
        is_low_mask(w),
        x <= w,
    ensures
        mix_iter(x, seed, w, k) <= w,
    decreases k,
{
    if k > 0 {
        lemma_mix_round_bounded(mix_iter(x, seed, w, (k - 1) as nat), seed, w);
    }
}

proof fn lemma_iter_shift(x: u32, seed: u32, w: u32, k: nat)
    ensures
        mix_iter(mix_round(x, seed, w), seed, w, k) == mix_iter(x, seed, w, k + 1),
    decreases k,
{
    assert(mix_iter(x, seed, w, 0) == x);
    if k > 0 {
        lemma_iter_shift(x, seed, w, (k - 1) as nat);
        assert(mix_iter(x, seed, w, k + 1) == mix_round(mix_iter(x, seed, w, k), seed, w));
    }
}

/// Equal values after `i` and `j` rounds, `i <= j`, were equal `i` rounds earlier.
proof fn lemma_iter_cancel(x: u32, y: u32, seed: u32, w: u32, i: nat, j: nat)
    requires
        is_low_mask(w),
        x <= w,
        y <= w,
        i <= j,
        mix_iter(x, seed, w, i) == mix_iter(y, seed, w, j),
    ensures
        x == mix_iter(y, seed, w, (j - i) as nat),
    decreases i,
{
    if i > 0 {
        lemma_iter_bounded(x, seed, w, (i - 1) as nat);
        lemma_iter_bounded(y, seed, w, (j - 1) as nat);
        lemma_mix_round_injective(
            mix_iter(x, seed, w, (i - 1) as nat),
            mix_iter(y, seed, w, (j - 1) as nat),
            seed,
            w,
        );
        lemma_iter_cancel(x, y, seed, w, (i - 1) as nat, (j - 1) as nat);
    }
}

/// Every value under the mask comes back to itself within `w + 1` rounds.
proof fn lemma_cycle(x: u32, seed: u32, w: u32) -> (p: nat)
    requires
        is_low_mask(w),
        x <= w,
    ensures
        1 <= p <= w as nat + 1,
        mix_iter(x, seed, w, p) == x,
{
    let f = |j: int| mix_iter(x, seed, w, j as nat) as int;
    assert forall|j: int| 0 <= j < w as int + 2 implies 0 <= #[trigger] f(j) < w as int + 1 by {
        lemma_iter_bounded(x, seed, w, j as nat);
    }
    lemma_pigeonhole(f, w as int + 2, w as int + 1);
    let (i, j) = choose|i: int, j: int| 0 <= i < j < w as int + 2 && #[trigger] f(i) == #[trigger] f(j);
    lemma_iter_cancel(x, x, seed, w, i as nat, j as nat);
    (j - i) as nat
}

/// If `x` is below `n` after `k` rounds, it first falls below `n` at some round up to `k`.
proof fn lemma_first_landing(x: u32, seed: u32, w: u32, n: u32, k: nat) -> (first: nat)
    requires
        1 <= k,
        mix_iter(x, seed, w, k) < n,
    ensures
        first <= k,
        lands_at(x, seed, w, n, first),
    decreases k,
{
    if forall|j: nat| 1 <= j < k ==> #[trigger] mix_iter(x, seed, w, j) >= n {
        k
    } else {
        let j = choose|j: nat| 1 <= j < k && #[trigger] mix_iter(x, seed, w, j) < n;
        lemma_first_landing(x, seed, w, n, j)
    }
}

/// The walk returns the value at the first round that falls below `n`, if fuel allows it.
proof fn lemma_walk_lands(x: u32, seed: u32, w: u32, n: u32, fuel: nat, k: nat)
    requires
        lands_at(x, seed, w, n, k),
        k <= fuel + 1,
    ensures
        walk(x, seed, w, n, fuel) == mix_iter(x, seed, w, k),
    decreases fuel,
{
    assert(mix_iter(x, seed, w, 0) == x);
    assert(mix_iter(x, seed, w, 1) == mix_round(x, seed, w));
    if k > 1 {
        let y = mix_round(x, seed, w);
        assert(mix_iter(x, seed, w, 1) >= n);
        assert forall|j: nat| 1 <= j < k - 1 implies #[trigger] mix_iter(y, seed, w, j) >= n by {
            lemma_iter_shift(x, seed, w, j);
            assert(mix_iter(x, seed, w, j + 1) >= n);
        }
        lemma_iter_shift(x, seed, w, (k - 1) as nat);
        lemma_walk_lands(y, seed, w, n, (fuel - 1) as nat, (k - 1) as nat);
    }
}

/// For `x < n <= w + 1`, the walk with fuel `w` lands below `n`, at a round within `w + 1`.
pub proof fn lemma_walk_landing(x: u32, seed: u32, w: u32, n: u32) -> (k: nat)
    requires
        is_low_mask(w),
        x < n,
        n as int <= w as int + 1,
    ensures
        k <= w as nat + 1,
        lands_at(x, seed, w, n, k),
        walk(x, seed, w, n, w as nat) == mix_iter(x, seed, w, k),
        walk(x, seed, w, n, w as nat) < n,
{
    let p = lemma_cycle(x, seed, w);
    let k = lemma_first_landing(x, seed, w, n, p);
    lemma_walk_lands(x, seed, w, n, w as nat, k);
    k
}

/// Two values below `n` that walk to the same value are equal.
pub proof fn lemma_walk_injective(x: u32, y: u32, seed: u32, w: u32, n: u32)
    requires
        is_low_mask(w),
        x < n,
        y < n,
        n as int <= w as int + 1,
        walk(x, seed, w, n, w as nat) == walk(y, seed, w, n, w as nat),
    ensures
        x == y,
{
    let kx = lemma_walk_landing(x, seed, w, n);
    let ky = lemma_walk_landing(y, seed, w, n);
    if kx <= ky {
        lemma_iter_cancel(x, y, seed, w, kx, ky);
        if kx < ky {
            assert(mix_iter(y, seed, w, (ky - kx) as nat) >= n);
        }
    } else {
        lemma_iter_cancel(y, x, seed, w, ky, kx);
        assert(mix_iter(x, seed, w, (kx - ky) as nat) >= n);
    }
}

} // verus!
