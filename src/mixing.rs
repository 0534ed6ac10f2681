//! The mixing round of the hashed permutation, and why it is a bijection.
//!
//! A round maps a value below a low-bits mask `w` to another value below `w`.
//! Every step of a round either acts on the bits under `w` alone or keeps the
//! bits under `w` a function of the bits under `w`, and each step can be undone,
//! so a round is injective on `[0, w]`.
use vstd::prelude::*;
use vstd::arithmetic::div_mod::{lemma_mod_mod, lemma_mul_mod_noop_left};
use vstd::arithmetic::power2::{lemma_pow2_adds, lemma2_to64};
use vstd::bits::{lemma_low_bits_mask_values, lemma_u32_low_bits_mask_is_mod, low_bits_mask};

verus! {

/// 2^32, the modulus of all arithmetic on the mixing state.
pub open spec fn word_modulus() -> int {
    0x1_0000_0000
}

/// `w` is of the form `2^b - 1` for some `b` in `0..=32`.
pub open spec fn is_low_mask(w: u32) -> bool {
    w & ((w as u64 + 1) as u32) == 0
}

/// Two words agree on the bits under the mask `w`.
pub open spec fn agree_under(a: u32, b: u32, w: u32) -> bool {
    a & w == b & w
}

proof fn lemma_low_mask_cases(w: u32)
    by (bit_vector)
    requires
        w & ((w as u64 + 1) as u32) == 0,
    ensures
        w == 0x0 || w == 0x1 || w == 0x3 || w == 0x7 || w == 0xf || w == 0x1f || w == 0x3f
            || w == 0x7f || w == 0xff || w == 0x1ff || w == 0x3ff || w == 0x7ff || w == 0xfff
            || w == 0x1fff || w == 0x3fff || w == 0x7fff || w == 0xffff || w == 0x1ffff
            || w == 0x3ffff || w == 0x7ffff || w == 0xfffff || w == 0x1fffff || w == 0x3fffff
            || w == 0x7fffff || w == 0xffffff || w == 0x1ffffff || w == 0x3ffffff
            || w == 0x7ffffff || w == 0xfffffff || w == 0x1fffffff || w == 0x3fffffff
            || w == 0x7fffffff || w == 0xffffffff,
{
}

/// Masking with a low-bits mask is reduction modulo `w + 1`, which divides 2^32.
pub proof fn lemma_mask_is_mod(x: u32, w: u32)
    requires
        is_low_mask(w),
    ensures
        (x & w) as int == x as int % (w as int + 1),
        word_modulus() % (w as int + 1) == 0,
{
    lemma_low_mask_cases(w);
    lemma_low_bits_mask_values();
    lemma2_to64();
    let b: nat = choose|b: nat| b <= 32 && w as nat == low_bits_mask(b);
    if b == 32 {
        assert(x & w == x) by (bit_vector)
            requires
                w == 0xffffffffu32,
        ;
    } else {
        lemma_u32_low_bits_mask_is_mod(x, b);
        lemma_pow2_adds(b, (32 - b) as nat);
        vstd::arithmetic::div_mod::lemma_mod_multiples_basic(
            vstd::arithmetic::power2::pow2((32 - b) as nat) as int,
            vstd::arithmetic::power2::pow2(b) as int,
        );
    }
}

/// Multiplication modulo 2^32.
pub open spec fn wmul(x: u32, c: u32) -> u32 {
    vstd::wrapping::u32_specs::wrapping_mul(x, c)
}

/// Folds the bits under `w`, shifted right by `k`, back into the word.
pub open spec fn fold_down(x: u32, w: u32, k: u32) -> u32 {
    x ^ ((x & w) >> k)
}

/// The odd multiplier that the top five bits of the seed select.
pub open spec fn seed_multiplier(seed: u32) -> u32 {
    1u32 | (seed >> 27u32)
}

/// One round of mixing of `i` under the seed `seed` and the mask `w`.
#[verifier::opaque]
pub open spec fn mix_round(i: u32, seed: u32, w: u32) -> u32 {
    let i = i ^ seed;
    let i = wmul(i, 0xe170893d);
    let i = i ^ (seed >> 16u32);
    let i = fold_down(i, w, 4);
    let i = i ^ (seed >> 8u32);
    let i = wmul(i, 0x0929eb3f);
    let i = i ^ (seed >> 23u32);
    let i = fold_down(i, w, 1);
    let i = wmul(i, seed_multiplier(seed));
    let i = wmul(i, 0x6935fa69);
    let i = fold_down(i, w, 11);
    let i = wmul(i, 0x74dcb303);
    let i = fold_down(i, w, 2);
    let i = wmul(i, 0x9e501cc3);
    let i = fold_down(i, w, 2);
    let i = wmul(i, 0xc860a3df);
    let i = i & w;
    i ^ (i >> 5u32)
}

/// Multiplying by any factor keeps words that agree under `w` in agreement.
proof fn lemma_mul_respects(x: u32, y: u32, c: u32, w: u32)
    requires
        is_low_mask(w),
        agree_under(x, y, w),
    ensures
        agree_under(wmul(x, c), wmul(y, c), w),
{
    let m = w as int + 1;
    let big = word_modulus();
    lemma_mask_is_mod(x, w);
    lemma_mask_is_mod(y, w);
    lemma_mask_is_mod(wmul(x, c), w);
    lemma_mask_is_mod(wmul(y, c), w);
    vstd::arithmetic::div_mod::lemma_fundamental_div_mod(big, m);
    assert(big == m * (big / m));
    lemma_mod_mod(x as int * c as int, m, big / m);
    lemma_mod_mod(y as int * c as int, m, big / m);
    lemma_mul_mod_noop_left(x as int, c as int, m);
    lemma_mul_mod_noop_left(y as int, c as int, m);
}

/// Multiplying by `c` and then by its inverse `d` modulo 2^32 gives the word back.
proof fn lemma_mul_cancel(x: u32, c: u32, d: u32)
    requires
        (c as int * d as int) % word_modulus() == 1,
    ensures
        wmul(wmul(x, c), d) == x,
{
    let big = word_modulus();
    lemma_mul_mod_noop_left(x as int * c as int, d as int, big);
    vstd::arithmetic::mul::lemma_mul_is_associative(x as int, c as int, d as int);
    vstd::arithmetic::div_mod::lemma_mul_mod_noop_right(x as int, c as int * d as int, big);
    vstd::arithmetic::div_mod::lemma_small_mod(x as nat, big as nat);
}

/// Multiplying by an invertible factor separates words that differ under `w`.
proof fn lemma_mul_reflects(x: u32, y: u32, c: u32, d: u32, w: u32)
    requires
        is_low_mask(w),
        (c as int * d as int) % word_modulus() == 1,
        agree_under(wmul(x, c), wmul(y, c), w),
    ensures
        agree_under(x, y, w),
{
    lemma_mul_respects(wmul(x, c), wmul(y, c), d, w);
    lemma_mul_cancel(x, c, d);
    lemma_mul_cancel(y, c, d);
}

proof fn lemma_xor_reflects(x: u32, y: u32, s: u32, w: u32)
    by (bit_vector)
    requires
        (x ^ s) & w == (y ^ s) & w,
    ensures
        x & w == y & w,
{
}

proof fn lemma_xorshift_injective(p: u32, q: u32, k: u32)
    by (bit_vector)
    requires
        1 <= k < 32,
        p ^ (p >> k) == q ^ (q >> k),
    ensures
        p == q,
{
}

proof fn lemma_fold_down_under_mask(x: u32, w: u32, k: u32)
    by (bit_vector)
    requires
        w & ((w as u64 + 1) as u32) == 0,
    ensures
        (x ^ ((x & w) >> k)) & w == (x & w) ^ ((x & w) >> k),
{
}

/// Folding down separates words that differ under `w`.
proof fn lemma_fold_down_reflects(x: u32, y: u32, w: u32, k: u32)
    requires
        is_low_mask(w),
        1 <= k < 32,
        agree_under(fold_down(x, w, k), fold_down(y, w, k), w),
    ensures
        agree_under(x, y, w),
{
    lemma_fold_down_under_mask(x, w, k);
    lemma_fold_down_under_mask(y, w, k);
    lemma_xorshift_injective(x & w, y & w, k);
}

/// The inverse modulo 2^32 of the seed multiplier.
pub open spec fn seed_multiplier_inverse(seed: u32) -> u32 {
    let m = seed_multiplier(seed);
    if m == 1 {
        0x1
    } else
    if m == 3 {
        0xaaaaaaab
    } else
    if m == 5 {
        0xcccccccd
    } else
    if m == 7 {
        0xb6db6db7
    } else
    if m == 9 {
        0x38e38e39
    } else
    if m == 11 {
        0xba2e8ba3
    } else
    if m == 13 {
        0xc4ec4ec5
    } else
    if m == 15 {
        0xeeeeeeef
    } else
    if m == 17 {
        0xf0f0f0f1
    } else
    if m == 19 {
        0x286bca1b
    } else
    if m == 21 {
        0x3cf3cf3d
    } else
    if m == 23 {
        0xe9bd37a7
    } else
    if m == 25 {
        0xc28f5c29
    } else
    if m == 27 {
        0x684bda13
    } else
    if m == 29 {
        0x4f72c235
    } else {
        0xbdef7bdf
    }
}

proof fn lemma_seed_multiplier_cases(seed: u32)
    by (bit_vector)
    ensures
        ({
            let m = 1u32 | (seed >> 27u32);
            m == 1 || m == 3 || m == 5 || m == 7 || m == 9 || m == 11 || m == 13 || m == 15 || m == 17 || m == 19 || m == 21 || m == 23 || m == 25 || m == 27 || m == 29 || m == 31
        }),
{
}

proof fn lemma_seed_multiplier_inverse(seed: u32)
    ensures
        (seed_multiplier(seed) as int * seed_multiplier_inverse(seed) as int) % word_modulus()
            == 1,
{
    lemma_seed_multiplier_cases(seed);
    let m = seed_multiplier(seed);
    let d = seed_multiplier_inverse(seed);
    if m == 1 {
        assert((1int * 0x1int) % word_modulus() == 1);
    } else if m == 3 {
        assert((3int * 0xaaaaaaabint) % word_modulus() == 1);
    } else if m == 5 {
        assert((5int * 0xcccccccdint) % word_modulus() == 1);
    } else if m == 7 {
        assert((7int * 0xb6db6db7int) % word_modulus() == 1);
    } else if m == 9 {
        assert((9int * 0x38e38e39int) % word_modulus() == 1);
    } else if m == 11 {
        assert((11int * 0xba2e8ba3int) % word_modulus() == 1);
    } else if m == 13 {
        assert((13int * 0xc4ec4ec5int) % word_modulus() == 1);
    } else if m == 15 {
        assert((15int * 0xeeeeeeefint) % word_modulus() == 1);
    } else if m == 17 {
        assert((17int * 0xf0f0f0f1int) % word_modulus() == 1);
    } else if m == 19 {
        assert((19int * 0x286bca1bint) % word_modulus() == 1);
    } else if m == 21 {
        assert((21int * 0x3cf3cf3dint) % word_modulus() == 1);
    } else if m == 23 {
        assert((23int * 0xe9bd37a7int) % word_modulus() == 1);
    } else if m == 25 {
        assert((25int * 0xc28f5c29int) % word_modulus() == 1);
    } else if m == 27 {
        assert((27int * 0x684bda13int) % word_modulus() == 1);
    } else if m == 29 {
        assert((29int * 0x4f72c235int) % word_modulus() == 1);
    } else if m == 31 {
        assert((31int * 0xbdef7bdfint) % word_modulus() == 1);
    }
}

proof fn lemma_below_mask(x: u32, w: u32)
    by (bit_vector)
    requires
        w & ((w as u64 + 1) as u32) == 0,
        x <= w,
    ensures
        x & w == x,
{
}

proof fn lemma_last_step_below_mask(x: u32, w: u32)
    by (bit_vector)
    requires
        w & ((w as u64 + 1) as u32) == 0,
    ensures
        (x & w) ^ ((x & w) >> 5u32) <= w,
{
}

/// A round stays under its mask.
pub proof fn lemma_mix_round_bounded(i: u32, seed: u32, w: u32)
    requires
        is_low_mask(w),
    ensures
        mix_round(i, seed, w) <= w,
{
    reveal(mix_round);
    let i1 = i ^ seed;
    let i2 = wmul(i1, 0xe170893d);
    let i3 = i2 ^ (seed >> 16u32);
    let i4 = fold_down(i3, w, 4);
    let i5 = i4 ^ (seed >> 8u32);
    let i6 = wmul(i5, 0x0929eb3f);
    let i7 = i6 ^ (seed >> 23u32);
    let i8 = fold_down(i7, w, 1);
    let i9 = wmul(i8, seed_multiplier(seed));
    let i10 = wmul(i9, 0x6935fa69);
    let i11 = fold_down(i10, w, 11);
    let i12 = wmul(i11, 0x74dcb303);
    let i13 = fold_down(i12, w, 2);
    let i14 = wmul(i13, 0x9e501cc3);
    let i15 = fold_down(i14, w, 2);
    let i16 = wmul(i15, 0xc860a3df);
    lemma_last_step_below_mask(i16, w);
}

/// A round is injective on `[0, w]`.
pub proof fn lemma_mix_round_injective(a: u32, b: u32, seed: u32, w: u32)
    requires
        is_low_mask(w),
        a <= w,
        b <= w,
        mix_round(a, seed, w) == mix_round(b, seed, w),
    ensures
        a == b,
{
    reveal(mix_round);
    let a1 = a ^ seed;
    let a2 = wmul(a1, 0xe170893d);
    let a3 = a2 ^ (seed >> 16u32);
    let a4 = fold_down(a3, w, 4);
    let a5 = a4 ^ (seed >> 8u32);
    let a6 = wmul(a5, 0x0929eb3f);
    let a7 = a6 ^ (seed >> 23u32);
    let a8 = fold_down(a7, w, 1);
    let a9 = wmul(a8, seed_multiplier(seed));
    let a10 = wmul(a9, 0x6935fa69);
    let a11 = fold_down(a10, w, 11);
    let a12 = wmul(a11, 0x74dcb303);
    let a13 = fold_down(a12, w, 2);
    let a14 = wmul(a13, 0x9e501cc3);
    let a15 = fold_down(a14, w, 2);
    let a16 = wmul(a15, 0xc860a3df);
    let b1 = b ^ seed;
    let b2 = wmul(b1, 0xe170893d);
    let b3 = b2 ^ (seed >> 16u32);
    let b4 = fold_down(b3, w, 4);
    let b5 = b4 ^ (seed >> 8u32);
    let b6 = wmul(b5, 0x0929eb3f);
    let b7 = b6 ^ (seed >> 23u32);
    let b8 = fold_down(b7, w, 1);
    let b9 = wmul(b8, seed_multiplier(seed));
    let b10 = wmul(b9, 0x6935fa69);
    let b11 = fold_down(b10, w, 11);
    let b12 = wmul(b11, 0x74dcb303);
    let b13 = fold_down(b12, w, 2);
    let b14 = wmul(b13, 0x9e501cc3);
    let b15 = fold_down(b14, w, 2);
    let b16 = wmul(b15, 0xc860a3df);
    lemma_xorshift_injective(a16 & w, b16 & w, 5);
    lemma_mul_reflects(a15, b15, 0xc860a3df, 0xcef8d81f, w);
    lemma_fold_down_reflects(a14, b14, w, 2);
    lemma_mul_reflects(a13, b13, 0x9e501cc3, 0x21ae73eb, w);
    lemma_fold_down_reflects(a12, b12, w, 2);
    lemma_mul_reflects(a11, b11, 0x74dcb303, 0xf247cfab, w);
    lemma_fold_down_reflects(a10, b10, w, 11);
    lemma_mul_reflects(a9, b9, 0x6935fa69, 0xae4f35d9, w);
    lemma_seed_multiplier_inverse(seed);
    lemma_mul_reflects(a8, b8, seed_multiplier(seed), seed_multiplier_inverse(seed), w);
    lemma_fold_down_reflects(a7, b7, w, 1);
    lemma_xor_reflects(a6, b6, seed >> 23u32, w);
    lemma_mul_reflects(a5, b5, 0x0929eb3f, 0xf95384bf, w);
    lemma_xor_reflects(a4, b4, seed >> 8u32, w);
    lemma_fold_down_reflects(a3, b3, w, 4);
    lemma_xor_reflects(a2, b2, seed >> 16u32, w);
    lemma_mul_reflects(a1, b1, 0xe170893d, 0x3e779615, w);
    lemma_xor_reflects(a, b, seed, w);
    lemma_below_mask(a, w);
    lemma_below_mask(b, w);
}

/// Computes one round of mixing.
pub(crate) fn mix(i: u32, seed: u32, w: u32) -> (r: u32)
    ensures
        r == mix_round(i, seed, w),
{
    reveal(mix_round);
    let mut i = i;
    i ^= seed;
    i = i.wrapping_mul(0xe170893d);
    i ^= seed >> 16;
    i ^= (i & w) >> 4;
    i ^= seed >> 8;
    i = i.wrapping_mul(0x0929eb3f);
    i ^= seed >> 23;
    i ^= (i & w) >> 1;
    i = i.wrapping_mul(1 | seed >> 27);
    i = i.wrapping_mul(0x6935fa69);
    i ^= (i & w) >> 11;
    i = i.wrapping_mul(0x74dcb303);
    i ^= (i & w) >> 2;
    i = i.wrapping_mul(0x9e501cc3);
    i ^= (i & w) >> 2;
    i = i.wrapping_mul(0xc860a3df);
    i &= w;
    i ^= i >> 5;
    i
}

} // verus!
