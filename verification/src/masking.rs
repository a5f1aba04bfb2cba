//! Masks and powers of two for the usable space of integer domains.
//!
//! An integer domain distinguishes only the low `mask_width` bits of a value:
//! its usable space is `[0, 2^mask_width)` and a reverse lookup first reduces
//! its input into that space.  The reduction is specified arithmetically, as a
//! remainder modulo `2^mask_width`; the executable code applies a bit mask and
//! the lemmas here tie the two together for 128-bit words.

use vstd::prelude::*;
use vstd::arithmetic::power2::{
    lemma2_to64, lemma_pow2_adds, lemma_pow2_pos, lemma_pow2_strictly_increases,
    lemma_pow2_unfold, pow2,
};
use vstd::arithmetic::div_mod::{lemma_mod_breakdown, lemma_small_mod};
use vstd::bits::{lemma_low_bits_mask_unfold, low_bits_mask};

verus! {

/// The low `w`-bit mask as a 128-bit word: `2^w - 1`.
pub open spec fn mask128(w: nat) -> u128
    recommends
        w <= 128,
{
    low_bits_mask(w) as u128
}

/// `2^w` fits a 128-bit word for every width up to 127, and `2^128` is one
/// past `u128::MAX`.
pub proof fn lemma_pow2_to_128(w: nat)
    requires
        w <= 128,
    ensures
        pow2(w) - 1 <= u128::MAX,
        pow2(128) == u128::MAX + 1,
        w < 128 ==> pow2(w) <= u128::MAX,
{
    lemma2_to64();
    lemma_pow2_adds(64, 64);
    if w < 128 {
        lemma_pow2_strictly_increases(w, 128);
    }
}

/// The mask equals the modulus bound less one: `mask128(w) == 2^w - 1`.
pub proof fn lemma_mask128_value(w: nat)
    requires
        w <= 128,
    ensures
        mask128(w) as nat == pow2(w) - 1,
        mask128(w) as nat + 1 == pow2(w),
{
    lemma_pow2_pos(w);
    lemma_pow2_to_128(w);
}

/// Builds `mask128(w)` one bit at a time.
pub fn mask_of_width(w: u8) -> (m: u128)
    requires
        w <= 128,
    ensures
        m == mask128(w as nat),
{
    let mut m: u128 = 0;
    let mut i: u8 = 0;
    assert(low_bits_mask(0) == 0) by {
        lemma_pow2_pos(0);
        lemma2_to64();
    }
    while i < w
        invariant
            i <= w <= 128,
            m == mask128(i as nat),
        decreases w - i,
    {
        proof {
            lemma_low_bits_mask_unfold((i + 1) as nat);
            lemma_mask128_value((i + 1) as nat);
        }
        m = 2 * m + 1;
        i = i + 1;
    }
    m
}

/// Computes `2^w` when it fits a `usize`; reports that it does not otherwise.
pub fn pow2_in_usize(w: u8) -> (r: Option<usize>)
    ensures
        match r {
            Some(p) => p == pow2(w as nat),
            None => pow2(w as nat) > usize::MAX,
        },
{
    let mut p: usize = 1;
    let mut i: u8 = 0;
    assert(pow2(0) == 1) by {
        lemma2_to64();
    }
    while i < w
        invariant
            i <= w,
            p == pow2(i as nat),
        decreases w - i,
    {
        proof {
            lemma_pow2_unfold((i + 1) as nat);
            if i + 1 < w {
                lemma_pow2_strictly_increases((i + 1) as nat, w as nat);
            }
        }
        if p > usize::MAX / 2 {
            return None;
        }
        p = 2 * p;
        i = i + 1;
    }
    Some(p)
}

/// Splits a bitwise and into its lowest bit and the remaining bits.
proof fn lemma_and_split_low_bit128(x: u128, m: u128)
    by (bit_vector)
    ensures
        x & m == ((x / 2) & (m / 2)) * 2 + ((x % 2) & (m % 2)),
{
}

/// Masking a 128-bit word to its low `w` bits takes its remainder modulo
/// `2^w`.
pub proof fn lemma_mask128_is_mod(x: u128, w: nat)
    requires
        w <= 128,
    ensures
        (x & mask128(w)) as nat == (x as nat) % pow2(w),
    decreases w,
{
    lemma_pow2_pos(w);
    lemma_pow2_to_128(w);
    if w == 128 {
        assert(x & 0xffffffff_ffffffff_ffffffff_ffffffffu128 == x) by (bit_vector);
        lemma_small_mod(x as nat, pow2(128));
    } else if w == 0 {
        assert(low_bits_mask(0) == 0) by {
            lemma2_to64();
        }
        assert(x & 0 == 0) by (bit_vector);
        assert(pow2(0) == 1) by {
            lemma2_to64();
        }
    } else {
        let m = mask128(w);
        let half = pow2((w - 1) as nat);
        lemma_pow2_unfold(w);
        lemma_pow2_to_128((w - 1) as nat);
        lemma_low_bits_mask_unfold(w);
        // The low bit of the mask is set and its upper bits halve to the
        // next narrower mask.
        assert(m % 2 == 1 && m / 2 == mask128((w - 1) as nat));
        lemma_and_split_low_bit128(x, m);
        assert((x % 2) & (m % 2) == x % 2) by (bit_vector)
            requires
                m % 2 == 1,
        ;
        lemma_mask128_is_mod(x / 2, (w - 1) as nat);
        lemma_mod_breakdown(x as int, 2, half as int);
        assert((x as nat) % pow2(w) == 2 * (((x / 2) as nat) % half) + (x as nat) % 2);
    }
}

/// Bits that lie outside the mask do not change a masked value.
pub proof fn lemma_or_outside_mask128(v: u128, j: u128, w: nat)
    requires
        w <= 128,
        j & mask128(w) == 0,
    ensures
        ((v | j) & mask128(w)) == v & mask128(w),
{
    let m = mask128(w);
    assert(j & m == 0 ==> ((v | j) & m) == v & m) by (bit_vector);
}

/// A value already inside the usable space is unchanged by the reduction.
pub proof fn lemma_small_masked(n: nat, w: nat)
    requires
        n < pow2(w),
    ensures
        n % pow2(w) == n,
{
    lemma_pow2_pos(w);
    lemma_small_mod(n, pow2(w));
}

} // verus!
