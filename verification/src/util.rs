use vstd::prelude::*;
use vstd::arithmetic::power2::pow2;
use vstd::bits::{low_bits_mask, lemma_usize_low_bits_mask_is_mod, lemma_usize_pow2_no_overflow};
use vstd::arithmetic::div_mod::{lemma_fundamental_div_mod, lemma_mod_pos_bound, lemma_fundamental_div_mod_converse};

verus! {

/// `alignment` is a power of two that fits in a `usize`.
pub open spec fn is_pow2(alignment: usize) -> bool {
    exists|k: nat| k < usize::BITS && alignment == pow2(k)
}

/// The smallest multiple of `alignment` that is not below `value`.
pub open spec fn round_up(value: int, alignment: int) -> int {
    ((value + alignment - 1) / alignment) * alignment
}

/// The largest multiple of `alignment` that is not above `value`.
pub open spec fn round_down(value: int, alignment: int) -> int {
    (value / alignment) * alignment
}

/// The value that the mask arithmetic of `align_down` computes for any
/// non-zero alignment.
pub open spec fn mask_down(value: usize, alignment: usize) -> usize {
    value & !((alignment - 1) as usize)
}

/// A power-of-two alignment is at least one.
pub proof fn lemma_pow2_positive(alignment: usize)
    requires
        is_pow2(alignment),
    ensures
        alignment >= 1,
{
    let k = choose|k: nat| k < usize::BITS && alignment == pow2(k);
    vstd::arithmetic::power2::lemma_pow2_pos(k);
}

/// Every power of two from 1 to 2^63 is a valid alignment.
pub proof fn lemma_is_pow2(k: nat)
    requires
        k < 64,
        k < usize::BITS,
    ensures
        is_pow2(pow2(k) as usize),
        pow2(k) <= usize::MAX,
{
    lemma_usize_pow2_no_overflow(k);
}

/// Alignments used throughout the kernel are powers of two.
pub proof fn lemma_common_pow2()
    ensures
        is_pow2(8),
        is_pow2(16),
        is_pow2(512),
        is_pow2(4096),
{
    vstd::arithmetic::power2::lemma2_to64();
    lemma_is_pow2(3);
    lemma_is_pow2(4);
    lemma_is_pow2(9);
    lemma_is_pow2(12);
}

/// Clearing the low bits of `x` below a power of two rounds it down to a
/// multiple of that power.
proof fn lemma_mask_down(x: usize, alignment: usize)
    requires
        is_pow2(alignment),
    ensures
        mask_down(x, alignment) == round_down(x as int, alignment as int),
        mask_down(x, alignment) <= x,
        x - mask_down(x, alignment) < alignment,
        mask_down(x, alignment) % alignment == 0,
{
    let k = choose|k: nat| k < usize::BITS && alignment == pow2(k);
    lemma_usize_pow2_no_overflow(k);
    lemma_usize_low_bits_mask_is_mod(x, k);
    let m = (alignment - 1) as usize;
    assert(low_bits_mask(k) as usize == m);
    assert(x & !m == x - (x & m)) by (bit_vector);
    lemma_fundamental_div_mod(x as int, alignment as int);
    lemma_mod_pos_bound(x as int, alignment as int);
    let q = x as int / alignment as int;
    lemma_fundamental_div_mod_converse(q * alignment, alignment as int, q, 0);
}

/// The bits of `x` below a power of two are `x` modulo that power.
pub proof fn lemma_mask_low(x: usize, alignment: usize)
    requires
        is_pow2(alignment),
    ensures
        x & ((alignment - 1) as usize) == x % alignment,
        x & ((alignment - 1) as usize) < alignment,
        x & ((alignment - 1) as usize) <= x,
{
    let k = choose|k: nat| k < usize::BITS && alignment == pow2(k);
    lemma_usize_pow2_no_overflow(k);
    lemma_usize_low_bits_mask_is_mod(x, k);
    assert(low_bits_mask(k) as usize == (alignment - 1) as usize);
    lemma_mod_pos_bound(x as int, alignment as int);
    vstd::arithmetic::div_mod::lemma_mod_decreases(x as nat, alignment as nat);
}

/// Aligns a value to the next higher multiple of `alignment`.
///
/// The mask arithmetic is exact for powers of two; for any other alignment
/// the value that the bit operations give is returned as it stands.
pub fn align_up(value: usize, alignment: usize) -> (r: usize)
    requires
        alignment >= 1,
        value + (alignment - 1) <= usize::MAX,
    ensures
        r == mask_down((value + (alignment - 1)) as usize, alignment),
        is_pow2(alignment) ==> r == round_up(value as int, alignment as int),
        is_pow2(alignment) ==> r % alignment == 0 && value <= r && r < value + alignment,
{
    let mask = alignment - 1;
    let r = (value + mask) & !mask;
    proof {
        if is_pow2(alignment) {
            lemma_mask_down((value + mask) as usize, alignment);
        }
    }
    r
}

/// Aligns a value to the next lower multiple of `alignment`.
pub fn align_down(value: usize, alignment: usize) -> (r: usize)
    requires
        alignment >= 1,
    ensures
        r == mask_down(value, alignment),
        is_pow2(alignment) ==> r == round_down(value as int, alignment as int),
        is_pow2(alignment) ==> r % alignment == 0 && r <= value && value - r < alignment,
{
    let mask = alignment - 1;
    let r = value & !mask;
    proof {
        if is_pow2(alignment) {
            lemma_mask_down(value, alignment);
        }
    }
    r
}

/// Divides a value after rounding up to the next higher multiple of `alignment`.
pub fn divide_up(value: usize, alignment: usize) -> (r: usize)
    requires
        alignment >= 1,
        value + (alignment - 1) <= usize::MAX,
    ensures
        r == mask_down((value + (alignment - 1)) as usize, alignment) / alignment,
        is_pow2(alignment) ==> r == (value + alignment - 1) / (alignment as int),
{
    let up = align_up(value, alignment);
    proof {
        if is_pow2(alignment) {
            let q = (value + alignment - 1) / (alignment as int);
            lemma_fundamental_div_mod_converse(q * alignment, alignment as int, q, 0);
        }
    }
    up / alignment
}

} // verus!
