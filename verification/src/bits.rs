//! Bit-level helpers on 64-bit masks.

use vstd::prelude::*;

verus! {

/// Bit `i` of `x` is set (meaningful for `i < 64`).
pub open spec fn bit_set(x: u64, i: u64) -> bool {
    (x >> i) & 1u64 == 1u64
}

/// `bit_set(x, i)` is bit `i` counted from the least significant end: the bit
/// that `x & (1 << i)` keeps.
pub proof fn lemma_bit_set_is_mask_bit(x: u64, i: u64)
    requires
        i < 64,
    ensures
        bit_set(x, i) <==> x & (1u64 << i) != 0u64,
{
    assert(((x >> i) & 1u64 == 1u64) <==> (x & (1u64 << i) != 0u64)) by (bit_vector)
        requires i < 64u64;
}

/// The parity of the set bits among bits `0..=i` of `x`.
pub open spec fn prefix_parity(x: u64, i: nat) -> bool
    decreases i,
{
    if i == 0 {
        bit_set(x, 0)
    } else {
        prefix_parity(x, (i - 1) as nat) != bit_set(x, i as u64)
    }
}

/// The bits of `x ^ (x << 1)`: bit 0 of `x` alone, then each bit differs from the one below.
proof fn lemma_xor_shift_bits(r: u64, x: u64)
    requires
        x == r ^ (r << 1u64),
    ensures
        bit_set(x, 0) == bit_set(r, 0),
        forall|i: u64| 1 <= i < 64 ==> #[trigger] bit_set(x, i) == (bit_set(r, i) != bit_set(r, (i - 1) as u64)),
{
    assert(((x >> 0u64) & 1u64 == 1u64) == ((r >> 0u64) & 1u64 == 1u64)) by (bit_vector)
        requires x == r ^ (r << 1u64);
    assert forall|i: u64| 1 <= i < 64 implies #[trigger] bit_set(x, i) == (bit_set(r, i) != bit_set(r, (i - 1) as u64)) by {
        let j = (i - 1) as u64;
        assert(((x >> i) & 1u64 == 1u64) == (((r >> i) & 1u64 == 1u64) != ((r >> j) & 1u64 == 1u64))) by (bit_vector)
            requires x == r ^ (r << 1u64), 1u64 <= i < 64u64, j == i - 1u64;
    }
}

/// When `x == r ^ (r << 1)`, bit `i` of `r` is the parity of bits `0..=i` of `x`.
proof fn lemma_prefix_parity(r: u64, x: u64, i: u64)
    requires
        x == r ^ (r << 1u64),
        i < 64,
    ensures
        bit_set(r, i) == prefix_parity(x, i as nat),
    decreases i,
{
    lemma_xor_shift_bits(r, x);
    if i > 0 {
        lemma_prefix_parity(r, x, (i - 1) as u64);
        assert(bit_set(x, i) == (bit_set(r, i) != bit_set(r, (i - 1) as u64)));
    }
}

/// Prefix XOR of a 64-bit mask: bit `i` of the result is the XOR of bits `0..=i`
/// of `bitmask` (computed with six shift-and-xor steps, no carry-less multiply).
pub fn prefix_xor(bitmask: u64) -> (r: u64)
    ensures
        r ^ (r << 1u64) == bitmask,
        forall|i: u64| i < 64 ==> #[trigger] bit_set(r, i) == prefix_parity(bitmask, i as nat),
{
    let ghost x0 = bitmask;
    let mut bitmask = bitmask;
    bitmask ^= bitmask << 1u64;
    let ghost x1 = bitmask;
    bitmask ^= bitmask << 2u64;
    let ghost x2 = bitmask;
    bitmask ^= bitmask << 4u64;
    let ghost x3 = bitmask;
    bitmask ^= bitmask << 8u64;
    let ghost x4 = bitmask;
    bitmask ^= bitmask << 16u64;
    let ghost x5 = bitmask;
    bitmask ^= bitmask << 32u64;
    let r = bitmask;
    assert(r ^ (r << 1u64) == x0) by (bit_vector)
        requires
            x1 == x0 ^ (x0 << 1u64),
            x2 == x1 ^ (x1 << 2u64),
            x3 == x2 ^ (x2 << 4u64),
            x4 == x3 ^ (x3 << 8u64),
            x5 == x4 ^ (x4 << 16u64),
            r == x5 ^ (x5 << 32u64),
    ;
    assert forall|i: u64| i < 64 implies #[trigger] bit_set(r, i) == prefix_parity(x0, i as nat) by {
        lemma_prefix_parity(r, x0, i);
    }
    r
}

} // verus!
