//! Classifying JSON whitespace, one byte or a 64-byte window at a time.

use vstd::prelude::*;
use vstd::std_specs::bits::{axiom_u64_trailing_zeros, u64_trailing_zeros};
use crate::bits::bit_set;

verus! {

/// The byte of `' '`.
pub const SPACE: u8 = 0x20;
/// The byte of `'\r'`.
pub const CARRIAGE_RETURN: u8 = 0x0d;
/// The byte of `'\n'`.
pub const LINE_FEED: u8 = 0x0a;
/// The byte of `'\t'`.
pub const TAB: u8 = 0x09;

/// JSON insignificant whitespace: space, carriage return, line feed, tab.
pub open spec fn is_ws(ch: u8) -> bool {
    ch == SPACE || ch == CARRIAGE_RETURN || ch == LINE_FEED || ch == TAB
}

/// Every byte of `data` in `from..to` is whitespace.
pub open spec fn all_ws(data: Seq<u8>, from: int, to: int) -> bool {
    forall|k: int| from <= k < to ==> #[trigger] is_ws(data[k])
}

/// `bits` is the non-whitespace map of the 64 bytes of `data` that start at `start`:
/// bit `i` is set exactly when byte `start + i` is not whitespace.
pub open spec fn window_matches(data: Seq<u8>, start: int, bits: u64) -> bool {
    &&& 0 <= start
    &&& start + 64 <= data.len()
    &&& forall|i: u64| i < 64 ==> #[trigger] bit_set(bits, i) == !is_ws(data[start + i])
}

/// JSON whitespace is exactly the bytes 0x20 (space), 0x0d (`\r`), 0x0a (`\n`)
/// and 0x09 (`\t`).
pub proof fn lemma_whitespace_bytes(ch: u8)
    ensures
        is_ws(ch) <==> (ch == 0x20u8 || ch == 0x0du8 || ch == 0x0au8 || ch == 0x09u8),
{
}

/// `all_ws` says that each byte in `from..to` is one of 0x20, 0x0d, 0x0a, 0x09.
pub proof fn lemma_all_ws_bytes(data: Seq<u8>, from: int, to: int)
    ensures
        all_ws(data, from, to) <==> forall|k: int| from <= k < to ==> (#[trigger] data[k] == 0x20u8
            || data[k] == 0x0du8 || data[k] == 0x0au8 || data[k] == 0x09u8),
{
    if all_ws(data, from, to) {
        assert forall|k: int| from <= k < to implies (#[trigger] data[k] == 0x20u8 || data[k] == 0x0du8
            || data[k] == 0x0au8 || data[k] == 0x09u8) by {
            assert(is_ws(data[k]));
        }
    }
}

/// A window map has bit `i` (the bit that `bits & (1 << i)` keeps) set exactly
/// when byte `start + i` is not one of 0x20, 0x0d, 0x0a, 0x09, for each of the 64
/// bytes of a window that lies inside `data`.
pub proof fn lemma_window_matches_bytes(data: Seq<u8>, start: int, bits: u64)
    ensures
        window_matches(data, start, bits) <==> {
            &&& 0 <= start
            &&& start + 64 <= data.len()
            &&& forall|i: u64| i < 64 ==> ((bits & (1u64 << i) != 0u64) <==> !(#[trigger] data[start + i]
                == 0x20u8 || data[start + i] == 0x0du8 || data[start + i] == 0x0au8 || data[start + i]
                == 0x09u8))
        },
{
    assert forall|i: u64| i < 64 implies (#[trigger] bit_set(bits, i) <==> bits & (1u64 << i) != 0u64) by {
        crate::bits::lemma_bit_set_is_mask_bit(bits, i);
    }
    if 0 <= start && start + 64 <= data.len() {
        if window_matches(data, start, bits) {
            assert forall|i: u64| i < 64 implies ((bits & (1u64 << i) != 0u64) <==> !(#[trigger] data[start + i]
                == 0x20u8 || data[start + i] == 0x0du8 || data[start + i] == 0x0au8 || data[start + i]
                == 0x09u8)) by {
                assert(bit_set(bits, i) == !is_ws(data[start + i]));
            }
        }
        if forall|i: u64| i < 64 ==> ((bits & (1u64 << i) != 0u64) <==> !(#[trigger] data[start + i]
                == 0x20u8 || data[start + i] == 0x0du8 || data[start + i] == 0x0au8 || data[start + i]
                == 0x09u8)) {
            assert forall|i: u64| i < 64 implies #[trigger] bit_set(bits, i) == !is_ws(data[start + i]) by {
                assert((bits & (1u64 << i) != 0u64) <==> !is_ws(data[start + i]));
            }
        }
    }
}

/// Whether `ch` is JSON whitespace.
pub fn is_whitespace(ch: u8) -> (b: bool)
    ensures
        b == is_ws(ch),
{
    ch == SPACE || ch == CARRIAGE_RETURN || ch == LINE_FEED || ch == TAB
}

proof fn lemma_set_bit(bits: u64, k: u64)
    requires
        k < 64,
    ensures
        forall|j: u64| j < 64 ==> #[trigger] bit_set(bits | (1u64 << k), j) == (bit_set(bits, j) || j == k),
{
    assert forall|j: u64| j < 64 implies #[trigger] bit_set(bits | (1u64 << k), j) == (bit_set(bits, j) || j == k) by {
        assert((((bits | (1u64 << k)) >> j) & 1u64 == 1u64) == (((bits >> j) & 1u64 == 1u64) || j == k)) by (bit_vector)
            requires k < 64u64, j < 64u64;
    }
}

/// The non-whitespace map of the 64 bytes of `chunk`.
pub(crate) fn chunk_nonspace_bits(chunk: &[u8]) -> (bits: u64)
    requires
        chunk@.len() == 64,
    ensures
        window_matches(chunk@, 0, bits),
{
    let mut bits: u64 = 0;
    let mut i: usize = 0;
    assert forall|j: u64| j < 64 implies !#[trigger] bit_set(0u64, j) by {
        assert((0u64 >> j) & 1u64 == 0u64) by (bit_vector);
    }
    while i < 64
        invariant
            i <= 64,
            chunk@.len() == 64,
            forall|j: u64| j < i ==> #[trigger] bit_set(bits, j) == !is_ws(chunk@[j as int]),
            forall|j: u64| i <= j < 64 ==> !#[trigger] bit_set(bits, j),
        decreases 64 - i,
    {
        if !is_whitespace(chunk[i]) {
            proof {
                lemma_set_bit(bits, i as u64);
            }
            bits = bits | (1u64 << (i as u64));
        }
        i += 1;
    }
    assert forall|j: u64| j < 64 implies #[trigger] bit_set(bits, j) == !is_ws(chunk@[0 + j]) by {
        assert(chunk@[0 + j] == chunk@[j as int]);
    }
    bits
}

/// The non-whitespace map of a 64-byte block: bit `i` of the result is set
/// exactly when `data[i]` is not one of space, `\r`, `\n`, `\t`.
pub fn get_nonspace_bits(data: &[u8; 64]) -> (bits: u64)
    ensures
        forall|i: u64| i < 64 ==> #[trigger] bit_set(bits, i) == !is_ws(data@[i as int]),
{
    let chunk = data.as_slice();
    let bits = chunk_nonspace_bits(chunk);
    assert forall|i: u64| i < 64 implies #[trigger] bit_set(bits, i) == !is_ws(data@[i as int]) by {
        assert(chunk@[0 + i] == data@[i as int]);
    }
    bits
}

/// In a non-whitespace map, the count of trailing zeros is the offset of the
/// first non-whitespace byte of the window, and 64 when the window is all whitespace.
pub proof fn lemma_trailing_zeros_first_nonspace(data: Seq<u8>, start: int, bits: u64)
    requires
        window_matches(data, start, bits),
    ensures
        u64_trailing_zeros(bits) <= 64,
        all_ws(data, start, start + u64_trailing_zeros(bits)),
        u64_trailing_zeros(bits) < 64 ==> !is_ws(data[start + u64_trailing_zeros(bits)]),
        u64_trailing_zeros(bits) == 64 <==> all_ws(data, start, start + 64),
{
    axiom_u64_trailing_zeros(bits);
    let tz = u64_trailing_zeros(bits);
    assert forall|k: int| start <= k < start + tz implies #[trigger] is_ws(data[k]) by {
        let j = (k - start) as u64;
        assert((bits >> j) & 1u64 == 0u64);
        assert(!bit_set(bits, j));
        assert(data[start + j] == data[k]);
    }
    if tz < 64 {
        assert(bit_set(bits, tz as u64));
        assert(!is_ws(data[start + tz]));
        assert(!all_ws(data, start, start + 64));
    }
}

} // verus!
