//! Skipping whitespace with a cached non-whitespace bitmap.

use vstd::prelude::*;
use crate::bits::bit_set;
use crate::reader::Read;
use crate::space::{
    all_ws, chunk_nonspace_bits, is_whitespace, is_ws, lemma_all_ws_bytes,
    lemma_trailing_zeros_first_nonspace, window_matches,
};

verus! {

/// Finds the next non-whitespace byte, remembering the non-whitespace map of the
/// last 64-byte window it classified so that a later call that starts inside
/// that window can answer from the map.
pub struct SpaceSkipper {
    nospace_bits: u64,
    nospace_start: isize,
}

/// Masking off the bits below `off` keeps exactly the bits at `off` and above.
proof fn lemma_mask_from(bits: u64, off: u64)
    requires
        off < 64,
    ensures
        forall|j: u64| j < 64 ==> #[trigger] bit_set(bits & !(((1u64 << off) - 1u64) as u64), j) == (off <= j && bit_set(bits, j)),
{
    assert forall|j: u64| j < 64 implies #[trigger] bit_set(bits & !(((1u64 << off) - 1u64) as u64), j) == (off <= j && bit_set(bits, j)) by {
        assert((((bits & !(((1u64 << off) - 1u64) as u64)) >> j) & 1u64 == 1u64) == (off <= j && ((bits >> j) & 1u64 == 1u64))) by (bit_vector)
            requires off < 64u64, j < 64u64;
    }
}

/// Scanning `data` from `from` for the first byte that is not whitespace yields
/// `r`, with the cursor ending at `to`: just past that byte, or at the end of
/// input when there is none.
pub open spec fn skips_to(data: Seq<u8>, from: int, r: Option<u8>, to: int) -> bool {
    match r {
        Some(ch) => {
            &&& from < to <= data.len()
            &&& ch == data[to - 1]
            &&& !is_ws(ch)
            &&& all_ws(data, from, to - 1)
        },
        None => {
            &&& to == data.len()
            &&& all_ws(data, from, data.len() as int)
        },
    }
}

/// A scan from a given position has one outcome: whatever the skipper had
/// cached, `skip_space` returns the same byte and leaves the cursor at the same place.
pub proof fn lemma_skip_outcome_unique(
    data: Seq<u8>,
    from: int,
    r1: Option<u8>,
    to1: int,
    r2: Option<u8>,
    to2: int,
)
    requires
        0 <= from <= data.len(),
        skips_to(data, from, r1, to1),
        skips_to(data, from, r2, to2),
    ensures
        r1 == r2,
        to1 == to2,
{
    if r1 is Some {
        assert(!is_ws(data[to1 - 1]));
    }
    if r2 is Some {
        assert(!is_ws(data[to2 - 1]));
    }
}

/// Where the 64-byte classification of a call starts: just past the cached
/// window when the cursor lies inside it, else at the cursor.
pub open spec fn scan_base(window_start: int, pos: int) -> int {
    if pos - window_start < 64 {
        window_start + 64
    } else {
        pos
    }
}

/// The start of the 64-byte chunk, counted from `base`, that holds position `at`.
pub open spec fn chunk_containing(base: int, at: int) -> int {
    base + 64 * ((at - base) / 64)
}

proof fn lemma_chunk_containing(base: int, m: int, at: int)
    requires
        0 <= m,
        base + 64 * m <= at < base + 64 * m + 64,
    ensures
        chunk_containing(base, at) == base + 64 * m,
{
    assert((at - base) / 64 == m) by (nonlinear_arith)
        requires
            0 <= m,
            64 * m <= at - base < 64 * m + 64,
    ;
}

/// The outcome of a scan, in bytes: with `Some(ch)` the cursor ends just past
/// `ch`, which is not one of 0x20, 0x0d, 0x0a, 0x09, and every byte from `from` up
/// to it is one of them; with `None` every byte from `from` to the end is one of
/// them and the cursor ends at the end.
pub proof fn lemma_skips_to_bytes(data: Seq<u8>, from: int, r: Option<u8>, to: int)
    ensures
        skips_to(data, from, r, to) <==> match r {
            Some(ch) => {
                &&& from < to <= data.len()
                &&& ch == data[to - 1]
                &&& !(ch == 0x20u8 || ch == 0x0du8 || ch == 0x0au8 || ch == 0x09u8)
                &&& forall|k: int| from <= k < to - 1 ==> (#[trigger] data[k] == 0x20u8 || data[k]
                    == 0x0du8 || data[k] == 0x0au8 || data[k] == 0x09u8)
            },
            None => {
                &&& to == data.len()
                &&& forall|k: int| from <= k < data.len() ==> (#[trigger] data[k] == 0x20u8 || data[k]
                    == 0x0du8 || data[k] == 0x0au8 || data[k] == 0x09u8)
            },
        },
{
    lemma_all_ws_bytes(data, from, to - 1);
    lemma_all_ws_bytes(data, from, data.len() as int);
}

/// The classification of a call starts 64 bytes past the cached window's start
/// when the cursor is less than 64 bytes past it, and at the cursor otherwise.
pub proof fn lemma_scan_base_cases(window_start: int, pos: int)
    ensures
        pos < window_start + 64 ==> scan_base(window_start, pos) == window_start + 64,
        pos >= window_start + 64 ==> scan_base(window_start, pos) == pos,
{
}

/// Counting 64-byte chunks from `base`, `chunk_containing(base, at)` is the one
/// chunk start that lies a whole number of chunks past `base` with `at` inside
/// its 64 bytes.
pub proof fn lemma_chunk_containing_bounds(base: int, at: int)
    requires
        base <= at,
    ensures
        base <= chunk_containing(base, at) <= at < chunk_containing(base, at) + 64,
        (chunk_containing(base, at) - base) % 64 == 0,
{
    let q = (at - base) / 64;
    assert(0 <= q && 64 * q <= at - base < 64 * q + 64 && (64 * q) % 64 == 0) by (nonlinear_arith)
        requires
            base <= at,
            q == (at - base) / 64,
    ;
}

impl SpaceSkipper {
    /// The first input position of the cached window.
    pub closed spec fn window_start(&self) -> int {
        self.nospace_start as int
    }

    /// The cached non-whitespace map.
    pub closed spec fn window_bits(&self) -> u64 {
        self.nospace_bits
    }

    /// The cache can serve a call on `data` from `pos`: either the window lies
    /// wholly behind `pos`, or it starts at or before `pos` and maps the bytes
    /// of `data` it covers.
    pub open spec fn valid_for(&self, data: Seq<u8>, pos: int) -> bool {
        &&& -128 <= self.window_start()
        &&& (self.window_start() + 64 <= pos
            || (self.window_start() <= pos && window_matches(data, self.window_start(), self.window_bits())))
    }

    /// A skipper with nothing cached, usable from any position of any input.
    pub fn new() -> (s: Self)
        ensures
            s.window_start() == -128,
            s.window_bits() == 0,
            forall|data: Seq<u8>, pos: int| 0 <= pos ==> #[trigger] s.valid_for(data, pos),
    {
        SpaceSkipper { nospace_bits: 0, nospace_start: -128 }
    }

    /// Skips whitespace from the cursor and returns the first other byte, leaving
    /// the cursor just past it; at the end of input returns `None` with the
    /// cursor at the end.
    pub fn skip_space(&mut self, reader: &mut Read) -> (r: Option<u8>)
        requires
            old(self).valid_for(old(reader).data(), old(reader).pos() as int),
            old(reader).data().len() + 128 <= isize::MAX,
        ensures
            final(reader).data() == old(reader).data(),
            skips_to(old(reader).data(), old(reader).pos() as int, r, final(reader).pos() as int),
            final(self).valid_for(final(reader).data(), final(reader).pos() as int),
            ({
                let base = scan_base(old(self).window_start(), old(reader).pos() as int);
                let found = final(reader).pos() - 1;
                let chunk = chunk_containing(base, found);
                if r is Some && base <= found && chunk + 64 <= old(reader).data().len() {
                    &&& final(self).window_start() == chunk
                    &&& window_matches(old(reader).data(), chunk, final(self).window_bits())
                } else {
                    &&& final(self).window_start() == old(self).window_start()
                    &&& final(self).window_bits() == old(self).window_bits()
                }
            }),
    {
        let ghost data = reader.data();
        let ghost p0 = reader.pos() as int;
        let ghost base = scan_base(self.window_start(), p0);
        let ghost mut m: int = 0;

        // fast path: answer from the cached map when the cursor lies inside its window
        let nospace_offset = (reader.index() as isize) - self.nospace_start;
        if nospace_offset < 64 {
            let off = nospace_offset as u64;
            assert(1u64 << off >= 1u64) by (bit_vector)
                requires off < 64u64;
            let bitmap = {
                let mask = !((1u64 << off) - 1u64);
                self.nospace_bits & mask
            };
            proof {
                lemma_mask_from(self.nospace_bits, off);
                vstd::std_specs::bits::axiom_u64_trailing_zeros(bitmap);
            }
            if bitmap != 0 {
                let cnt = bitmap.trailing_zeros() as usize;
                let start = self.nospace_start as usize;
                proof {
                    assert(bit_set(bitmap, cnt as u64));
                    assert forall|k: int| p0 <= k < start + cnt implies #[trigger] is_ws(data[k]) by {
                        let j = (k - start) as u64;
                        assert(!bit_set(bitmap, j));
                        assert(data[start + j] == data[k]);
                    }
                }
                let ch = reader.at(start + cnt);
                reader.set_index(start + cnt + 1);
                return Some(ch);
            } else {
                let start = self.nospace_start as usize;
                proof {
                    assert forall|k: int| p0 <= k < start + 64 implies #[trigger] is_ws(data[k]) by {
                        let j = (k - start) as u64;
                        assert(!bit_set(bitmap, j));
                        assert(data[start + j] == data[k]);
                    }
                }
                // the rest of the window is whitespace
                reader.set_index(start + 64);
            }
        }

        // classify the input 64 bytes at a time
        loop
            invariant
                data == old(reader).data(),
                p0 == old(reader).pos(),
                reader.data() == data,
                data.len() + 128 <= isize::MAX,
                p0 <= reader.pos() <= data.len(),
                all_ws(data, p0, reader.pos() as int),
                -128 <= self.window_start(),
                self.window_start() + 64 <= reader.pos(),
                self.window_start() == old(self).window_start(),
                self.window_bits() == old(self).window_bits(),
                base == scan_base(old(self).window_start(), p0),
                0 <= m,
                reader.pos() == base + 64 * m,
            ensures
                reader.data() == data,
                p0 <= reader.pos() <= data.len(),
                reader.pos() + 64 > data.len(),
                0 <= m,
                reader.pos() == base + 64 * m,
                all_ws(data, p0, reader.pos() as int),
                -128 <= self.window_start(),
                self.window_start() + 64 <= reader.pos(),
                self.window_start() == old(self).window_start(),
                self.window_bits() == old(self).window_bits(),
            decreases data.len() - reader.pos(),
        {
            match reader.peek_n(64) {
                Some(chunk) => {
                    let ghost at = reader.pos() as int;
                    let bitmap = chunk_nonspace_bits(chunk);
                    proof {
                        assert(window_matches(data, at, bitmap)) by {
                            assert forall|i: u64| i < 64 implies #[trigger] bit_set(bitmap, i) == !is_ws(data[at + i]) by {
                                assert(chunk@[0 + i] == data[at + i]);
                            }
                        }
                        lemma_trailing_zeros_first_nonspace(data, at, bitmap);
                        vstd::std_specs::bits::axiom_u64_trailing_zeros(bitmap);
                    }
                    if bitmap != 0 {
                        self.nospace_bits = bitmap;
                        self.nospace_start = reader.index() as isize;
                        let cnt = bitmap.trailing_zeros() as usize;
                        let ch = chunk[cnt];
                        proof {
                            assert(chunk@[cnt as int] == data[at + cnt]);
                            lemma_chunk_containing(base, m, at + cnt);
                        }
                        reader.eat(cnt + 1);
                        return Some(ch);
                    }
                    reader.eat(64);
                    proof {
                        m = m + 1;
                    }
                },
                None => break,
            }
        }

        // fewer than 64 bytes remain: scan them one by one
        loop
            invariant
                data == old(reader).data(),
                p0 == old(reader).pos(),
                reader.data() == data,
                p0 <= reader.pos() <= data.len(),
                all_ws(data, p0, reader.pos() as int),
                -128 <= self.window_start(),
                self.window_start() + 64 <= reader.pos(),
                self.window_start() == old(self).window_start(),
                self.window_bits() == old(self).window_bits(),
                base == scan_base(old(self).window_start(), p0),
                0 <= m,
                base + 64 * m <= reader.pos(),
                base + 64 * m + 64 > data.len(),
            ensures
                reader.data() == data,
                reader.pos() == data.len(),
                all_ws(data, p0, data.len() as int),
                -128 <= self.window_start(),
                self.window_start() + 64 <= reader.pos(),
                self.window_start() == old(self).window_start(),
                self.window_bits() == old(self).window_bits(),
            decreases data.len() - reader.pos(),
        {
            match reader.next() {
                Some(ch) => {
                    if !is_whitespace(ch) {
                        proof {
                            lemma_chunk_containing(base, m, reader.pos() - 1);
                        }
                        return Some(ch);
                    }
                },
                None => break,
            }
        }
        None
    }
}

} // verus!
