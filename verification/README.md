# sonic_rs (whitespace skipping core)

The byte-level core of a JSON scanner, written in Verus and verified:

- `bits` — `prefix_xor`, the running parity of a 64-bit mask.
- `space` — JSON whitespace, and `get_nonspace_bits`, the map of the
  non-whitespace bytes of a 64-byte block; the law that its trailing-zero count
  locates the first significant byte.
- `reader` — `Read`, a cursor over borrowed input.
- `skipper` — `SpaceSkipper::skip_space`, which finds the next significant
  byte, reusing the map of the last classified 64-byte window.
- `number` — `skip_exponent` and `skip_single_digit` for number exponents.

`tests/` exercises the library on concrete inputs.
