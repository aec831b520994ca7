//! Whitespace skipping and bitmask primitives of a JSON scanner.
//!
//! The scanner classifies 64 input bytes at a time into a bitmap of
//! non-whitespace positions, caches that bitmap between calls, and finds the
//! next significant byte with a trailing-zero count.

pub mod bits;
pub mod space;
pub mod reader;
pub mod number;
pub mod skipper;
