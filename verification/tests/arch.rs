use sonic_rs::bits::prefix_xor;
use sonic_rs::number::{is_ascii_digit, skip_exponent, skip_single_digit};
use sonic_rs::reader::Read;
use sonic_rs::skipper::SpaceSkipper;
use sonic_rs::space::{get_nonspace_bits, is_whitespace};

#[test]
fn test_get_non_space_bits() {
    let input = b"\t\r\n xxxxxxxxxxxxxxxxxxxxxxxxxxxxxxxxxxxxxxxxxxxxxxxxxxxxxxxxxxxx";
    let non_space_bits = get_nonspace_bits(input);
    let expected_bits = 0b1111111111111111111111111111111111111111111111111111111111110000;
    assert_eq!(non_space_bits, expected_bits, "bits is {non_space_bits:b}");
}

#[test]
fn nonspace_bits_all_space_and_none() {
    assert_eq!(get_nonspace_bits(&[b' '; 64]), 0);
    assert_eq!(get_nonspace_bits(&[b'a'; 64]), u64::MAX);
    let mut mixed = [b'\n'; 64];
    mixed[0] = b'{';
    mixed[63] = b'}';
    mixed[17] = b'"';
    assert_eq!(get_nonspace_bits(&mixed), (1u64 << 63) | (1u64 << 17) | 1);
}

#[test]
fn nonspace_bits_only_four_whitespace_bytes() {
    let mut data = [0u8; 64];
    for (i, b) in data.iter_mut().enumerate() {
        *b = i as u8;
    }
    let bits = get_nonspace_bits(&data);
    // bytes 9, 10, 13 and 32 are tab, line feed, carriage return and space
    let expected = !((1u64 << 9) | (1u64 << 10) | (1u64 << 13) | (1u64 << 32));
    assert_eq!(bits, expected);
}

#[test]
fn whitespace_classification() {
    for ch in 0..=255u8 {
        let expected = ch == b' ' || ch == b'\t' || ch == b'\n' || ch == b'\r';
        assert_eq!(is_whitespace(ch), expected, "byte {ch}");
    }
}

#[test]
fn prefix_xor_values() {
    assert_eq!(prefix_xor(0), 0);
    assert_eq!(prefix_xor(1), u64::MAX);
    assert_eq!(prefix_xor(0b1001), 0b0111);
    assert_eq!(prefix_xor(1 << 63), 1 << 63);
    // quotes at 2 and 7: the bytes between them are inside the string
    assert_eq!(prefix_xor(0b1000_0100), 0b0111_1100);
}

#[test]
fn prefix_xor_is_undone_by_xor_with_shift() {
    for x in [0u64, 1, 0xdead_beef, u64::MAX, 0x8000_0000_0000_0001, 0x0123_4567_89ab_cdef] {
        let r = prefix_xor(x);
        assert_eq!(r ^ (r << 1), x);
    }
}

#[test]
fn prefix_xor_bit_is_parity_of_lower_bits() {
    let x = 0x5a5a_0f0f_1234_8001u64;
    let r = prefix_xor(x);
    for i in 0..64 {
        let parity = (x & (u64::MAX >> (63 - i))).count_ones() % 2 == 1;
        assert_eq!((r >> i) & 1 == 1, parity, "bit {i}");
    }
}

#[test]
fn skip_space_short_input() {
    let data = b"  \t\n x y";
    let mut reader = Read::new(data);
    let mut skipper = SpaceSkipper::new();
    assert_eq!(skipper.skip_space(&mut reader), Some(b'x'));
    assert_eq!(reader.index(), 6);
    assert_eq!(skipper.skip_space(&mut reader), Some(b'y'));
    assert_eq!(reader.index(), 8);
    assert_eq!(skipper.skip_space(&mut reader), None);
    assert_eq!(reader.index(), 8);
}

#[test]
fn skip_space_all_whitespace() {
    let data = vec![b' '; 200];
    let mut reader = Read::new(&data);
    let mut skipper = SpaceSkipper::new();
    assert_eq!(skipper.skip_space(&mut reader), None);
    assert_eq!(reader.index(), 200);
}

#[test]
fn skip_space_empty_input() {
    let data: [u8; 0] = [];
    let mut reader = Read::new(&data);
    let mut skipper = SpaceSkipper::new();
    assert_eq!(skipper.skip_space(&mut reader), None);
    assert_eq!(reader.index(), 0);
}

#[test]
fn skip_space_reuses_cached_window() {
    // a 64-byte window with several tokens, then a tail
    let mut data = vec![b' '; 150];
    data[3] = b'[';
    data[5] = b'1';
    data[6] = b',';
    data[40] = b'2';
    data[63] = b']';
    data[100] = b'x';
    data[149] = b'y';
    let mut reader = Read::new(&data);
    let mut skipper = SpaceSkipper::new();
    let mut seen = Vec::new();
    while let Some(ch) = skipper.skip_space(&mut reader) {
        seen.push((ch, reader.index() - 1));
    }
    assert_eq!(
        seen,
        vec![(b'[', 3), (b'1', 5), (b',', 6), (b'2', 40), (b']', 63), (b'x', 100), (b'y', 149)]
    );
    assert_eq!(reader.index(), 150);
}

#[test]
fn skip_space_window_exhausted_then_tail() {
    // the cached window ends in whitespace; the search continues after it
    let mut data = vec![b'\t'; 140];
    data[0] = b'a';
    data[139] = b'b';
    let mut reader = Read::new(&data);
    let mut skipper = SpaceSkipper::new();
    assert_eq!(skipper.skip_space(&mut reader), Some(b'a'));
    assert_eq!(reader.index(), 1);
    assert_eq!(skipper.skip_space(&mut reader), Some(b'b'));
    assert_eq!(reader.index(), 140);
    assert_eq!(skipper.skip_space(&mut reader), None);
}

#[test]
fn skip_space_agrees_with_plain_scan() {
    let mut data = Vec::new();
    let mut seed = 12345u32;
    for _ in 0..1000 {
        seed = seed.wrapping_mul(1103515245).wrapping_add(12345);
        let r = (seed >> 16) % 10;
        data.push(match r {
            0..=2 => b' ',
            3 => b'\n',
            4 => b'\t',
            5 => b'\r',
            6..=7 => b'a' + (r as u8),
            _ => b'0',
        });
    }
    let mut reader = Read::new(&data);
    let mut skipper = SpaceSkipper::new();
    let mut pos = 0;
    loop {
        let mut expected = None;
        while pos < data.len() {
            let ch = data[pos];
            pos += 1;
            if !(ch == b' ' || ch == b'\n' || ch == b'\t' || ch == b'\r') {
                expected = Some(ch);
                break;
            }
        }
        let got = skipper.skip_space(&mut reader);
        assert_eq!(got, expected);
        assert_eq!(reader.index(), pos);
        if got.is_none() {
            break;
        }
    }
}

#[test]
fn skip_exponent_with_marker() {
    let data = b"e123,";
    let mut reader = Read::new(data);
    assert_eq!(skip_exponent(&mut reader), Ok(()));
    assert_eq!(reader.index(), 4);
}

#[test]
fn skip_exponent_upper_marker_to_end() {
    let data = b"E9";
    let mut reader = Read::new(data);
    assert_eq!(skip_exponent(&mut reader), Ok(()));
    assert_eq!(reader.index(), 2);
}

#[test]
fn skip_exponent_without_marker() {
    let data = b"-x07]";
    let mut reader = Read::new(data);
    reader.set_index(2);
    assert_eq!(skip_exponent(&mut reader), Ok(()));
    assert_eq!(reader.index(), 4);
}

#[test]
fn skip_single_digit_reads_one() {
    let data = b"42";
    let mut reader = Read::new(data);
    assert_eq!(skip_single_digit(&mut reader), Ok(b'4'));
    assert_eq!(reader.index(), 1);
    assert_eq!(skip_single_digit(&mut reader), Ok(b'2'));
    assert_eq!(reader.index(), 2);
}

#[test]
fn ascii_digits() {
    for ch in 0..=255u8 {
        assert_eq!(is_ascii_digit(ch), ch.is_ascii_digit());
    }
}

#[test]
fn reader_cursor_operations() {
    let data = b"abcdef";
    let mut reader = Read::new(data);
    assert_eq!(reader.len(), 6);
    assert_eq!(reader.peek_n(3), Some(&b"abc"[..]));
    assert_eq!(reader.peek_n(7), None);
    assert_eq!(reader.next(), Some(b'a'));
    assert!(reader.eat_if(|c| c == b'b'));
    assert!(!reader.eat_if(|c| c == b'x'));
    assert_eq!(reader.index(), 2);
    reader.eat(3);
    assert_eq!(reader.at(0), b'a');
    assert_eq!(reader.next(), Some(b'f'));
    assert_eq!(reader.next(), None);
    assert!(!reader.eat_if(|_| true));
    reader.set_index(1);
    assert_eq!(reader.peek_n(5), Some(&b"bcdef"[..]));
}
