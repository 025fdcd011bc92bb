use daf_spk::error::SpkError;
use daf_spk::number::{decimal_text, is_numeric, parse_i16};
use daf_spk::text::{find, is_blank, same_bytes, skip_blank, split_words, stands_at, trim};
use daf_spk::wire::{read_u32, read_u64};

#[test]
fn blank_bytes_are_nul_space_and_the_five_controls() {
    for b in [0u8, 9, 10, 11, 12, 13, 32] {
        assert!(is_blank(b), "{}", b);
    }
    for b in [1u8, 8, 14, 31, 33, b'a', 0x85, 0xa0, 255] {
        assert!(!is_blank(b), "{}", b);
    }
}

#[test]
fn trim_strips_whitespace_and_nul_at_both_ends() {
    assert_eq!(trim(b"  DAF/SPK \0\0"), b"DAF/SPK");
    assert_eq!(trim(b"\0\t a b \r\n"), b"a b");
    assert_eq!(trim(b"x"), b"x");
    assert_eq!(trim(b""), b"");
    assert_eq!(trim(b" \0 \0"), b"");
    assert_eq!(trim(b"a\0b"), b"a\0b");
}

#[test]
fn skip_blank_stops_at_the_first_solid_byte() {
    assert_eq!(skip_blank(b"\0\0  ab", 0), 4);
    assert_eq!(skip_blank(b"\0\0  ab", 4), 4);
    assert_eq!(skip_blank(b"ab  ", 2), 4);
    assert_eq!(skip_blank(b"", 0), 0);
    assert_eq!(skip_blank(b"ab", 7), 2);
}

#[test]
fn find_gives_the_first_place() {
    assert_eq!(find(b"abcabc", b"bc", 0), Some(1));
    assert_eq!(find(b"abcabc", b"bc", 1), Some(1));
    assert_eq!(find(b"abcabc", b"bc", 2), Some(4));
    assert_eq!(find(b"abcabc", b"bc", 5), None);
    assert_eq!(find(b"abcabc", b"cb", 0), None);
    assert_eq!(find(b"abc", b"abcd", 0), None);
    assert_eq!(find(b"abc", b"", 0), Some(0));
    assert_eq!(find(b"abc", b"", 3), Some(3));
    assert_eq!(find(b"abc", b"", 4), None);
    assert_eq!(find(b"aab", b"ab", 0), Some(1));
}

#[test]
fn stands_at_and_same_bytes() {
    assert!(stands_at(b"hello", b"ll", 2));
    assert!(!stands_at(b"hello", b"ll", 3));
    assert!(!stands_at(b"hello", b"lo", 4));
    assert!(stands_at(b"hello", b"", 5));
    assert!(!stands_at(b"hello", b"", 6));
    assert!(same_bytes(b"abc", b"abc"));
    assert!(!same_bytes(b"abc", b"abd"));
    assert!(!same_bytes(b"abc", b"ab"));
    assert!(same_bytes(b"", b""));
}

#[test]
fn split_words_gives_the_bounds_of_each_word() {
    assert_eq!(split_words(b"  3  GM\t1.5D+3 "), vec![(2, 3), (5, 7), (8, 14)]);
    assert_eq!(split_words(b"one"), vec![(0, 3)]);
    assert_eq!(split_words(b""), Vec::<(usize, usize)>::new());
    assert_eq!(split_words(b" \0 \n"), Vec::<(usize, usize)>::new());
    assert_eq!(split_words(b"a\0b"), vec![(0, 1), (2, 3)]);
}

#[test]
fn parse_i16_reads_signed_decimals() {
    assert_eq!(parse_i16(b"199"), Some(199));
    assert_eq!(parse_i16(b"-31"), Some(-31));
    assert_eq!(parse_i16(b"+7"), Some(7));
    assert_eq!(parse_i16(b"007"), Some(7));
    assert_eq!(parse_i16(b"0"), Some(0));
    assert_eq!(parse_i16(b"-0"), Some(0));
    assert_eq!(parse_i16(b"32767"), Some(32767));
    assert_eq!(parse_i16(b"-32768"), Some(-32768));
    assert_eq!(parse_i16(b"32768"), None);
    assert_eq!(parse_i16(b"-32769"), None);
    assert_eq!(parse_i16(b"99999999999999999999999"), None);
    assert_eq!(parse_i16(b""), None);
    assert_eq!(parse_i16(b"-"), None);
    assert_eq!(parse_i16(b"+"), None);
    assert_eq!(parse_i16(b"12a"), None);
    assert_eq!(parse_i16(b"40000x"), None);
    assert_eq!(parse_i16(b" 12"), None);
    assert_eq!(parse_i16(b"1.0"), None);
}

#[test]
fn parse_i16_agrees_with_std() {
    for text in ["0", "1", "-1", "+12", "0012", "32767", "32768", "-32768", "-32769", "", "-", "1-", "++1", "65536"] {
        assert_eq!(parse_i16(text.as_bytes()), text.parse::<i16>().ok(), "{}", text);
    }
}

#[test]
fn is_numeric_accepts_what_a_double_is_written_as() {
    for text in ["1", "-1", "+1", "1.", ".5", "1.5", "1e5", "1E5", "1.5e-3", "1.E+3", ".5e0", "0.491248045036476000E-10", "007", "1e0005"] {
        assert!(is_numeric(text.as_bytes()), "{}", text);
        assert!(text.parse::<f64>().is_ok(), "{}", text);
    }
    for text in ["", ".", "+", "-", "e5", "1e", "1e+", "1.5.2", "1 ", " 1", "1D5", "abc", "1e5x", "--1", "+.", ".e5", "1e5.0"] {
        assert!(!is_numeric(text.as_bytes()), "{}", text);
    }
}

#[test]
fn decimal_text_reads_d_as_e() {
    assert_eq!(decimal_text(b"1.32712440018D+11"), Ok(b"1.32712440018E+11".to_vec()));
    assert_eq!(decimal_text(b"81.30056"), Ok(b"81.30056".to_vec()));
    assert_eq!(decimal_text(b"1D0"), Ok(b"1E0".to_vec()));
    assert_eq!(decimal_text(b"1d0"), Err(SpkError::UnparsableNumeric));
    assert_eq!(decimal_text(b"GM"), Err(SpkError::UnparsableNumeric));
    assert_eq!(decimal_text(b"1DD0"), Err(SpkError::UnparsableNumeric));
    assert_eq!(decimal_text(b""), Err(SpkError::UnparsableNumeric));
}

#[test]
fn decimal_text_gives_text_that_parses_to_the_value() {
    let text = decimal_text(b"1.32712440018D+11").unwrap();
    let value: f64 = String::from_utf8(text).unwrap().parse().unwrap();
    assert_eq!(value, 1.32712440018e11);
}

#[test]
fn read_u32_is_little_endian() {
    assert_eq!(read_u32(&[0x78, 0x56, 0x34, 0x12], 0), Some(0x12345678));
    assert_eq!(read_u32(&[0, 0x78, 0x56, 0x34, 0x12, 9], 1), Some(0x12345678));
    assert_eq!(read_u32(&[1, 0, 0, 0], 0), Some(1));
    assert_eq!(read_u32(&[0, 0, 0, 1], 0), Some(1 << 24));
    assert_eq!(read_u32(&[0xff; 4], 0), Some(u32::MAX));
    assert_eq!(read_u32(&[1, 2, 3], 0), None);
    assert_eq!(read_u32(&[1, 2, 3, 4], 1), None);
    assert_eq!(read_u32(&[1, 2, 3, 4], 5), None);
    assert_eq!(read_u32(&[1, 2, 3, 4], usize::MAX), None);
}

#[test]
fn read_u64_is_little_endian() {
    assert_eq!(read_u64(&[8, 7, 6, 5, 4, 3, 2, 1], 0), Some(0x0102030405060708));
    assert_eq!(read_u64(&1.5f64.to_le_bytes(), 0), Some(1.5f64.to_bits()));
    assert_eq!(read_u64(&[0xff; 8], 0), Some(u64::MAX));
    assert_eq!(read_u64(&[0; 7], 0), None);
    assert_eq!(read_u64(&[0; 9], 2), None);
    assert_eq!(read_u64(&[0; 9], 1), Some(0));
}
