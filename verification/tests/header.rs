use daf_spk::cursor::Cursor;
use daf_spk::error::SpkError;
use daf_spk::header::{decode_header, is_accepted_tag, FileHeader, BLOCK_SIZE};

fn pad(text: &[u8], width: usize) -> Vec<u8> {
    let mut field = text.to_vec();
    field.resize(width, b' ');
    field
}

fn encode(header: &FileHeader) -> Vec<u8> {
    let mut buf = Vec::new();
    buf.extend(pad(&header.architecture, 8));
    buf.extend(header.n_double_precision.to_le_bytes());
    buf.extend(header.n_integers.to_le_bytes());
    buf.extend(pad(&header.internal_name, 60));
    buf.extend(header.first_summary_block.to_le_bytes());
    buf.extend(header.last_summary_block.to_le_bytes());
    buf.extend(header.first_free_address.to_le_bytes());
    buf.extend(pad(&header.numeric_format, 8));
    buf.extend(vec![0u8; 603]);
    buf.extend(pad(header.integrity_marker.as_deref().unwrap_or(b""), 28));
    buf.extend(vec![0u8; 297]);
    buf
}

fn sample() -> FileHeader {
    FileHeader {
        architecture: b"DAF/SPK".to_vec(),
        n_double_precision: 2,
        n_integers: 6,
        internal_name: b"NIO2SPK".to_vec(),
        first_summary_block: 4,
        last_summary_block: 7,
        first_free_address: 0x01020304,
        numeric_format: b"LTL-IEEE".to_vec(),
        integrity_marker: Some(b"FTPSTR:\r:\n:\r\n:\r\0:\x81:\x10\xce:ENDFTP".to_vec()),
    }
}

#[test]
fn header_round_trip() {
    let header = sample();
    let buf = encode(&header);
    assert_eq!(buf.len(), 1024);
    assert_eq!(decode_header(&buf, true), Ok(header));
}

#[test]
fn header_round_trip_without_the_integrity_marker() {
    let mut header = sample();
    let buf = encode(&header);
    header.integrity_marker = None;
    assert_eq!(decode_header(&buf, false), Ok(header));
}

#[test]
fn header_round_trip_with_the_older_tag_and_longer_buffer() {
    let mut header = sample();
    header.architecture = b"NAIF/DAF".to_vec();
    header.internal_name = Vec::new();
    header.n_double_precision = u32::MAX;
    header.first_summary_block = 0;
    let mut buf = encode(&header);
    buf.extend(vec![7u8; 2048]);
    assert_eq!(decode_header(&buf, true), Ok(header));
}

#[test]
fn header_fields_are_trimmed_of_nul_and_space() {
    let mut buf = encode(&sample());
    buf[16..76].copy_from_slice(&pad(b"\0\0 de430 \0", 60));
    let header = decode_header(&buf, true).unwrap();
    assert_eq!(header.internal_name, b"de430".to_vec());
}

#[test]
fn header_with_a_mismatched_tag() {
    let mut header = sample();
    header.architecture = b"DAF/CK".to_vec();
    assert_eq!(decode_header(&encode(&header), true), Err(SpkError::BadArchitectureTag));
    header.architecture = b"daf/spk".to_vec();
    assert_eq!(decode_header(&encode(&header), false), Err(SpkError::BadArchitectureTag));
    header.architecture = Vec::new();
    assert_eq!(decode_header(&encode(&header), false), Err(SpkError::BadArchitectureTag));
}

#[test]
fn header_that_is_cut_short() {
    let buf = encode(&sample());
    assert_eq!(decode_header(&buf[..1023], true), Err(SpkError::Truncated));
    assert_eq!(decode_header(&buf[..8], true), Err(SpkError::Truncated));
    assert_eq!(decode_header(&buf[..7], true), Err(SpkError::Truncated));
    assert_eq!(decode_header(&[], true), Err(SpkError::Truncated));
}

#[test]
fn header_judges_the_tag_before_the_length() {
    let mut header = sample();
    header.architecture = b"BAD".to_vec();
    let buf = encode(&header);
    assert_eq!(decode_header(&buf[..100], true), Err(SpkError::BadArchitectureTag));
}

#[test]
fn accepted_tags() {
    assert!(is_accepted_tag(b"DAF/SPK"));
    assert!(is_accepted_tag(b"NAIF/DAF"));
    assert!(!is_accepted_tag(b"DAF/SPK "));
    assert!(!is_accepted_tag(b"DAF/PCK"));
    assert!(!is_accepted_tag(b""));
}

#[test]
fn block_size_is_1024() {
    assert_eq!(BLOCK_SIZE, 1024);
}

#[test]
fn cursor_takes_fields_in_turn() {
    let mut buf = b" ab ".to_vec();
    buf.extend(0x11223344u32.to_le_bytes());
    buf.extend(2.5f64.to_le_bytes());
    buf.extend(b"xyz");
    let mut cursor = Cursor::new(&buf);
    assert_eq!(cursor.offset(), 0);
    assert_eq!(cursor.remaining(), 19);
    assert_eq!(cursor.take_text(4), Ok(b"ab".to_vec()));
    assert_eq!(cursor.offset(), 4);
    assert_eq!(cursor.take_u32(), Ok(0x11223344));
    assert_eq!(cursor.take_double(), Ok(2.5f64.to_bits()));
    assert_eq!(cursor.offset(), 16);
    assert_eq!(cursor.skip(1), Ok(()));
    assert_eq!(cursor.take(2), Ok(&b"yz"[..]));
    assert_eq!(cursor.remaining(), 0);
    assert_eq!(cursor.skip(0), Ok(()));
    assert_eq!(cursor.take(0), Ok(&b""[..]));
}

#[test]
fn cursor_stays_where_too_few_bytes_remain() {
    let buf = [1u8, 2, 3, 4, 5];
    let mut cursor = Cursor::at(&buf, 2).unwrap();
    assert_eq!(cursor.take_u32(), Err(SpkError::Truncated));
    assert_eq!(cursor.take_double(), Err(SpkError::Truncated));
    assert_eq!(cursor.take_text(4), Err(SpkError::Truncated));
    assert_eq!(cursor.take(4), Err(SpkError::Truncated));
    assert_eq!(cursor.skip(4), Err(SpkError::Truncated));
    assert_eq!(cursor.skip(usize::MAX), Err(SpkError::Truncated));
    assert_eq!(cursor.offset(), 2);
    assert_eq!(cursor.take(3), Ok(&[3u8, 4, 5][..]));
    assert_eq!(cursor.offset(), 5);
}

#[test]
fn cursor_starts_at_most_at_the_end() {
    let buf = [1u8, 2, 3];
    assert!(Cursor::at(&buf, 3).is_ok());
    assert!(matches!(Cursor::at(&buf, 4), Err(SpkError::Truncated)));
}
