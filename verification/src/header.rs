//! The file record: the first 1024 bytes of a kernel.

use vstd::prelude::*;
use crate::cursor::Cursor;
use crate::error::SpkError;
use crate::text::{ascii, phrase, same_bytes, tight, trimmed, trimmed_of_padded};
use crate::wire::{field, le_bytes, le_limits, le_value_of_le_bytes, u32_at};

verus! {

/// The length of the file record, and of every block of a kernel.
pub const BLOCK_SIZE: usize = 1024;

/// The architecture tag of an ephemeris kernel.
pub const TAG_SPK: &'static str = "DAF/SPK";

/// The architecture tag that older kernels carry.
pub const TAG_DAF: &'static str = "NAIF/DAF";

/// What the file record says of the kernel.
#[derive(Clone, Debug, PartialEq, Eq)]
pub struct FileHeader {
    /// The architecture tag, one of the accepted ones.
    pub architecture: Vec<u8>,
    /// How many doubles a segment descriptor holds.
    pub n_double_precision: u32,
    /// How many integers a segment descriptor holds.
    pub n_integers: u32,
    /// The name that the producer gave the kernel.
    pub internal_name: Vec<u8>,
    /// The number of the first directory block, counted from 1.
    pub first_summary_block: u32,
    /// The number of the last directory block, counted from 1.
    pub last_summary_block: u32,
    /// The first word address that holds no data.
    pub first_free_address: u32,
    /// The tag of the number format.
    pub numeric_format: Vec<u8>,
    /// The integrity marker, where the caller asked for it.
    pub integrity_marker: Option<Vec<u8>>,
}

/// A file record as plain values.
pub struct HeaderModel {
    pub architecture: Seq<u8>,
    pub n_double_precision: u32,
    pub n_integers: u32,
    pub internal_name: Seq<u8>,
    pub first_summary_block: u32,
    pub last_summary_block: u32,
    pub first_free_address: u32,
    pub numeric_format: Seq<u8>,
    pub integrity_marker: Option<Seq<u8>>,
}

impl View for FileHeader {
    type V = HeaderModel;

    open spec fn view(&self) -> HeaderModel {
        HeaderModel {
            architecture: self.architecture@,
            n_double_precision: self.n_double_precision,
            n_integers: self.n_integers,
            internal_name: self.internal_name@,
            first_summary_block: self.first_summary_block,
            last_summary_block: self.last_summary_block,
            first_free_address: self.first_free_address,
            numeric_format: self.numeric_format@,
            integrity_marker: match self.integrity_marker {
                Some(marker) => Some(marker@),
                None => None,
            },
        }
    }
}

/// Whether a trimmed architecture tag is one that this decoder reads.
pub open spec fn accepted_tag(tag: Seq<u8>) -> bool {
    tag == ascii(TAG_SPK@) || tag == ascii(TAG_DAF@)
}

/// The text field of `width` bytes at `offset`, trimmed.
pub open spec fn text_at(buf: Seq<u8>, offset: int, width: int) -> Seq<u8> {
    trimmed(field(buf, offset, width))
}

/// The fields of a file record of full length, each at its fixed offset.
pub open spec fn header_fields(buf: Seq<u8>, keep_integrity: bool) -> HeaderModel {
    HeaderModel {
        architecture: text_at(buf, 0, 8),
        n_double_precision: u32_at(buf, 8),
        n_integers: u32_at(buf, 12),
        internal_name: text_at(buf, 16, 60),
        first_summary_block: u32_at(buf, 76),
        last_summary_block: u32_at(buf, 80),
        first_free_address: u32_at(buf, 84),
        numeric_format: text_at(buf, 88, 8),
        integrity_marker: if keep_integrity {
            Some(text_at(buf, 699, 28))
        } else {
            None
        },
    }
}

/// What decoding the file record of `buf` gives: the tag is read and judged
/// first, then the rest of the 1024 bytes.
pub open spec fn parse_header(buf: Seq<u8>, keep_integrity: bool) -> Result<
    HeaderModel,
    SpkError,
> {
    if buf.len() < 8 {
        Err(SpkError::Truncated)
    } else if !accepted_tag(text_at(buf, 0, 8)) {
        Err(SpkError::BadArchitectureTag)
    } else if buf.len() < 1024 {
        Err(SpkError::Truncated)
    } else {
        Ok(header_fields(buf, keep_integrity))
    }
}

/// Tells whether a trimmed architecture tag is an accepted one.
pub fn is_accepted_tag(tag: &[u8]) -> (r: bool)
    ensures
        r == accepted_tag(tag@),
{
    proof {
        reveal_strlit("DAF/SPK");
        reveal_strlit("NAIF/DAF");
    }
    same_bytes(tag, phrase(TAG_SPK)) || same_bytes(tag, phrase(TAG_DAF))
}

/// Decodes the file record at the start of `buf`. The integrity marker is
/// decoded where `keep_integrity` is set and passed over otherwise.
///
/// Fails with `BadArchitectureTag` when the tag is none of the accepted
/// ones, and with `Truncated` when `buf` ends before the record does.
pub fn decode_header(buf: &[u8], keep_integrity: bool) -> (r: Result<FileHeader, SpkError>)
    ensures
        match r {
            Ok(header) => parse_header(buf@, keep_integrity) == Ok::<HeaderModel, SpkError>(
                header@,
            ),
            Err(e) => parse_header(buf@, keep_integrity) == Err::<HeaderModel, SpkError>(e),
        },
{
    let mut cursor = Cursor::new(buf);
    let architecture = cursor.take_text(8)?;
    if !is_accepted_tag(architecture.as_slice()) {
        return Err(SpkError::BadArchitectureTag);
    }
    if cursor.remaining() < BLOCK_SIZE - 8 {
        return Err(SpkError::Truncated);
    }
    let n_double_precision = cursor.take_u32()?;
    let n_integers = cursor.take_u32()?;
    let internal_name = cursor.take_text(60)?;
    let first_summary_block = cursor.take_u32()?;
    let last_summary_block = cursor.take_u32()?;
    let first_free_address = cursor.take_u32()?;
    let numeric_format = cursor.take_text(8)?;
    cursor.skip(603)?;
    let integrity_marker = if keep_integrity {
        Some(cursor.take_text(28)?)
    } else {
        cursor.skip(28)?;
        None
    };
    cursor.skip(297)?;
    assert(cursor.position() == 1024);
    Ok(
        FileHeader {
            architecture,
            n_double_precision,
            n_integers,
            internal_name,
            first_summary_block,
            last_summary_block,
            first_free_address,
            numeric_format,
            integrity_marker,
        },
    )
}

/// `text` filled up with spaces to `width` bytes.
pub open spec fn padded(text: Seq<u8>, width: int) -> Seq<u8> {
    text + Seq::new((width - text.len()) as nat, |i: int| 32u8)
}

/// `width` bytes that nothing reads.
pub open spec fn reserved(width: nat) -> Seq<u8> {
    Seq::new(width, |i: int| 0u8)
}

/// The 1024 bytes that spell a file record.
pub open spec fn encode_header(header: HeaderModel) -> Seq<u8> {
    padded(header.architecture, 8) + le_bytes(header.n_double_precision as nat, 4) + le_bytes(
        header.n_integers as nat,
        4,
    ) + padded(header.internal_name, 60) + le_bytes(header.first_summary_block as nat, 4)
        + le_bytes(header.last_summary_block as nat, 4) + le_bytes(
        header.first_free_address as nat,
        4,
    ) + padded(header.numeric_format, 8) + reserved(603) + padded(
        match header.integrity_marker {
            Some(marker) => marker,
            None => Seq::empty(),
        },
        28,
    ) + reserved(297)
}

/// Whether a file record can be spelled: its tag is an accepted one, and
/// each text fits its field and has no blank byte at either end.
pub open spec fn encodable(header: HeaderModel) -> bool {
    &&& accepted_tag(header.architecture)
    &&& tight(header.internal_name) && header.internal_name.len() <= 60
    &&& tight(header.numeric_format) && header.numeric_format.len() <= 8
    &&& header.integrity_marker matches Some(marker) ==> tight(marker) && marker.len() <= 28
}

/// A text field comes back from its padded form.
proof fn padded_reads_back(text: Seq<u8>, width: int)
    requires
        tight(text),
        text.len() <= width,
    ensures
        padded(text, width).len() == width,
        trimmed(padded(text, width)) == text,
{
    trimmed_of_padded(text, Seq::new((width - text.len()) as nat, |i: int| 32u8));
}

/// Round trip of the file record: decoding the bytes that spell a record
/// gives every field of that record back.
pub proof fn header_round_trip(header: HeaderModel)
    requires
        encodable(header),
    ensures
        encode_header(header).len() == 1024,
        parse_header(encode_header(header), header.integrity_marker is Some) == Ok::<
            HeaderModel,
            SpkError,
        >(header),
{
    reveal_strlit("DAF/SPK");
    reveal_strlit("NAIF/DAF");
    let buf = encode_header(header);
    let marker = match header.integrity_marker {
        Some(marker) => marker,
        None => Seq::empty(),
    };
    le_limits();
    le_value_of_le_bytes(header.n_double_precision as nat, 4);
    le_value_of_le_bytes(header.n_integers as nat, 4);
    le_value_of_le_bytes(header.first_summary_block as nat, 4);
    le_value_of_le_bytes(header.last_summary_block as nat, 4);
    le_value_of_le_bytes(header.first_free_address as nat, 4);
    assert(tight(header.architecture) && header.architecture.len() <= 8);
    padded_reads_back(header.architecture, 8);
    padded_reads_back(header.internal_name, 60);
    padded_reads_back(header.numeric_format, 8);
    padded_reads_back(marker, 28);
    assert(buf.len() == 1024);
    assert(field(buf, 0, 8) =~= padded(header.architecture, 8));
    assert(field(buf, 8, 4) =~= le_bytes(header.n_double_precision as nat, 4));
    assert(field(buf, 12, 4) =~= le_bytes(header.n_integers as nat, 4));
    assert(field(buf, 16, 60) =~= padded(header.internal_name, 60));
    assert(field(buf, 76, 4) =~= le_bytes(header.first_summary_block as nat, 4));
    assert(field(buf, 80, 4) =~= le_bytes(header.last_summary_block as nat, 4));
    assert(field(buf, 84, 4) =~= le_bytes(header.first_free_address as nat, 4));
    assert(field(buf, 88, 8) =~= padded(header.numeric_format, 8));
    assert(field(buf, 699, 28) =~= padded(marker, 28));
}

} // verus!
