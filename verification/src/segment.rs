//! The data of one segment: Chebyshev coefficient records of equal size,
//! and behind them four words that say how the records divide the
//! segment's time.
//!
//! Everything here is kept as the bits of the doubles that the kernel
//! stores. Evaluating the polynomials is arithmetic on those doubles and
//! is left to the caller; this module finds the record and takes it apart.

use vstd::prelude::*;
use crate::chain::SegmentDescriptor;
use crate::double::{at_most, count_of, double_to_count, double_within, within};
use crate::error::SpkError;
use crate::wire::{read_u64, u64_at};

verus! {

/// The data type of position-only records.
pub const TYPE_POSITION: u32 = 2;

/// The data type of records with position and velocity.
pub const TYPE_POSITION_VELOCITY: u32 = 3;

/// The last four words of a segment's data.
#[derive(Clone, Copy, Debug, PartialEq, Eq, Structural)]
pub struct ElementRecordMetadata {
    /// The time at which the first record starts, as the bits of a double.
    pub init: u64,
    /// The length of time that one record covers, as the bits of a double.
    pub intlen: u64,
    /// The number of words in one record.
    pub rsize: u64,
    /// The number of records.
    pub n: u64,
}

/// One record: the middle and the half-length of its time interval, and
/// the coefficients of each axis, all as the bits of doubles.
#[derive(Clone, Debug, PartialEq, Eq)]
pub struct ChebyshevRecord {
    pub center: u64,
    pub radius: u64,
    pub axes: Vec<Vec<u64>>,
}

/// A record as plain values.
pub struct RecordModel {
    pub center: u64,
    pub radius: u64,
    pub axes: Seq<Seq<u64>>,
}

/// The coefficients of each axis as plain values.
pub open spec fn axes_model(axes: Seq<Vec<u64>>) -> Seq<Seq<u64>> {
    Seq::new(axes.len(), |a: int| axes[a]@)
}

impl View for ChebyshevRecord {
    type V = RecordModel;

    open spec fn view(&self) -> RecordModel {
        RecordModel { center: self.center, radius: self.radius, axes: axes_model(self.axes@) }
    }
}

/// Whether a data type is one of the two Chebyshev encodings.
pub open spec fn supported(data_type: u32) -> bool {
    data_type == 2 || data_type == 3
}

/// The number of axes of a supported data type: three for position, six
/// for position and velocity.
pub open spec fn axes_of(data_type: u32) -> int {
    if data_type == 2 {
        3
    } else {
        6
    }
}

/// The number of coefficients that each axis has in a record of `rsize`
/// words, two of which are the interval's middle and half-length.
pub open spec fn coefficients_per_axis(rsize: int, axes: int) -> int {
    (rsize - 2) / axes
}

/// The degree of the polynomials of a record of `rsize` words.
pub open spec fn degree(rsize: int, axes: int) -> int {
    coefficients_per_axis(rsize, axes) - 1
}

/// Whether the buffer holds the segment's words and they leave room for
/// the four that end it.
pub open spec fn segment_in_buffer(buf: Seq<u8>, descriptor: SegmentDescriptor) -> bool {
    descriptor.start_index + 4 <= descriptor.end_index && descriptor.end_index * 8 <= buf.len()
}

/// The number of words before the four that end the segment.
pub open spec fn data_words(descriptor: SegmentDescriptor) -> int {
    descriptor.end_index - descriptor.start_index - 4
}

/// The four words that end the segment, read from its end backward.
pub open spec fn metadata_of(buf: Seq<u8>, descriptor: SegmentDescriptor) -> ElementRecordMetadata {
    let end = descriptor.end_index * 8;
    ElementRecordMetadata {
        init: u64_at(buf, end - 32),
        intlen: u64_at(buf, end - 24),
        rsize: count_of(u64_at(buf, end - 16)),
        n: count_of(u64_at(buf, end - 8)),
    }
}

/// What reading a segment's metadata gives.
pub open spec fn parse_metadata(buf: Seq<u8>, descriptor: SegmentDescriptor) -> Result<
    ElementRecordMetadata,
    SpkError,
> {
    if !supported(descriptor.data_type) {
        Err(SpkError::UnsupportedDataType)
    } else if !segment_in_buffer(buf, descriptor) {
        Err(SpkError::Truncated)
    } else {
        Ok(metadata_of(buf, descriptor))
    }
}

/// Whether the segment is as long as its metadata says: `n` records of
/// `rsize` words, and the four words that end it.
pub open spec fn consistent(descriptor: SegmentDescriptor, metadata: ElementRecordMetadata) -> bool {
    descriptor.end_index - descriptor.start_index == metadata.n * metadata.rsize + 4
}

/// The index of the record for a time, given the whole number of record
/// lengths that lie between the segment's first instant and that time, as
/// the bits of a double: that number, kept within 0 and `n - 1`.
pub open spec fn index_of(quotient: u64, n: u64) -> int {
    if count_of(quotient) < n {
        count_of(quotient) as int
    } else {
        n - 1
    }
}

/// The offset of the first byte of record `k`.
pub open spec fn record_start(descriptor: SegmentDescriptor, rsize: int, k: int) -> int {
    descriptor.start_index * 8 + k * rsize * 8
}

/// Coefficient `i` of axis `axis` in the record that starts at `start`.
pub open spec fn coefficient_at(buf: Seq<u8>, start: int, per_axis: int, axis: int, i: int) -> u64 {
    u64_at(buf, start + 16 + 8 * (axis * per_axis + i))
}

/// The coefficients of axis `axis` in the record that starts at `start`.
pub open spec fn axis_at(buf: Seq<u8>, start: int, per_axis: int, axis: int) -> Seq<u64> {
    Seq::new(per_axis as nat, |i: int| coefficient_at(buf, start, per_axis, axis, i))
}

/// The record that starts at `start`, with `per_axis` coefficients for
/// each of `axes` axes.
pub open spec fn record_at(buf: Seq<u8>, start: int, axes: int, per_axis: int) -> RecordModel {
    RecordModel {
        center: u64_at(buf, start),
        radius: u64_at(buf, start + 8),
        axes: Seq::new(axes as nat, |a: int| axis_at(buf, start, per_axis, a)),
    }
}

/// Whether record `k` has its two leading words and lies before the four
/// words that end the segment.
pub open spec fn record_fits(descriptor: SegmentDescriptor, rsize: int, k: int) -> bool {
    rsize >= 2 && (k + 1) * rsize <= data_words(descriptor)
}

/// What reading record `k` of a segment gives.
pub open spec fn parse_record(
    buf: Seq<u8>,
    descriptor: SegmentDescriptor,
    rsize: u64,
    k: u64,
) -> Result<RecordModel, SpkError> {
    let axes = axes_of(descriptor.data_type);
    if !supported(descriptor.data_type) {
        Err(SpkError::UnsupportedDataType)
    } else if !segment_in_buffer(buf, descriptor) || !record_fits(
        descriptor,
        rsize as int,
        k as int,
    ) {
        Err(SpkError::Truncated)
    } else {
        Ok(
            record_at(
                buf,
                record_start(descriptor, rsize as int, k as int),
                axes,
                coefficients_per_axis(rsize as int, axes),
            ),
        )
    }
}

/// What a query for `time` gives, where `quotient` is the whole number of
/// record lengths between the segment's first instant and `time`.
pub open spec fn parse_query(
    buf: Seq<u8>,
    descriptor: SegmentDescriptor,
    time: u64,
    quotient: u64,
) -> Result<RecordModel, SpkError> {
    if !supported(descriptor.data_type) {
        Err(SpkError::UnsupportedDataType)
    } else if !within(descriptor.begin_second, descriptor.end_second, time) {
        Err(SpkError::OutOfRange)
    } else if !segment_in_buffer(buf, descriptor) || metadata_of(buf, descriptor).n == 0 {
        Err(SpkError::Truncated)
    } else {
        let metadata = metadata_of(buf, descriptor);
        parse_record(buf, descriptor, metadata.rsize, index_of(quotient, metadata.n) as u64)
    }
}

/// The number of axes that records of `data_type` have. Fails with
/// `UnsupportedDataType` for any type but the two Chebyshev encodings.
pub fn axis_count(data_type: u32) -> (r: Result<u64, SpkError>)
    ensures
        match r {
            Ok(axes) => supported(data_type) && axes == axes_of(data_type),
            Err(e) => e == SpkError::UnsupportedDataType && !supported(data_type),
        },
{
    if data_type == TYPE_POSITION {
        Ok(3)
    } else if data_type == TYPE_POSITION_VELOCITY {
        Ok(6)
    } else {
        Err(SpkError::UnsupportedDataType)
    }
}

/// The degree of the polynomials in records of `rsize` words: one less
/// than the number of coefficients that each axis has, so -1 where the
/// record holds none.
///
/// Fails with `UnsupportedDataType` for a data type of another encoding,
/// and with `Truncated` where a record has no room for its two leading
/// words.
pub fn degree_of(data_type: u32, rsize: u64) -> (r: Result<i64, SpkError>)
    ensures
        match r {
            Ok(d) => supported(data_type) && rsize >= 2 && d == degree(
                rsize as int,
                axes_of(data_type),
            ),
            Err(e) => if supported(data_type) {
                e == SpkError::Truncated && rsize < 2
            } else {
                e == SpkError::UnsupportedDataType
            },
        },
{
    let axes = axis_count(data_type)?;
    if rsize < 2 {
        return Err(SpkError::Truncated);
    }
    Ok(((rsize - 2) / axes) as i64 - 1)
}

/// Reads the four words that end a segment's data.
///
/// Fails with `UnsupportedDataType` for a segment of another encoding, and
/// with `Truncated` where the segment has no room for the four words or
/// the buffer ends before the segment does.
pub fn read_metadata(buf: &[u8], descriptor: &SegmentDescriptor) -> (r: Result<
    ElementRecordMetadata,
    SpkError,
>)
    ensures
        match r {
            Ok(metadata) => parse_metadata(buf@, *descriptor) == Ok::<
                ElementRecordMetadata,
                SpkError,
            >(metadata),
            Err(e) => parse_metadata(buf@, *descriptor) == Err::<ElementRecordMetadata, SpkError>(
                e,
            ),
        },
{
    axis_count(descriptor.data_type)?;
    let start = descriptor.start_index as u64;
    let end = descriptor.end_index as u64;
    if start + 4 > end || end * 8 > buf.len() as u64 {
        return Err(SpkError::Truncated);
    }
    let last = (end * 8) as usize;
    match (
        read_u64(buf, last - 32),
        read_u64(buf, last - 24),
        read_u64(buf, last - 16),
        read_u64(buf, last - 8),
    ) {
        (Some(init), Some(intlen), Some(rsize), Some(n)) => Ok(
            ElementRecordMetadata {
                init,
                intlen,
                rsize: double_to_count(rsize),
                n: double_to_count(n),
            },
        ),
        _ => Err(SpkError::Truncated),
    }
}

/// Tells whether the segment is as long as its metadata says.
pub fn is_consistent(descriptor: &SegmentDescriptor, metadata: &ElementRecordMetadata) -> (r: bool)
    ensures
        r == consistent(*descriptor, *metadata),
{
    if descriptor.end_index < descriptor.start_index {
        return false;
    }
    let words = (descriptor.end_index - descriptor.start_index) as u128;
    let n = metadata.n as u128;
    let rsize = metadata.rsize as u128;
    assert(n * rsize <= 0xffff_ffff_ffff_ffff * 0xffff_ffff_ffff_ffff) by (nonlinear_arith)
        requires
            n <= 0xffff_ffff_ffff_ffff,
            rsize <= 0xffff_ffff_ffff_ffff,
    ;
    words == n * rsize + 4
}

/// The index of the record for a time, from the whole number of record
/// lengths between the segment's first instant and that time: that number
/// as a count, or `n - 1` where it is larger. Fails with `Truncated` for a
/// segment without records.
pub fn record_index(quotient: u64, n: u64) -> (r: Result<u64, SpkError>)
    ensures
        match r {
            Ok(k) => n >= 1 && k == index_of(quotient, n) && k < n,
            Err(e) => e == SpkError::Truncated && n == 0,
        },
{
    if n == 0 {
        return Err(SpkError::Truncated);
    }
    let whole = double_to_count(quotient);
    if whole < n {
        Ok(whole)
    } else {
        Ok(n - 1)
    }
}

/// Reads the `count` coefficients of one axis, which start at `at`.
fn read_axis(buf: &[u8], at: usize, count: usize) -> (axis: Vec<u64>)
    requires
        at + 8 * count <= buf.len(),
    ensures
        axis@.len() == count,
        forall|i: int| 0 <= i < count ==> axis@[i] == u64_at(buf@, at + 8 * i),
{
    let mut axis: Vec<u64> = Vec::new();
    let mut i: usize = 0;
    while i < count
        invariant
            i <= count,
            at + 8 * count <= buf.len(),
            axis@.len() == i,
            forall|j: int| 0 <= j < i ==> axis@[j] == u64_at(buf@, at + 8 * j),
        decreases count - i,
    {
        match read_u64(buf, at + 8 * i) {
            Some(bits) => {
                axis.push(bits);
            },
            None => vstd::pervasive::unreached(),
        }
        i += 1;
    }
    axis
}

/// Reads record `k` of a segment whose records have `rsize` words.
///
/// Fails with `UnsupportedDataType` for a segment of another encoding, and
/// with `Truncated` where the record has no room for its two leading
/// words, or does not lie inside the segment's data, or the buffer ends
/// before the segment does.
pub fn read_record(buf: &[u8], descriptor: &SegmentDescriptor, rsize: u64, k: u64) -> (r: Result<
    ChebyshevRecord,
    SpkError,
>)
    ensures
        match r {
            Ok(record) => parse_record(buf@, *descriptor, rsize, k) == Ok::<RecordModel, SpkError>(
                record@,
            ),
            Err(e) => parse_record(buf@, *descriptor, rsize, k) == Err::<RecordModel, SpkError>(e),
        },
{
    let axes = axis_count(descriptor.data_type)?;
    let start = descriptor.start_index as u64;
    let end = descriptor.end_index as u64;
    if start + 4 > end || end * 8 > buf.len() as u64 {
        return Err(SpkError::Truncated);
    }
    let words = end - start - 4;
    if rsize < 2 || rsize > words || k >= words / rsize {
        proof {
            if rsize >= 2 {
                assert((k + 1) * rsize > words) by (nonlinear_arith)
                    requires
                        rsize > words || k >= words / rsize,
                        rsize >= 2,
                        words >= 0,
                        k >= 0,
                ;
            }
        }
        return Err(SpkError::Truncated);
    }
    assert((k + 1) * rsize <= words && k * rsize <= words) by (nonlinear_arith)
        requires
            k < words / rsize,
            rsize >= 2,
            k >= 0,
    ;
    let per_axis = (rsize - 2) / axes;
    assert(axes * per_axis <= rsize - 2) by (nonlinear_arith)
        requires
            per_axis == (rsize - 2) / (axes as int),
            axes > 0,
            rsize >= 2,
    ;
    assert((start + k * rsize) * 8 + 8 * rsize <= end * 8 - 32) by (nonlinear_arith)
        requires
            (k + 1) * rsize <= words,
            words == end - start - 4,
    ;
    let at = ((start + k * rsize) * 8) as usize;
    assert(at == record_start(*descriptor, rsize as int, k as int)) by (nonlinear_arith)
        requires
            at == (start + k * rsize) * 8,
            start == descriptor.start_index,
    ;
    let (center, radius) = match (read_u64(buf, at), read_u64(buf, at + 8)) {
        (Some(center), Some(radius)) => (center, radius),
        _ => vstd::pervasive::unreached(),
    };
    let mut found: Vec<Vec<u64>> = Vec::new();
    let mut a: u64 = 0;
    while a < axes
        invariant
            a <= axes,
            axes * per_axis <= rsize - 2,
            at + 8 * rsize <= buf.len(),
            found@.len() == a,
            forall|b: int| 0 <= b < a ==> (#[trigger] found@[b])@ == axis_at(
                buf@,
                at as int,
                per_axis as int,
                b,
            ),
        decreases axes - a,
    {
        assert(a * per_axis + per_axis <= axes * per_axis) by (nonlinear_arith)
            requires
                a < axes,
                per_axis >= 0,
        ;
        let axis = read_axis(buf, at + 16 + 8 * ((a * per_axis) as usize), per_axis as usize);
        proof {
            assert(axis@ =~= axis_at(buf@, at as int, per_axis as int, a as int)) by {
                assert forall|i: int| 0 <= i < per_axis implies axis@[i] == coefficient_at(
                    buf@,
                    at as int,
                    per_axis as int,
                    a as int,
                    i,
                ) by {
                    assert(at + 16 + 8 * (a * per_axis) + 8 * i == at + 16 + 8 * (a * per_axis
                        + i)) by (nonlinear_arith);
                }
            }
        }
        found.push(axis);
        a += 1;
    }
    let record = ChebyshevRecord { center, radius, axes: found };
    assert(record@.axes =~= record_at(
        buf@,
        at as int,
        axes as int,
        per_axis as int,
    ).axes);
    Ok(record)
}

/// Finds and reads the record for `time`. `quotient` is the whole number
/// of record lengths between the segment's first instant and `time`, as
/// the bits of a double; it is kept within the segment's records.
///
/// Fails with `UnsupportedDataType` for a segment of another encoding,
/// with `OutOfRange` where `time` lies before the segment's first or after
/// its last second, and with `Truncated` where the segment has no records
/// or the buffer does not hold what the segment promises.
pub fn record_for(buf: &[u8], descriptor: &SegmentDescriptor, time: u64, quotient: u64) -> (r:
    Result<ChebyshevRecord, SpkError>)
    ensures
        match r {
            Ok(record) => parse_query(buf@, *descriptor, time, quotient) == Ok::<
                RecordModel,
                SpkError,
            >(record@),
            Err(e) => parse_query(buf@, *descriptor, time, quotient) == Err::<
                RecordModel,
                SpkError,
            >(e),
        },
{
    axis_count(descriptor.data_type)?;
    if !double_within(descriptor.begin_second, descriptor.end_second, time) {
        return Err(SpkError::OutOfRange);
    }
    let metadata = read_metadata(buf, descriptor)?;
    let k = record_index(quotient, metadata.n)?;
    read_record(buf, descriptor, metadata.rsize, k)
}

/// In a segment that is as long as its metadata says, each of the `n`
/// records lies inside the data, so that a record of two words or more can
/// be read wherever the buffer holds the segment.
pub proof fn consistent_segment_holds_its_records(
    buf: Seq<u8>,
    descriptor: SegmentDescriptor,
    metadata: ElementRecordMetadata,
    k: u64,
)
    requires
        supported(descriptor.data_type),
        segment_in_buffer(buf, descriptor),
        consistent(descriptor, metadata),
        metadata.rsize >= 2,
        k < metadata.n,
    ensures
        record_fits(descriptor, metadata.rsize as int, k as int),
        parse_record(buf, descriptor, metadata.rsize, k) is Ok,
{
    assert((k + 1) * metadata.rsize <= metadata.n * metadata.rsize) by (nonlinear_arith)
        requires
            k < metadata.n,
            metadata.rsize >= 0,
    ;
}

/// A query within the time of a segment that is as long as its metadata
/// says finds a record, whatever the quotient.
pub proof fn query_in_range_finds_a_record(
    buf: Seq<u8>,
    descriptor: SegmentDescriptor,
    time: u64,
    quotient: u64,
)
    requires
        supported(descriptor.data_type),
        segment_in_buffer(buf, descriptor),
        consistent(descriptor, metadata_of(buf, descriptor)),
        metadata_of(buf, descriptor).rsize >= 2,
        metadata_of(buf, descriptor).n >= 1,
        within(descriptor.begin_second, descriptor.end_second, time),
    ensures
        parse_query(buf, descriptor, time, quotient) is Ok,
{
    let metadata = metadata_of(buf, descriptor);
    consistent_segment_holds_its_records(
        buf,
        descriptor,
        metadata,
        index_of(quotient, metadata.n) as u64,
    );
}

/// Asking twice gives the same: what a query finds depends on nothing
/// but the buffer, the descriptor, the time and the quotient.
pub proof fn same_query_same_record(
    buf: Seq<u8>,
    descriptor: SegmentDescriptor,
    time: u64,
    quotient: u64,
    first: Result<RecordModel, SpkError>,
    second: Result<RecordModel, SpkError>,
)
    requires
        first == parse_query(buf, descriptor, time, quotient),
        second == parse_query(buf, descriptor, time, quotient),
    ensures
        first == second,
{
}

/// A query at a segment's last second is in range, and a quotient that
/// reaches or passes the number of records, as the one of that instant
/// does, selects the last record.
pub proof fn last_second_selects_last_record(descriptor: SegmentDescriptor, quotient: u64, n: u64)
    requires
        at_most(descriptor.begin_second, descriptor.end_second),
        n >= 1,
        count_of(quotient) >= n - 1,
    ensures
        within(descriptor.begin_second, descriptor.end_second, descriptor.end_second),
        index_of(quotient, n) == n - 1,
{
}

} // verus!
