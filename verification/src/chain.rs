//! The directory: a chain of 1024-byte blocks, each with up to 25 segment
//! descriptors, and behind each a block with the segments' names.

use vstd::prelude::*;
use vstd::set_lib::set_int_range;
use crate::cursor::Cursor;
use crate::text::trim;
use crate::double::{count_of, double_to_count};
use crate::error::SpkError;
use crate::header::text_at;
use crate::wire::{u32_at, u64_at};

verus! {

/// The number of descriptors that fit in a directory block behind its
/// three chain words.
pub const SUMMARIES_PER_BLOCK: u64 = 25;

/// The length of a segment descriptor, and of a segment name, in bytes.
pub const SUMMARY_SIZE: usize = 40;

/// The three words that open a directory block. The kernel stores them as
/// doubles; here they are the counts that the doubles stand for.
#[derive(Clone, Copy, Debug, PartialEq, Eq, Structural)]
pub struct DirectoryBlockHeader {
    /// The number of the next directory block, or 0 at the end of the chain.
    pub next_block: u64,
    /// The number of the previous directory block, or 0 at the start.
    pub prev_block: u64,
    /// How many descriptors the block holds.
    pub n_summaries: u64,
}

/// Where a segment's data lies and what it describes. The two times are
/// the bits of doubles, in seconds past the epoch.
#[derive(Clone, Copy, Debug, PartialEq, Eq, Structural)]
pub struct SegmentDescriptor {
    /// The first second that the segment covers.
    pub begin_second: u64,
    /// The last second that the segment covers.
    pub end_second: u64,
    /// The body whose state the segment gives.
    pub target_id: u32,
    /// The body that the state is relative to.
    pub center_id: u32,
    /// The reference frame of the state.
    pub frame_id: u32,
    /// The encoding of the segment's records.
    pub data_type: u32,
    /// The word address at which the segment's data starts.
    pub start_index: u32,
    /// The word address at which the segment's data ends.
    pub end_index: u32,
}

/// The one reference frame that segments are read in.
pub const FRAME_J2000: u32 = 1;

impl SegmentDescriptor {
    /// Whether the segment's data starts before it ends.
    pub open spec fn well_formed(self) -> bool {
        self.start_index < self.end_index
    }

    /// Whether the state is given in the one frame that is supported.
    pub open spec fn in_supported_frame(self) -> bool {
        self.frame_id == 1
    }

    /// Tells whether the segment's data starts before it ends.
    pub fn is_well_formed(&self) -> (r: bool)
        ensures
            r == self.well_formed(),
    {
        self.start_index < self.end_index
    }

    /// Tells whether the state is given in the one frame that is supported.
    pub fn is_in_supported_frame(&self) -> (r: bool)
        ensures
            r == self.in_supported_frame(),
    {
        self.frame_id == FRAME_J2000
    }
}

/// A segment of the kernel: its descriptor and its trimmed name.
#[derive(Clone, Debug, PartialEq, Eq)]
pub struct Segment {
    pub descriptor: SegmentDescriptor,
    pub name: Vec<u8>,
}

/// A segment as plain values.
pub struct SegmentModel {
    pub descriptor: SegmentDescriptor,
    pub name: Seq<u8>,
}

impl View for Segment {
    type V = SegmentModel;

    open spec fn view(&self) -> SegmentModel {
        SegmentModel { descriptor: self.descriptor, name: self.name@ }
    }
}

/// The segments of a list as plain values.
pub open spec fn models(segments: Seq<Segment>) -> Seq<SegmentModel> {
    Seq::new(segments.len(), |k: int| segments[k]@)
}

/// The offset of the first byte of a block, counted from 1.
pub open spec fn block_start(block: int) -> int {
    (block - 1) * 1024
}

/// The number of whole blocks in a buffer.
pub open spec fn block_count(buf: Seq<u8>) -> int {
    buf.len() as int / 1024
}

/// The chain words of the directory block `block`.
pub open spec fn directory_header_at(buf: Seq<u8>, block: int) -> DirectoryBlockHeader {
    DirectoryBlockHeader {
        next_block: count_of(u64_at(buf, block_start(block))),
        prev_block: count_of(u64_at(buf, block_start(block) + 8)),
        n_summaries: count_of(u64_at(buf, block_start(block) + 16)),
    }
}

/// The descriptor whose 40 bytes start at `at`.
pub open spec fn descriptor_at(buf: Seq<u8>, at: int) -> SegmentDescriptor {
    SegmentDescriptor {
        begin_second: u64_at(buf, at),
        end_second: u64_at(buf, at + 8),
        target_id: u32_at(buf, at + 16),
        center_id: u32_at(buf, at + 20),
        frame_id: u32_at(buf, at + 24),
        data_type: u32_at(buf, at + 28),
        start_index: u32_at(buf, at + 32),
        end_index: u32_at(buf, at + 36),
    }
}

/// The segment at place `k` of the directory block `block`: its descriptor
/// from that block, its name from the same place of the block behind it.
pub open spec fn segment_at(buf: Seq<u8>, block: int, k: int) -> SegmentModel {
    SegmentModel {
        descriptor: descriptor_at(buf, block_start(block) + 24 + 40 * k),
        name: text_at(buf, block_start(block + 1) + 40 * k, 40),
    }
}

/// The first `n` segments of the directory block `block`, in their order.
pub open spec fn block_segments(buf: Seq<u8>, block: int, n: int) -> Seq<SegmentModel> {
    Seq::new(n as nat, |k: int| segment_at(buf, block, k))
}

/// `done`, followed by what `rest` gives if it gives anything.
pub open spec fn followed_by(
    done: Seq<SegmentModel>,
    rest: Result<Seq<SegmentModel>, SpkError>,
) -> Result<Seq<SegmentModel>, SpkError> {
    match rest {
        Ok(more) => Ok(done + more),
        Err(e) => Err(e),
    }
}

/// What walking the chain from `block` gives, where `unvisited` holds the
/// blocks that the walk has not been in: the segments of each block in
/// turn, until a block names 0 as the next.
///
/// The walk fails with `Truncated` at a block that the buffer does not
/// hold whole, at one that claims more descriptors than fit, and where the
/// name block is missing; with `UnboundedChain` at a block that it has
/// been in before.
pub open spec fn walk(buf: Seq<u8>, block: int, unvisited: Set<int>) -> Result<
    Seq<SegmentModel>,
    SpkError,
>
    decreases unvisited.len(),
    when unvisited.finite()
{
    let header = directory_header_at(buf, block);
    if block == 0 {
        Ok(Seq::empty())
    } else if block < 0 || block > block_count(buf) {
        Err(SpkError::Truncated)
    } else if !unvisited.contains(block) {
        Err(SpkError::UnboundedChain)
    } else if header.n_summaries > 25 {
        Err(SpkError::Truncated)
    } else if header.n_summaries > 0 && block + 1 > block_count(buf) {
        Err(SpkError::Truncated)
    } else {
        followed_by(
            block_segments(buf, block, header.n_summaries as int),
            walk(buf, header.next_block as int, unvisited.remove(block)),
        )
    }
}

/// The blocks that a buffer holds whole.
pub open spec fn all_blocks(buf: Seq<u8>) -> Set<int> {
    set_int_range(1, block_count(buf) + 1)
}

/// The byte range of a block, counted from 1: where it starts and where
/// the next one starts.
pub fn record_positions(block: usize) -> (range: (usize, usize))
    requires
        1 <= block,
        block * 1024 <= usize::MAX,
    ensures
        range.0 == block_start(block as int),
        range.1 == block_start(block as int) + 1024,
{
    let block_size: usize = 1024;
    let start_byte = (block - 1) * block_size;
    (start_byte, start_byte + block_size)
}

/// The byte range of block `block` of `buf`, if the buffer holds it whole.
pub fn block_range(buf: &[u8], block: u64) -> (range: Option<(usize, usize)>)
    ensures
        range.is_some() <==> 1 <= block <= block_count(buf@),
        range matches Some((start, end)) ==> start == block_start(block as int) && end == start
            + 1024 && end <= buf@.len(),
{
    let count = buf.len() / 1024;
    if block == 0 || block > count as u64 {
        None
    } else {
        Some(record_positions(block as usize))
    }
}

/// Decodes the three chain words of the directory block `block`. Fails
/// with `Truncated` where the buffer does not hold the block whole.
pub fn decode_directory_header(buf: &[u8], block: u64) -> (r: Result<
    DirectoryBlockHeader,
    SpkError,
>)
    ensures
        match r {
            Ok(header) => 1 <= block <= block_count(buf@) && header == directory_header_at(
                buf@,
                block as int,
            ),
            Err(e) => e == SpkError::Truncated && !(1 <= block <= block_count(buf@)),
        },
{
    match block_range(buf, block) {
        None => Err(SpkError::Truncated),
        Some((start, _)) => {
            let mut cursor = Cursor::at(buf, start)?;
            let next = cursor.take_double()?;
            let prev = cursor.take_double()?;
            let n = cursor.take_double()?;
            Ok(
                DirectoryBlockHeader {
                    next_block: double_to_count(next),
                    prev_block: double_to_count(prev),
                    n_summaries: double_to_count(n),
                },
            )
        },
    }
}

/// Decodes the descriptor whose 40 bytes start at `at`. Fails with
/// `Truncated` where the buffer ends before the descriptor does.
pub fn decode_descriptor(buf: &[u8], at: usize) -> (r: Result<SegmentDescriptor, SpkError>)
    ensures
        match r {
            Ok(descriptor) => at + 40 <= buf@.len() && descriptor == descriptor_at(
                buf@,
                at as int,
            ),
            Err(e) => e == SpkError::Truncated && at + 40 > buf@.len(),
        },
{
    if at > buf.len() || buf.len() - at < SUMMARY_SIZE {
        return Err(SpkError::Truncated);
    }
    let mut cursor = Cursor::at(buf, at)?;
    let begin_second = cursor.take_double()?;
    let end_second = cursor.take_double()?;
    let target_id = cursor.take_u32()?;
    let center_id = cursor.take_u32()?;
    let frame_id = cursor.take_u32()?;
    let data_type = cursor.take_u32()?;
    let start_index = cursor.take_u32()?;
    let end_index = cursor.take_u32()?;
    Ok(
        SegmentDescriptor {
            begin_second,
            end_second,
            target_id,
            center_id,
            frame_id,
            data_type,
            start_index,
            end_index,
        },
    )
}

/// Decodes the segment at place `k` of the directory block `block`: the
/// descriptor from that block and the name from the block behind it.
/// Fails with `Truncated` where the buffer does not hold both blocks
/// whole, or the block has no place `k`.
pub fn decode_segment(buf: &[u8], block: u64, k: u64) -> (r: Result<Segment, SpkError>)
    ensures
        match r {
            Ok(segment) => 1 <= block < block_count(buf@) && k < 25 && segment@ == segment_at(
                buf@,
                block as int,
                k as int,
            ),
            Err(e) => e == SpkError::Truncated && !(1 <= block < block_count(buf@) && k < 25),
        },
{
    let count = buf.len() / 1024;
    if block == 0 || block >= count as u64 || k >= SUMMARIES_PER_BLOCK {
        return Err(SpkError::Truncated);
    }
    let start = (block as usize - 1) * 1024;
    let descriptor = decode_descriptor(buf, start + 24 + 40 * (k as usize))?;
    let label = start + 1024 + 40 * (k as usize);
    let name = vstd::slice::slice_to_vec(trim(&buf[label..label + 40]));
    Ok(Segment { descriptor, name })
}

/// Walks the directory chain from `first_block` and gives the segments of
/// every block in turn, each block's in the order it holds them.
///
/// Fails with `UnboundedChain` when the chain leads back into a block that
/// the walk has been in, and with `Truncated` when the buffer does not
/// hold what a block promises.
pub fn walk_directory(buf: &[u8], first_block: u32) -> (r: Result<Vec<Segment>, SpkError>)
    ensures
        match r {
            Ok(segments) => walk(buf@, first_block as int, all_blocks(buf@)) == Ok::<
                Seq<SegmentModel>,
                SpkError,
            >(models(segments@)),
            Err(e) => walk(buf@, first_block as int, all_blocks(buf@)) == Err::<
                Seq<SegmentModel>,
                SpkError,
            >(e),
        },
{
    let count = buf.len() / 1024;
    let mut seen: Vec<bool> = Vec::new();
    while seen.len() < count
        invariant
            seen@.len() <= count,
            forall|i: int| 0 <= i < seen@.len() ==> !seen@[i],
        decreases count - seen@.len(),
    {
        seen.push(false);
    }
    let mut segments: Vec<Segment> = Vec::new();
    let mut block: u64 = first_block as u64;
    let ghost mut unvisited: Set<int> = all_blocks(buf@);
    proof {
        vstd::set_lib::lemma_int_range(1, block_count(buf@) + 1);
        assert(followed_by(models(segments@), walk(buf@, block as int, unvisited)) == walk(
            buf@,
            block as int,
            unvisited,
        )) by {
            match walk(buf@, block as int, unvisited) {
                Ok(more) => {
                    assert(models(segments@) + more =~= more);
                },
                Err(_) => {},
            }
        }
    }
    loop
        invariant
            count == block_count(buf@),
            seen@.len() == count,
            unvisited.finite(),
            forall|b: int| unvisited.contains(b) <==> 1 <= b <= count && !seen@[b - 1],
            walk(buf@, first_block as int, all_blocks(buf@)) == followed_by(
                models(segments@),
                walk(buf@, block as int, unvisited),
            ),
        decreases unvisited.len(),
    {
        if block == 0 {
            assert(models(segments@) + Seq::<SegmentModel>::empty() =~= models(segments@));
            return Ok(segments);
        }
        let header = match decode_directory_header(buf, block) {
            Ok(header) => header,
            Err(e) => {
                return Err(e);
            },
        };
        let place = (block - 1) as usize;
        if seen[place] {
            return Err(SpkError::UnboundedChain);
        }
        if header.n_summaries > SUMMARIES_PER_BLOCK {
            return Err(SpkError::Truncated);
        }
        if header.n_summaries > 0 && block >= count as u64 {
            return Err(SpkError::Truncated);
        }
        let ghost before = models(segments@);
        let mut k: u64 = 0;
        while k < header.n_summaries
            invariant
                k <= header.n_summaries <= 25,
                header.n_summaries > 0 ==> 1 <= block < block_count(buf@),
                models(segments@) == before + block_segments(buf@, block as int, k as int),
            decreases header.n_summaries - k,
        {
            let segment = decode_segment(buf, block, k)?;
            let ghost so_far = models(segments@);
            segments.push(segment);
            proof {
                let here = block_segments(buf@, block as int, k as int);
                assert(so_far.len() == before.len() + here.len());
                assert(models(segments@) =~= so_far.push(segment@));
                assert(so_far.push(segment@) =~= before + block_segments(
                    buf@,
                    block as int,
                    k + 1,
                ));
            }
            k += 1;
        }
        proof {
            let here = block_segments(buf@, block as int, header.n_summaries as int);
            let onward = walk(buf@, header.next_block as int, unvisited.remove(block as int));
            match onward {
                Ok(more) => {
                    assert(before + (here + more) =~= (before + here) + more);
                },
                Err(_) => {},
            }
            unvisited = unvisited.remove(block as int);
        }
        seen.set(place, true);
        block = header.next_block;
    }
}

/// The block that the chain from `first` is in after `steps` steps, each
/// step taken by a block's pointer to the next.
pub open spec fn chain_block(buf: Seq<u8>, first: int, steps: nat) -> int
    decreases steps,
{
    if steps == 0 {
        first
    } else {
        directory_header_at(buf, chain_block(buf, first, (steps - 1) as nat)).next_block as int
    }
}

/// Whether the buffer holds all that the directory block `block` promises:
/// the block itself, no more descriptors than fit, and the name block
/// where there is a descriptor.
pub open spec fn sound_block(buf: Seq<u8>, block: int) -> bool {
    let n = directory_header_at(buf, block).n_summaries;
    &&& 1 <= block <= block_count(buf)
    &&& n <= 25
    &&& n > 0 ==> block + 1 <= block_count(buf)
}

/// The segments of the first `steps` blocks of the chain from `first`,
/// block by block and each block's in its own order.
pub open spec fn chain_segments(buf: Seq<u8>, first: int, steps: nat) -> Seq<SegmentModel>
    decreases steps,
{
    if steps == 0 {
        Seq::empty()
    } else {
        let block = chain_block(buf, first, (steps - 1) as nat);
        chain_segments(buf, first, (steps - 1) as nat) + block_segments(
            buf,
            block,
            directory_header_at(buf, block).n_summaries as int,
        )
    }
}

/// The sum of the descriptor counts of the first `steps` blocks of the
/// chain from `first`.
pub open spec fn chain_total(buf: Seq<u8>, first: int, steps: nat) -> nat
    decreases steps,
{
    if steps == 0 {
        0
    } else {
        chain_total(buf, first, (steps - 1) as nat) + directory_header_at(
            buf,
            chain_block(buf, first, (steps - 1) as nat),
        ).n_summaries as nat
    }
}

/// Whether the first `steps` blocks of the chain from `first` are sound
/// and no two of them the same.
pub open spec fn simple_chain(buf: Seq<u8>, first: int, steps: nat) -> bool {
    &&& forall|s: nat| s < steps ==> sound_block(buf, #[trigger] chain_block(buf, first, s))
    &&& forall|s: nat, t: nat|
        s < t < steps ==> #[trigger] chain_block(buf, first, s) != #[trigger] chain_block(
            buf,
            first,
            t,
        )
}

/// The blocks that the chain from `first` has not been in after `steps`
/// steps.
pub open spec fn unvisited_after(buf: Seq<u8>, first: int, steps: nat) -> Set<int>
    decreases steps,
{
    if steps == 0 {
        all_blocks(buf)
    } else {
        unvisited_after(buf, first, (steps - 1) as nat).remove(
            chain_block(buf, first, (steps - 1) as nat),
        )
    }
}

/// A block is unvisited after some steps if the buffer holds it and none
/// of the steps was in it.
proof fn unvisited_after_holds(buf: Seq<u8>, first: int, steps: nat)
    ensures
        unvisited_after(buf, first, steps).finite(),
        forall|b: int| #[trigger]
            unvisited_after(buf, first, steps).contains(b) <==> 1 <= b <= block_count(buf)
                && forall|s: nat| s < steps ==> chain_block(buf, first, s) != b,
    decreases steps,
{
    if steps == 0 {
        vstd::set_lib::lemma_int_range(1, block_count(buf) + 1);
    } else {
        let before = (steps - 1) as nat;
        unvisited_after_holds(buf, first, before);
        assert forall|b: int| #[trigger]
            unvisited_after(buf, first, steps).contains(b) <==> 1 <= b <= block_count(buf)
                && forall|s: nat| s < steps ==> chain_block(buf, first, s) != b by {
            if unvisited_after(buf, first, steps).contains(b) {
                assert(unvisited_after(buf, first, before).contains(b));
                assert forall|s: nat| s < steps implies chain_block(buf, first, s) != b by {
                    if s < before {
                    }
                }
            }
            if 1 <= b <= block_count(buf) && forall|s: nat|
                s < steps ==> chain_block(buf, first, s) != b {
                assert(chain_block(buf, first, before) != b);
                assert(unvisited_after(buf, first, before).contains(b));
            }
        }
    }
}

/// Along a chain of sound blocks that are all different, the walk is what
/// it has gathered so far, followed by the walk from where it stands.
proof fn walk_along(buf: Seq<u8>, first: int, steps: nat)
    requires
        simple_chain(buf, first, steps),
    ensures
        walk(buf, first, all_blocks(buf)) == followed_by(
            chain_segments(buf, first, steps),
            walk(buf, chain_block(buf, first, steps), unvisited_after(buf, first, steps)),
        ),
    decreases steps,
{
    if steps == 0 {
        match walk(buf, first, all_blocks(buf)) {
            Ok(more) => {
                assert(Seq::<SegmentModel>::empty() + more =~= more);
            },
            Err(_) => {},
        }
    } else {
        let before = (steps - 1) as nat;
        assert(simple_chain(buf, first, before));
        walk_along(buf, first, before);
        unvisited_after_holds(buf, first, before);
        let block = chain_block(buf, first, before);
        let unvisited = unvisited_after(buf, first, before);
        assert(sound_block(buf, block));
        assert(unvisited.contains(block));
        let here = block_segments(buf, block, directory_header_at(buf, block).n_summaries as int);
        let onward = walk(buf, chain_block(buf, first, steps), unvisited.remove(block));
        assert(walk(buf, block, unvisited) == followed_by(here, onward));
        match onward {
            Ok(more) => {
                assert(chain_segments(buf, first, before) + (here + more) =~= chain_segments(
                    buf,
                    first,
                    steps,
                ) + more);
            },
            Err(_) => {},
        }
    }
}

/// A chain gathers as many segments as its blocks count descriptors.
pub proof fn chain_segments_count(buf: Seq<u8>, first: int, steps: nat)
    ensures
        chain_segments(buf, first, steps).len() == chain_total(buf, first, steps),
    decreases steps,
{
    if steps > 0 {
        chain_segments_count(buf, first, (steps - 1) as nat);
    }
}

/// A chain of `steps` sound blocks, all different, that ends with a
/// pointer to block 0: the walk gives the segments of every block in chain
/// order, each block's in its own order, and as many as the blocks'
/// descriptor counts add up to.
pub proof fn walk_of_simple_chain(buf: Seq<u8>, first: int, steps: nat)
    requires
        simple_chain(buf, first, steps),
        chain_block(buf, first, steps) == 0,
    ensures
        walk(buf, first, all_blocks(buf)) == Ok::<Seq<SegmentModel>, SpkError>(
            chain_segments(buf, first, steps),
        ),
        chain_segments(buf, first, steps).len() == chain_total(buf, first, steps),
{
    walk_along(buf, first, steps);
    unvisited_after_holds(buf, first, steps);
    chain_segments_count(buf, first, steps);
    assert(chain_segments(buf, first, steps) + Seq::<SegmentModel>::empty()
        =~= chain_segments(buf, first, steps));
}

/// The walk from a point of a chain that comes back to a block it has
/// left fails with `UnboundedChain`.
proof fn walk_into_cycle(buf: Seq<u8>, first: int, from: nat, earlier: nat, later: nat)
    requires
        simple_chain(buf, first, from),
        from <= later,
        earlier < later,
        chain_block(buf, first, earlier) == chain_block(buf, first, later),
        forall|s: nat| s <= later ==> sound_block(buf, #[trigger] chain_block(buf, first, s)),
    ensures
        walk(buf, first, all_blocks(buf)) == Err::<Seq<SegmentModel>, SpkError>(
            SpkError::UnboundedChain,
        ),
    decreases later - from,
{
    walk_along(buf, first, from);
    unvisited_after_holds(buf, first, from);
    let block = chain_block(buf, first, from);
    let unvisited = unvisited_after(buf, first, from);
    assert(sound_block(buf, block));
    if exists|s: nat| s < from && chain_block(buf, first, s) == block {
        assert(!unvisited.contains(block));
        assert(walk(buf, block, unvisited) == Err::<Seq<SegmentModel>, SpkError>(
            SpkError::UnboundedChain,
        ));
    } else {
        assert(from < later) by {
            if from == later {
                assert(earlier < from && chain_block(buf, first, earlier) == block);
            }
        }
        assert(simple_chain(buf, first, from + 1)) by {
            assert forall|s: nat, t: nat| s < t < from + 1 implies #[trigger] chain_block(
                buf,
                first,
                s,
            ) != #[trigger] chain_block(buf, first, t) by {
                if t == from {
                    assert(!(s < from && chain_block(buf, first, s) == block));
                }
            }
        }
        walk_into_cycle(buf, first, from + 1, earlier, later);
    }
}

/// A chain that comes back to a block it has left: where every block up
/// to the second visit is sound, the walk fails with `UnboundedChain`.
pub proof fn walk_of_cycle(buf: Seq<u8>, first: int, earlier: nat, later: nat)
    requires
        earlier < later,
        chain_block(buf, first, earlier) == chain_block(buf, first, later),
        forall|s: nat| s <= later ==> sound_block(buf, #[trigger] chain_block(buf, first, s)),
    ensures
        walk(buf, first, all_blocks(buf)) == Err::<Seq<SegmentModel>, SpkError>(
            SpkError::UnboundedChain,
        ),
{
    walk_into_cycle(buf, first, 0, earlier, later);
}

} // verus!
