//! Little-endian words, as the kernel stores them.

use vstd::prelude::*;

verus! {

/// The number that `bytes` spell, least significant byte first.
pub open spec fn le_value(bytes: Seq<u8>) -> nat
    decreases bytes.len(),
{
    if bytes.len() == 0 {
        0
    } else {
        bytes[0] as nat + 256 * le_value(bytes.skip(1))
    }
}

/// The `width` bytes that spell `value`, least significant byte first.
pub open spec fn le_bytes(value: nat, width: nat) -> Seq<u8>
    decreases width,
{
    if width == 0 {
        Seq::empty()
    } else {
        seq![(value % 256) as u8] + le_bytes(value / 256, (width - 1) as nat)
    }
}

/// The first number that `width` bytes cannot spell.
pub open spec fn le_limit(width: nat) -> nat
    decreases width,
{
    if width == 0 {
        1
    } else {
        256 * le_limit((width - 1) as nat)
    }
}

/// The field of `width` bytes that starts at `offset`.
pub open spec fn field(buf: Seq<u8>, offset: int, width: int) -> Seq<u8> {
    buf.subrange(offset, offset + width)
}

/// The 32-bit word stored at `offset`.
pub open spec fn u32_at(buf: Seq<u8>, offset: int) -> u32 {
    le_value(field(buf, offset, 4)) as u32
}

/// The 64-bit word stored at `offset`.
pub open spec fn u64_at(buf: Seq<u8>, offset: int) -> u64 {
    le_value(field(buf, offset, 8)) as u64
}

/// Bytes spell a number below the limit of their count.
pub proof fn le_value_is_below_limit(bytes: Seq<u8>)
    ensures
        le_value(bytes) < le_limit(bytes.len()),
    decreases bytes.len(),
{
    if bytes.len() > 0 {
        le_value_is_below_limit(bytes.skip(1));
    }
}

/// A word that the buffer holds whole is the number that its bytes spell:
/// four bytes never spell more than 32 bits hold, nor eight more than 64.
pub proof fn words_hold_what_is_spelled(buf: Seq<u8>, offset: int)
    requires
        0 <= offset,
    ensures
        offset + 4 <= buf.len() ==> u32_at(buf, offset) == le_value(field(buf, offset, 4)),
        offset + 8 <= buf.len() ==> u64_at(buf, offset) == le_value(field(buf, offset, 8)),
{
    le_limits();
    if offset + 4 <= buf.len() {
        le_value_is_below_limit(field(buf, offset, 4));
    }
    if offset + 8 <= buf.len() {
        le_value_is_below_limit(field(buf, offset, 8));
    }
}

/// Spelling a number and reading it back gives the number, as long as the
/// width can hold it.
pub proof fn le_value_of_le_bytes(value: nat, width: nat)
    requires
        value < le_limit(width),
    ensures
        le_bytes(value, width).len() == width,
        le_value(le_bytes(value, width)) == value,
    decreases width,
{
    if width > 0 {
        let rest = le_bytes(value / 256, (width - 1) as nat);
        le_value_of_le_bytes(value / 256, (width - 1) as nat);
        assert(le_bytes(value, width).skip(1) =~= rest);
    }
}

/// Four bytes stay below 2^32 and eight below 2^64.
pub proof fn le_limits()
    ensures
        le_limit(4) == 0x1_0000_0000,
        le_limit(8) == 0x1_0000_0000_0000_0000,
{
    reveal_with_fuel(le_limit, 9);
}

/// Calls `nom::le_u32`, which fails on fewer than four bytes and otherwise
/// sums the first four, each shifted left by eight times its index.
#[verifier::external_body]
pub(crate) fn nom_le_u32(input: &[u8]) -> (word: Option<u32>)
    ensures
        word.is_some() <==> input@.len() >= 4,
        word matches Some(w) ==> w == u32_at(input@, 0),
{
    match nom::le_u32(input) {
        Ok((_, w)) => Some(w),
        Err(_) => None,
    }
}

/// Calls `nom::le_u64`, which fails on fewer than eight bytes and otherwise
/// sums the first eight, each shifted left by eight times its index.
#[verifier::external_body]
pub(crate) fn nom_le_u64(input: &[u8]) -> (word: Option<u64>)
    ensures
        word.is_some() <==> input@.len() >= 8,
        word matches Some(w) ==> w == u64_at(input@, 0),
{
    match nom::le_u64(input) {
        Ok((_, w)) => Some(w),
        Err(_) => None,
    }
}

/// Reads the 32-bit word at `offset`, if four bytes are there.
pub fn read_u32(buf: &[u8], offset: usize) -> (word: Option<u32>)
    ensures
        word.is_some() <==> offset + 4 <= buf@.len(),
        word matches Some(w) ==> w == u32_at(buf@, offset as int),
{
    if offset > buf.len() {
        return None;
    }
    let tail = &buf[offset..buf.len()];
    let word = nom_le_u32(tail);
    proof {
        if word.is_some() {
            assert(field(tail@, 0, 4) =~= field(buf@, offset as int, 4));
        }
    }
    word
}

/// Reads the 64-bit word at `offset`, if eight bytes are there.
pub fn read_u64(buf: &[u8], offset: usize) -> (word: Option<u64>)
    ensures
        word.is_some() <==> offset + 8 <= buf@.len(),
        word matches Some(w) ==> w == u64_at(buf@, offset as int),
{
    if offset > buf.len() {
        return None;
    }
    let tail = &buf[offset..buf.len()];
    let word = nom_le_u64(tail);
    proof {
        if word.is_some() {
            assert(field(tail@, 0, 8) =~= field(buf@, offset as int, 8));
        }
    }
    word
}

} // verus!
