//! A cursor over the bytes of a kernel: it extracts one fixed-width field
//! at its offset and moves behind it. The bytes themselves never change.

use vstd::prelude::*;
use crate::error::SpkError;
use crate::text::{trim, trimmed};
use crate::wire::{field, read_u32, read_u64, u32_at, u64_at};

verus! {

/// A place in a buffer.
pub struct Cursor<'a> {
    data: &'a [u8],
    offset: usize,
}

/// What taking `width` bytes does to a cursor: on success it has moved by
/// `width`, on failure it stands where it stood; the bytes are the same.
pub open spec fn advanced(before: Cursor, after: Cursor, width: int, moved: bool) -> bool {
    &&& after.source() == before.source()
    &&& moved <==> before.position() + width <= before.source().len()
    &&& after.position() == if moved {
        before.position() + width
    } else {
        before.position()
    }
}

impl<'a> Cursor<'a> {
    #[verifier::type_invariant]
    spec fn in_bounds(self) -> bool {
        self.offset <= self.data@.len()
    }

    /// The bytes that the cursor reads from.
    pub closed spec fn source(self) -> Seq<u8> {
        self.data@
    }

    /// The offset of the next field.
    pub closed spec fn position(self) -> int {
        self.offset as int
    }

    /// A cursor at the start of `data`.
    pub fn new(data: &'a [u8]) -> (cursor: Self)
        ensures
            cursor.source() == data@,
            cursor.position() == 0,
    {
        Cursor { data, offset: 0 }
    }

    /// A cursor at `offset`, which may be the end of `data` but not beyond.
    pub fn at(data: &'a [u8], offset: usize) -> (r: Result<Self, SpkError>)
        ensures
            match r {
                Ok(cursor) => offset <= data@.len() && cursor.source() == data@
                    && cursor.position() == offset,
                Err(e) => e == SpkError::Truncated && offset > data@.len(),
            },
    {
        if offset > data.len() {
            Err(SpkError::Truncated)
        } else {
            Ok(Cursor { data, offset })
        }
    }

    /// The offset of the next field.
    pub fn offset(&self) -> (offset: usize)
        ensures
            offset == self.position(),
            offset <= self.source().len(),
    {
        proof {
            use_type_invariant(self);
        }
        self.offset
    }

    /// The number of bytes from the cursor to the end.
    pub fn remaining(&self) -> (count: usize)
        ensures
            count == self.source().len() - self.position(),
    {
        proof {
            use_type_invariant(self);
        }
        self.data.len() - self.offset
    }

    /// Moves over `width` bytes. Fails with `Truncated`, and stays, when
    /// fewer remain.
    pub fn skip(&mut self, width: usize) -> (r: Result<(), SpkError>)
        ensures
            advanced(*old(self), *final(self), width as int, r is Ok),
            r matches Err(e) ==> e == SpkError::Truncated,
    {
        proof {
            use_type_invariant(&*self);
        }
        if width > self.data.len() - self.offset {
            return Err(SpkError::Truncated);
        }
        self.offset = self.offset + width;
        Ok(())
    }

    /// Takes the next `width` bytes as they are. Fails with `Truncated`,
    /// and stays, when fewer remain.
    pub fn take(&mut self, width: usize) -> (r: Result<&'a [u8], SpkError>)
        ensures
            advanced(*old(self), *final(self), width as int, r is Ok),
            match r {
                Ok(bytes) => bytes@ == field(old(self).source(), old(self).position(), width as int),
                Err(e) => e == SpkError::Truncated,
            },
    {
        proof {
            use_type_invariant(&*self);
        }
        if width > self.data.len() - self.offset {
            return Err(SpkError::Truncated);
        }
        let data: &'a [u8] = self.data;
        let bytes = &data[self.offset..self.offset + width];
        self.offset = self.offset + width;
        Ok(bytes)
    }

    /// Takes a text field of `width` bytes and strips the blank bytes at
    /// its ends. Fails with `Truncated`, and stays, when fewer remain.
    pub fn take_text(&mut self, width: usize) -> (r: Result<Vec<u8>, SpkError>)
        ensures
            advanced(*old(self), *final(self), width as int, r is Ok),
            match r {
                Ok(text) => text@ == trimmed(
                    field(old(self).source(), old(self).position(), width as int),
                ),
                Err(e) => e == SpkError::Truncated,
            },
    {
        match self.take(width) {
            Ok(bytes) => Ok(vstd::slice::slice_to_vec(trim(bytes))),
            Err(e) => Err(e),
        }
    }

    /// Takes a little-endian 32-bit word. Fails with `Truncated`, and
    /// stays, when fewer than four bytes remain.
    pub fn take_u32(&mut self) -> (r: Result<u32, SpkError>)
        ensures
            advanced(*old(self), *final(self), 4, r is Ok),
            match r {
                Ok(word) => word == u32_at(old(self).source(), old(self).position()),
                Err(e) => e == SpkError::Truncated,
            },
    {
        proof {
            use_type_invariant(&*self);
        }
        match read_u32(self.data, self.offset) {
            Some(word) => {
                assert(self.offset + 4 <= self.data.len());
                self.offset = self.offset + 4;
                Ok(word)
            },
            None => Err(SpkError::Truncated),
        }
    }

    /// Takes the 64 bits of a little-endian double. Fails with `Truncated`,
    /// and stays, when fewer than eight bytes remain.
    pub fn take_double(&mut self) -> (r: Result<u64, SpkError>)
        ensures
            advanced(*old(self), *final(self), 8, r is Ok),
            match r {
                Ok(bits) => bits == u64_at(old(self).source(), old(self).position()),
                Err(e) => e == SpkError::Truncated,
            },
    {
        proof {
            use_type_invariant(&*self);
        }
        match read_u64(self.data, self.offset) {
            Some(bits) => {
                assert(self.offset + 8 <= self.data.len());
                self.offset = self.offset + 8;
                Ok(bits)
            },
            None => Err(SpkError::Truncated),
        }
    }
}

} // verus!
