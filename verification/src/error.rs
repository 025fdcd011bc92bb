//! The failures that decoding a kernel can end in.

use vstd::prelude::*;

verus! {

/// Why a decoding step gave up.
#[derive(Clone, Copy, Debug, PartialEq, Eq, Structural)]
pub enum SpkError {
    /// Fewer bytes remain than the field, block or record needs.
    Truncated,
    /// The file record does not start with an accepted architecture tag.
    BadArchitectureTag,
    /// A marker phrase, or the byte that ends a field, is absent.
    MarkerNotFound,
    /// A token is not a number, also after `D` was read as `E`.
    UnparsableNumeric,
    /// The directory chain comes back to a block it has left.
    UnboundedChain,
    /// The segment is not of one of the two Chebyshev encodings.
    UnsupportedDataType,
    /// The query time lies outside the segment's validity interval.
    OutOfRange,
    /// The identifier of a line of the gravitational table names no body.
    UnrecognizedBodyIdentifier,
}

} // verus!
