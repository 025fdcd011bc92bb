//! Decoder for JPL DAF/SPK binary ephemeris kernels.
//!
//! A kernel is a file of 1024-byte blocks: a file record, a comment area of
//! free text, a chain of directory blocks that list the segments, and the
//! segments' data, which are records of Chebyshev coefficients. This crate
//! reads a kernel that is already in memory, and never writes one.
//!
//! * [`wire`] reads little-endian words, and [`cursor`] walks over
//!   fixed-width fields.
//! * [`text`] and [`number`] handle text as bytes: trimming, phrase search,
//!   words, and numbers written in decimal.
//! * [`double`] reads the whole part and the order of doubles from their
//!   bits. Doubles are kept as their 64 bits throughout; arithmetic on them
//!   is left to the caller.
//! * [`header`] decodes the file record.
//! * [`catalog`], [`gravity`] and [`comment`] read the comment area: the
//!   kernel's identity, the time span, the bodies and their gravitational
//!   parameters.
//! * [`chain`] walks the directory and lists the segments.
//! * [`segment`] finds the record of a segment for a time and takes it
//!   apart.
//! * [`kernel`] puts these together for a whole file.
//!
//! Every function says in its contract what it returns, and on which inputs
//! it fails with which [`error::SpkError`]. The contracts are stated over
//! the bytes of the buffer as a sequence, and each decoded type has a view
//! as plain values.

pub mod catalog;
pub mod chain;
pub mod comment;
pub mod cursor;
pub mod double;
pub mod error;
pub mod gravity;
pub mod header;
pub mod kernel;
pub mod number;
pub mod segment;
pub mod text;
pub mod wire;
