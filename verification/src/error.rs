//! Errors reported by the decoders.

use vstd::prelude::*;

verus! {

/// The ways in which decoding a record, a section scan or a table can fail.
#[derive(Debug, Clone, Copy, PartialEq, Eq, Structural)]
pub enum ReadError {
    /// A field that must hold an integer does not.
    BadInt,
    /// A field that must hold a real number does not.
    BadFloat,
    /// A section was not followed by a SEND record (MT=0, NS=99999).
    MissingSectionTerminator,
    /// A record has fewer columns than the decoder needs.
    RecordTooShort,
    /// The number of values found disagrees with the number a header declares.
    InvalidElementCount,
    /// An interpolation code is none of the known schemes.
    InvalidInterpolation,
    /// The source ended before the section that was looked for.
    Eof,
}

} // verus!
