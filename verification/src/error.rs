//! The ways in which a wire value can fail to decode or encode.

use vstd::prelude::*;

verus! {

/// Why a value could not be decoded or encoded.
#[derive(Copy, Clone, Eq, PartialEq, Debug, Structural)]
pub enum CodecError {
    /// The wire type is not the one that the value travels as.
    UnexpectedType,
    /// The buffer ends before a field does.
    TruncatedInput,
    /// The buffer does not have the one length that the value has.
    LengthMismatch,
    /// A length field holds a negative number, or a count does not fit its field.
    LengthOutOfRange,
    /// A key that must be present is null.
    MissingKey,
    /// A text that is not well-formed UTF-8.
    InvalidUtf8,
    /// A zone offset of a day or more.
    OffsetOutOfRange,
    /// A bound marker that is none of `(`, `)`, `[`, `]`.
    InvalidBound,
    /// The output buffer cannot take the encoded value.
    BufferFull,
}

} // verus!
