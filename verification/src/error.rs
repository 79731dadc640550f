//! Error values returned when a decode cannot proceed.

use vstd::prelude::*;

verus! {

/// The way in which a buffer violated the wire encoding.
///
/// The carried byte, where present, is the offending byte as it stood in the
/// buffer, so a caller can report exactly what was rejected.
#[derive(Clone, Copy, Debug, PartialEq, Eq, Structural)]
pub enum ProtocolViolation {
    /// A type code outside the defined range stood where a type was expected.
    InvalidTypeCode(u8),
    /// A byte other than the two valid boolean encodings stood where a
    /// boolean value was expected.
    InvalidBoolByte(u8),
    /// A length-prefixed byte string was not valid UTF-8 where text was
    /// expected.
    InvalidUtf8,
    /// A decoded integer does not fit the width the read call asked for.
    ValueOutOfRange,
    /// A variable-length integer ran past the longest encoding of a 64-bit
    /// value without a terminating byte.
    VarintTooLong,
}

/// Why a decode pass stopped.
///
/// Every error aborts the decode in progress; the decoder performs no
/// internal recovery.
#[derive(Clone, Copy, Debug, PartialEq, Eq, Structural)]
pub enum DecodeError {
    /// The buffer violated the wire encoding.
    Protocol(ProtocolViolation),
    /// The buffer was exhausted before a required value was fully available.
    EndOfInput,
    /// The caller asked for a wire construct (message framing, set, map)
    /// outside this decoder's supported subset.
    Unsupported,
}

} // verus!
