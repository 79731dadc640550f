//! Logical type tags and the mapping from 4-bit wire type codes.

use vstd::prelude::*;
use crate::error::{DecodeError, ProtocolViolation};

verus! {

/// The logical type of a field or list element.
///
/// `Set`, `Map` and the message framing construct are recognized so that a
/// buffer naming them maps to a tag rather than to a protocol error, but no
/// read path for them is implemented: asking the decoder to read one is an
/// unsupported-capability error.
#[derive(Clone, Copy, Debug, PartialEq, Eq, Structural)]
pub enum TypeTag {
    Stop,
    Bool,
    I08,
    I16,
    I32,
    I64,
    Double,
    Binary,
    List,
    WireSet,
    WireMap,
    Struct,
}

/// The tag a generic wire type code stands for, or `None` for a code outside
/// the defined range.
///
/// The two codes for an inline boolean value are not generic type codes: in a
/// field header they are handled before this mapping, and in a collection
/// header the collection variant below recognizes the first of them.
pub open spec fn spec_wire_type(b: u8) -> Option<TypeTag> {
    if b == 0x00 {
        Some(TypeTag::Stop)
    } else if b == 0x03 {
        Some(TypeTag::I08)
    } else if b == 0x04 {
        Some(TypeTag::I16)
    } else if b == 0x05 {
        Some(TypeTag::I32)
    } else if b == 0x06 {
        Some(TypeTag::I64)
    } else if b == 0x07 {
        Some(TypeTag::Double)
    } else if b == 0x08 {
        Some(TypeTag::Binary)
    } else if b == 0x09 {
        Some(TypeTag::List)
    } else if b == 0x0a {
        Some(TypeTag::WireSet)
    } else if b == 0x0b {
        Some(TypeTag::WireMap)
    } else if b == 0x0c {
        Some(TypeTag::Struct)
    } else {
        None
    }
}

/// The tag an element type code of a collection header stands for.
///
/// Collections encode a boolean element type with the code that a field
/// header uses for an inline `true`; every other code means the same as in
/// the generic mapping.
pub open spec fn spec_collection_wire_type(b: u8) -> Option<TypeTag> {
    if b == 0x01 {
        Some(TypeTag::Bool)
    } else {
        spec_wire_type(b)
    }
}

/// Translates a generic wire type code, rejecting codes outside the defined
/// range with a protocol error.
pub fn u8_to_type(b: u8) -> (r: Result<TypeTag, DecodeError>)
    ensures
        r == (match spec_wire_type(b) {
            Some(t) => Ok::<TypeTag, DecodeError>(t),
            None => Err(DecodeError::Protocol(ProtocolViolation::InvalidTypeCode(b))),
        }),
{
    match b {
        0x00 => Ok(TypeTag::Stop),
        0x03 => Ok(TypeTag::I08),
        0x04 => Ok(TypeTag::I16),
        0x05 => Ok(TypeTag::I32),
        0x06 => Ok(TypeTag::I64),
        0x07 => Ok(TypeTag::Double),
        0x08 => Ok(TypeTag::Binary),
        0x09 => Ok(TypeTag::List),
        0x0a => Ok(TypeTag::WireSet),
        0x0b => Ok(TypeTag::WireMap),
        0x0c => Ok(TypeTag::Struct),
        _ => Err(DecodeError::Protocol(ProtocolViolation::InvalidTypeCode(b))),
    }
}

/// Translates an element type code of a collection header, rejecting codes
/// outside the defined range with a protocol error.
pub fn collection_u8_to_type(b: u8) -> (r: Result<TypeTag, DecodeError>)
    ensures
        r == (match spec_collection_wire_type(b) {
            Some(t) => Ok::<TypeTag, DecodeError>(t),
            None => Err(DecodeError::Protocol(ProtocolViolation::InvalidTypeCode(b))),
        }),
{
    match b {
        0x01 => Ok(TypeTag::Bool),
        _ => u8_to_type(b),
    }
}

} // verus!
