//! A decoder for the compact binary structure-serialization wire format used
//! by columnar-storage footer metadata.
//!
//! The decoder is one read cursor over an immutable borrowed byte buffer. It
//! supports the wire constructs that such metadata actually uses: structs with
//! delta-encoded field identifiers, lists, and required scalars. Requests for
//! message framing, sets or maps fail with an explicit unsupported-capability
//! error. Every read is bounds-checked: a buffer that ends too early or
//! violates the encoding is rejected with a typed error, never misread.

pub mod error;
pub mod types;
pub mod varint;
pub mod decoder;
