//! The read cursor over one immutable borrowed byte buffer.
//!
//! Every read operation is specified as a pure function of the decoder's
//! abstract state (`DecoderView`): each method's contract says exactly which
//! result and which successor state the unread bytes determine.

use vstd::prelude::*;
use vstd::slice::{slice_subrange, slice_to_vec};
use vstd::bytes::{spec_u64_from_le_bytes, u64_from_le_bytes};
use vstd::utf8::{decode_utf8, valid_utf8};
use crate::error::{DecodeError, ProtocolViolation};
use crate::types::{
    collection_u8_to_type, spec_collection_wire_type, spec_wire_type, u8_to_type, TypeTag,
};
use crate::varint::{
    lemma_unzigzag_range, spec_read_vlq, unzigzag, vlq_from_bytes, zig_zag_to_i64,
};

verus! {

/// What a field header announces: the end of the enclosing struct, or the
/// type and identifier of the field whose value follows.
#[derive(Clone, Copy, Debug, PartialEq, Eq, Structural)]
pub enum FieldHeader {
    Stop,
    Field { field_type: TypeTag, id: i16 },
}

/// What a list header announces: the element type and how many elements
/// follow.
#[derive(Clone, Copy, Debug, PartialEq, Eq, Structural)]
pub struct ListIdentifier {
    pub element_type: TypeTag,
    pub size: i32,
}

/// The abstract state of a decoder: the unread suffix of the buffer and the
/// field-identifier bookkeeping of the struct nesting in progress.
#[verifier::ext_equal]
pub struct DecoderView {
    /// The bytes not yet consumed. The cursor never rewinds: every read
    /// leaves a suffix of this sequence.
    pub bytes: Seq<u8>,
    /// The most recently decoded field identifier at the current nesting
    /// level; zero on entry to a struct, since field-id deltas are
    /// zero-based within each struct scope.
    pub last_field_id: i16,
    /// One entry per struct entered and not yet left: the caller's last-seen
    /// field identifier at the point the struct was entered.
    pub field_id_stack: Seq<i16>,
    /// A boolean field value cached from a field header, set when the
    /// header's type nibble encoded the value inline and consumed by the
    /// very next boolean read.
    pub pending_bool: Option<bool>,
}

/// The state after consuming the first `n` unread bytes, all other
/// bookkeeping unchanged.
pub open spec fn spec_consume(s: DecoderView, n: int) -> DecoderView {
    DecoderView { bytes: s.bytes.skip(n), ..s }
}

/// What reading one raw byte does: the first unread byte, or end-of-input on
/// an empty buffer.
pub open spec fn spec_read_byte(s: DecoderView) -> (Result<u8, DecodeError>, DecoderView) {
    if s.bytes.len() == 0 {
        (Err(DecodeError::EndOfInput), s)
    } else {
        (Ok(s.bytes[0]), spec_consume(s, 1))
    }
}

/// What reading one unsigned variable-length integer does.
pub open spec fn spec_read_vlq_step(s: DecoderView) -> (Result<u64, DecodeError>, DecoderView) {
    match spec_read_vlq(s.bytes) {
        Ok(p) => (Ok(p.0), spec_consume(s, p.1)),
        Err(e) => (Err(e), s),
    }
}

/// What reading a zigzag-encoded signed 64-bit integer does: the unsigned
/// integer is read first, then mapped back to its signed value.
pub open spec fn spec_read_zig_zag_step(s: DecoderView) -> (Result<i64, DecodeError>, DecoderView) {
    match spec_read_vlq(s.bytes) {
        Ok(p) => (Ok(unzigzag(p.0 as nat) as i64), spec_consume(s, p.1)),
        Err(e) => (Err(e), s),
    }
}

/// What reading a zigzag-encoded signed 16-bit integer does: a decoded value
/// outside the 16-bit range is a protocol error, with the encoding already
/// consumed.
pub open spec fn spec_read_i16_step(s: DecoderView) -> (Result<i16, DecodeError>, DecoderView) {
    match spec_read_vlq(s.bytes) {
        Ok(p) => {
            let z = unzigzag(p.0 as nat);
            if -0x8000 <= z < 0x8000 {
                (Ok(z as i16), spec_consume(s, p.1))
            } else {
                (
                    Err(DecodeError::Protocol(ProtocolViolation::ValueOutOfRange)),
                    spec_consume(s, p.1),
                )
            }
        },
        Err(e) => (Err(e), s),
    }
}

/// What reading a zigzag-encoded signed 32-bit integer does: a decoded value
/// outside the 32-bit range is a protocol error, with the encoding already
/// consumed.
pub open spec fn spec_read_i32_step(s: DecoderView) -> (Result<i32, DecodeError>, DecoderView) {
    match spec_read_vlq(s.bytes) {
        Ok(p) => {
            let z = unzigzag(p.0 as nat);
            if -0x8000_0000 <= z < 0x8000_0000 {
                (Ok(z as i32), spec_consume(s, p.1))
            } else {
                (
                    Err(DecodeError::Protocol(ProtocolViolation::ValueOutOfRange)),
                    spec_consume(s, p.1),
                )
            }
        },
        Err(e) => (Err(e), s),
    }
}

/// The signed value that one raw byte stands for in two's complement.
pub open spec fn spec_byte_as_i8(b: u8) -> i8 {
    if b < 128 {
        b as i8
    } else {
        (b - 256) as i8
    }
}

/// What reading a signed 8-bit integer does: one raw byte, reinterpreted.
pub open spec fn spec_read_i8_step(s: DecoderView) -> (Result<i8, DecodeError>, DecoderView) {
    match spec_read_byte(s) {
        (Ok(b), s1) => (Ok(spec_byte_as_i8(b)), s1),
        (Err(e), s1) => (Err(e), s1),
    }
}

/// What reading an 8-byte little-endian value does: the bit pattern of a
/// 64-bit floating-point scalar, returned as the unsigned integer with the
/// same bits.
pub open spec fn spec_read_double_step(s: DecoderView) -> (Result<u64, DecodeError>, DecoderView) {
    if s.bytes.len() < 8 {
        (Err(DecodeError::EndOfInput), s)
    } else {
        (Ok(spec_u64_from_le_bytes(s.bytes.take(8))), spec_consume(s, 8))
    }
}

/// What entering a struct does: the enclosing level's last field identifier
/// is pushed, and the new scope starts counting deltas from zero.
pub open spec fn spec_struct_begin(s: DecoderView) -> DecoderView {
    DecoderView {
        last_field_id: 0,
        field_id_stack: s.field_id_stack.push(s.last_field_id),
        ..s
    }
}

/// What leaving a struct does: the enclosing level's last field identifier
/// is restored from the stack.
pub open spec fn spec_struct_end(s: DecoderView) -> DecoderView
    recommends
        s.field_id_stack.len() > 0,
{
    DecoderView {
        last_field_id: s.field_id_stack.last(),
        field_id_stack: s.field_id_stack.drop_last(),
        ..s
    }
}

/// What reading a boolean does: a pending inline value from the preceding
/// field header is consumed without touching the buffer; otherwise one byte
/// is read and only the two valid encodings are accepted.
pub open spec fn spec_read_bool_step(s: DecoderView) -> (Result<bool, DecodeError>, DecoderView) {
    match s.pending_bool {
        Some(b) => (Ok(b), DecoderView { pending_bool: None, ..s }),
        None => {
            if s.bytes.len() == 0 {
                (Err(DecodeError::EndOfInput), s)
            } else if s.bytes[0] == 0x01 {
                (Ok(true), spec_consume(s, 1))
            } else if s.bytes[0] == 0x02 {
                (Ok(false), spec_consume(s, 1))
            } else {
                (
                    Err(DecodeError::Protocol(ProtocolViolation::InvalidBoolByte(s.bytes[0]))),
                    spec_consume(s, 1),
                )
            }
        },
    }
}

/// What reading a length-prefixed byte string does: the count is an
/// unsigned variable-length integer, and that many raw bytes follow; a
/// buffer too short for the announced count is an end-of-input error with
/// the count already consumed.
pub open spec fn spec_read_bytes_step(s: DecoderView) -> (
    Result<Seq<u8>, DecodeError>,
    DecoderView,
) {
    match spec_read_vlq(s.bytes) {
        Ok(p) => {
            let n = p.1;
            let cnt = p.0 as int;
            if n + cnt <= s.bytes.len() {
                (Ok(s.bytes.subrange(n, n + cnt)), spec_consume(s, n + cnt))
            } else {
                (Err(DecodeError::EndOfInput), spec_consume(s, n))
            }
        },
        Err(e) => (Err(e), s),
    }
}

/// What reading a text string does: a length-prefixed byte string that must
/// be valid UTF-8; anything else is a protocol error, never a lossy
/// substitution.
pub open spec fn spec_read_string_step(s: DecoderView) -> (
    Result<Seq<char>, DecodeError>,
    DecoderView,
) {
    match spec_read_bytes_step(s) {
        (Ok(bs), s1) => {
            if valid_utf8(bs) {
                (Ok(decode_utf8(bs)), s1)
            } else {
                (Err(DecodeError::Protocol(ProtocolViolation::InvalidUtf8)), s1)
            }
        },
        (Err(e), s1) => (Err(e), s1),
    }
}

/// What reading a field header does. One byte holds a type code in its low
/// nibble and a field-identifier delta in its high nibble. A zero type code
/// ends the struct. The two inline-boolean codes mean a boolean field and
/// cache its value for the next boolean read. A zero delta means the
/// identifier follows explicitly as a zigzag 16-bit integer; otherwise the
/// new identifier is the last one plus the delta, and a sum past the 16-bit
/// range is a protocol error.
pub open spec fn spec_read_field_begin_step(s: DecoderView) -> (
    Result<FieldHeader, DecodeError>,
    DecoderView,
) {
    if s.bytes.len() == 0 {
        (Err(DecodeError::EndOfInput), s)
    } else {
        let b = s.bytes[0];
        let s1 = spec_consume(s, 1);
        let nib = b & 0x0f;
        if nib == 0x00 {
            (Ok(FieldHeader::Stop), s1)
        } else {
            let s2 = if nib == 0x01 {
                DecoderView { pending_bool: Some(true), ..s1 }
            } else if nib == 0x02 {
                DecoderView { pending_bool: Some(false), ..s1 }
            } else {
                s1
            };
            let tag_opt = if nib == 0x01 || nib == 0x02 {
                Some(TypeTag::Bool)
            } else {
                spec_wire_type(nib)
            };
            match tag_opt {
                Some(tag) => {
                    let delta = b >> 4;
                    if delta != 0 {
                        if s.last_field_id + delta <= 0x7fff {
                            let id = (s.last_field_id + delta) as i16;
                            (
                                Ok(FieldHeader::Field { field_type: tag, id }),
                                DecoderView { last_field_id: id, ..s2 },
                            )
                        } else {
                            (
                                Err(DecodeError::Protocol(ProtocolViolation::ValueOutOfRange)),
                                s2,
                            )
                        }
                    } else {
                        match spec_read_i16_step(s2) {
                            (Ok(id), s3) => (
                                Ok(FieldHeader::Field { field_type: tag, id }),
                                DecoderView { last_field_id: id, ..s3 },
                            ),
                            (Err(e), s3) => (Err(e), s3),
                        }
                    }
                },
                None => (
                    Err(DecodeError::Protocol(ProtocolViolation::InvalidTypeCode(nib))),
                    s2,
                ),
            }
        }
    }
}

/// What reading a list (or set) header does. One byte holds the element
/// type code in its low nibble and the count in its high nibble; the count
/// nibble 15 means the count follows as an unsigned variable-length
/// integer, and a count past the signed 32-bit range is a protocol error.
pub open spec fn spec_read_list_step(s: DecoderView) -> (
    Result<(TypeTag, i32), DecodeError>,
    DecoderView,
) {
    if s.bytes.len() == 0 {
        (Err(DecodeError::EndOfInput), s)
    } else {
        let b = s.bytes[0];
        let s1 = spec_consume(s, 1);
        let nib = b & 0x0f;
        match spec_collection_wire_type(nib) {
            Some(t) => {
                let c = b >> 4;
                if c != 15 {
                    (Ok((t, c as i32)), s1)
                } else {
                    match spec_read_vlq(s1.bytes) {
                        Ok(p) => {
                            if p.0 <= 0x7fff_ffff {
                                (Ok((t, p.0 as i32)), spec_consume(s1, p.1))
                            } else {
                                (
                                    Err(DecodeError::Protocol(ProtocolViolation::ValueOutOfRange)),
                                    spec_consume(s1, p.1),
                                )
                            }
                        },
                        Err(e) => (Err(e), s1),
                    }
                }
            },
            None => (
                Err(DecodeError::Protocol(ProtocolViolation::InvalidTypeCode(nib))),
                s1,
            ),
        }
    }
}

/// Entering a struct and leaving it again restores the decoder's
/// field-identifier bookkeeping exactly: the stack entry made on entry is
/// the one removed on exit, and the enclosing level's last field identifier
/// comes back unchanged.
pub proof fn lemma_struct_scope_round_trip(s: DecoderView)
    ensures
        spec_struct_end(spec_struct_begin(s)) == s,
{
    assert(spec_struct_end(spec_struct_begin(s)) =~= s);
}

/// Field-identifier scoping across nesting: whatever was decoded inside a
/// struct, as long as its own nesting was balanced — the stack is back to
/// its state right after entry — leaving the struct restores the enclosing
/// level's last field identifier and stack, so the next delta at the outer
/// level is computed relative to the outer identifier, not to the inner
/// struct's.
pub proof fn lemma_struct_end_restores(s: DecoderView, t: DecoderView)
    requires
        t.field_id_stack == spec_struct_begin(s).field_id_stack,
    ensures
        spec_struct_end(t).last_field_id == s.last_field_id,
        spec_struct_end(t).field_id_stack == s.field_id_stack,
{
    assert(spec_struct_end(t).field_id_stack =~= s.field_id_stack);
}

/// Relies on `String::from_utf8`: it returns `Ok` exactly when the bytes
/// are valid UTF-8, and the string it returns is their decoding.
#[verifier::external_body]
fn string_from_utf8(bytes: Vec<u8>) -> (r: Option<String>)
    ensures
        r is Some <==> valid_utf8(bytes@),
        r is Some ==> r.unwrap()@ == decode_utf8(bytes@),
{
    String::from_utf8(bytes).ok()
}

/// A decoder for the compact wire format that reads a borrowed byte slice.
///
/// One instance is created per decode pass over one buffer, consumes the
/// relevant suffix of it through the read calls that a schema-driven caller
/// issues, and is then discarded.
pub struct TCompactSimdInputProtocol<'a> {
    buf: &'a [u8],
    last_read_field_id: i16,
    read_field_id_stack: Vec<i16>,
    pending_read_bool_value: Option<bool>,
}

impl<'a> View for TCompactSimdInputProtocol<'a> {
    type V = DecoderView;

    closed spec fn view(&self) -> DecoderView {
        DecoderView {
            bytes: self.buf@,
            last_field_id: self.last_read_field_id,
            field_id_stack: self.read_field_id_stack@,
            pending_bool: self.pending_read_bool_value,
        }
    }
}

impl<'a> TCompactSimdInputProtocol<'a> {
    /// A fresh decoder at the start of the given buffer, outside any struct,
    /// with no boolean value pending.
    pub fn new(buf: &'a [u8]) -> (r: Self)
        ensures
            r@.bytes == buf@,
            r@.last_field_id == 0,
            r@.field_id_stack == Seq::<i16>::empty(),
            r@.pending_bool is None,
    {
        let r = Self {
            buf,
            last_read_field_id: 0,
            read_field_id_stack: Vec::with_capacity(16),
            pending_read_bool_value: None,
        };
        proof {
            assert(r@.field_id_stack =~= Seq::<i16>::empty());
        }
        r
    }

    /// The unread suffix of the buffer.
    pub fn as_slice(&self) -> (r: &'a [u8])
        ensures
            r@ == self@.bytes,
    {
        self.buf
    }

    /// Reads one raw byte and advances past it.
    pub fn read_byte(&mut self) -> (r: Result<u8, DecodeError>)
        ensures
            r == spec_read_byte(old(self)@).0,
            final(self)@ == spec_read_byte(old(self)@).1,
    {
        if self.buf.len() == 0 {
            return Err(DecodeError::EndOfInput);
        }
        let b: u8 = self.buf[0];
        self.buf = slice_subrange(self.buf, 1, self.buf.len());
        proof {
            assert(self@ =~= spec_read_byte(old(self)@).1);
        }
        Ok(b)
    }

    /// Reads one unsigned variable-length integer and advances past it.
    pub fn read_vlq(&mut self) -> (r: Result<u64, DecodeError>)
        ensures
            r == spec_read_vlq_step(old(self)@).0,
            final(self)@ == spec_read_vlq_step(old(self)@).1,
    {
        match vlq_from_bytes(self.buf) {
            Ok(p) => {
                let (val, n): (u64, usize) = p;
                proof {
                    crate::varint::lemma_read_vlq_ok_bounds(self.buf@, val, n as int);
                }
                self.buf = slice_subrange(self.buf, n, self.buf.len());
                proof {
                    assert(self@ =~= spec_read_vlq_step(old(self)@).1);
                }
                Ok(val)
            },
            Err(e) => Err(e),
        }
    }

    /// Reads a zigzag-encoded signed 64-bit integer.
    pub fn read_zig_zag(&mut self) -> (r: Result<i64, DecodeError>)
        ensures
            r == spec_read_zig_zag_step(old(self)@).0,
            final(self)@ == spec_read_zig_zag_step(old(self)@).1,
    {
        match self.read_vlq() {
            Ok(u) => {
                proof {
                    lemma_unzigzag_range(u as nat, 0x8000_0000_0000_0000);
                }
                Ok(zig_zag_to_i64(u))
            },
            Err(e) => Err(e),
        }
    }

    /// Reads a signed 8-bit integer: one raw byte, reinterpreted.
    pub fn read_i8(&mut self) -> (r: Result<i8, DecodeError>)
        ensures
            r == spec_read_i8_step(old(self)@).0,
            final(self)@ == spec_read_i8_step(old(self)@).1,
    {
        match self.read_byte() {
            Ok(b) => {
                if b < 128 {
                    Ok(b as i8)
                } else {
                    Ok(((b as i16) - 256) as i8)
                }
            },
            Err(e) => Err(e),
        }
    }

    /// Reads a zigzag-encoded signed 16-bit integer; a decoded value outside
    /// the 16-bit range is rejected as a protocol error.
    pub fn read_i16(&mut self) -> (r: Result<i16, DecodeError>)
        ensures
            r == spec_read_i16_step(old(self)@).0,
            final(self)@ == spec_read_i16_step(old(self)@).1,
    {
        match self.read_vlq() {
            Ok(u) => {
                proof {
                    lemma_unzigzag_range(u as nat, 0x8000);
                }
                if u <= 0xffff {
                    let z: i64 = zig_zag_to_i64(u);
                    Ok(z as i16)
                } else {
                    Err(DecodeError::Protocol(ProtocolViolation::ValueOutOfRange))
                }
            },
            Err(e) => Err(e),
        }
    }

    /// Reads a zigzag-encoded signed 32-bit integer; a decoded value outside
    /// the 32-bit range is rejected as a protocol error.
    pub fn read_i32(&mut self) -> (r: Result<i32, DecodeError>)
        ensures
            r == spec_read_i32_step(old(self)@).0,
            final(self)@ == spec_read_i32_step(old(self)@).1,
    {
        match self.read_vlq() {
            Ok(u) => {
                proof {
                    lemma_unzigzag_range(u as nat, 0x8000_0000);
                }
                if u <= 0xffff_ffff {
                    let z: i64 = zig_zag_to_i64(u);
                    Ok(z as i32)
                } else {
                    Err(DecodeError::Protocol(ProtocolViolation::ValueOutOfRange))
                }
            },
            Err(e) => Err(e),
        }
    }

    /// Reads a zigzag-encoded signed 64-bit integer.
    pub fn read_i64(&mut self) -> (r: Result<i64, DecodeError>)
        ensures
            r == spec_read_zig_zag_step(old(self)@).0,
            final(self)@ == spec_read_zig_zag_step(old(self)@).1,
    {
        self.read_zig_zag()
    }

    /// Reads the 8 raw little-endian bytes of a 64-bit floating-point scalar
    /// and returns its bit pattern; the caller reinterprets the bits.
    pub fn read_double_bits(&mut self) -> (r: Result<u64, DecodeError>)
        ensures
            r == spec_read_double_step(old(self)@).0,
            final(self)@ == spec_read_double_step(old(self)@).1,
    {
        if self.buf.len() < 8 {
            return Err(DecodeError::EndOfInput);
        }
        let first = slice_subrange(self.buf, 0, 8);
        let x: u64 = u64_from_le_bytes(first);
        proof {
            assert(first@ =~= old(self)@.bytes.take(8));
        }
        self.buf = slice_subrange(self.buf, 8, self.buf.len());
        proof {
            assert(self@ =~= spec_read_double_step(old(self)@).1);
        }
        Ok(x)
    }

    /// Enters a struct scope: pushes the current last field identifier and
    /// starts the new scope's deltas from zero.
    pub fn read_struct_begin(&mut self)
        ensures
            final(self)@ == spec_struct_begin(old(self)@),
    {
        self.read_field_id_stack.push(self.last_read_field_id);
        self.last_read_field_id = 0;
        proof {
            assert(self@ =~= spec_struct_begin(old(self)@));
        }
    }

    /// Leaves a struct scope: restores the enclosing level's last field
    /// identifier. The caller must have entered a matching struct; the
    /// nesting depth is the caller's to keep balanced.
    pub fn read_struct_end(&mut self)
        requires
            old(self)@.field_id_stack.len() > 0,
        ensures
            final(self)@ == spec_struct_end(old(self)@),
    {
        let id: i16 = self.read_field_id_stack.pop().unwrap();
        self.last_read_field_id = id;
        proof {
            assert(self@ =~= spec_struct_end(old(self)@));
        }
    }

    /// Reads a field header: `Stop` at the end of the struct, otherwise the
    /// field's type and identifier, with the decoder's last-seen identifier
    /// updated to it.
    pub fn read_field_begin(&mut self) -> (r: Result<FieldHeader, DecodeError>)
        ensures
            r == spec_read_field_begin_step(old(self)@).0,
            final(self)@ == spec_read_field_begin_step(old(self)@).1,
    {
        let b: u8 = match self.read_byte() {
            Ok(b) => b,
            Err(e) => {
                return Err(e);
            },
        };
        let field_delta: u8 = (b & 0xf0) >> 4;
        let nib: u8 = b & 0x0f;
        proof {
            assert((b & 0xf0) >> 4 == b >> 4 && b >> 4 <= 15 && b & 0x0f <= 15) by (bit_vector);
        }
        let tag: TypeTag = if nib == 0x01 {
            self.pending_read_bool_value = Some(true);
            TypeTag::Bool
        } else if nib == 0x02 {
            self.pending_read_bool_value = Some(false);
            TypeTag::Bool
        } else {
            match u8_to_type(nib) {
                Ok(t) => t,
                Err(e) => {
                    return Err(e);
                },
            }
        };
        if nib == 0x00 {
            return Ok(FieldHeader::Stop);
        }
        if field_delta != 0 {
            let delta16: i16 = field_delta as i16;
            if self.last_read_field_id <= 0x7fff - delta16 {
                self.last_read_field_id = self.last_read_field_id + delta16;
                Ok(FieldHeader::Field { field_type: tag, id: self.last_read_field_id })
            } else {
                Err(DecodeError::Protocol(ProtocolViolation::ValueOutOfRange))
            }
        } else {
            match self.read_i16() {
                Ok(id) => {
                    self.last_read_field_id = id;
                    Ok(FieldHeader::Field { field_type: tag, id })
                },
                Err(e) => Err(e),
            }
        }
    }

    /// Nothing ends a field on the wire: reading a field's end changes no
    /// state.
    pub fn read_field_end(&mut self)
        ensures
            final(self)@ == old(self)@,
    {
    }

    /// Reads a boolean value: a value cached from the field header if one is
    /// pending, otherwise one byte of which only the two valid encodings are
    /// accepted.
    pub fn read_bool(&mut self) -> (r: Result<bool, DecodeError>)
        ensures
            r == spec_read_bool_step(old(self)@).0,
            final(self)@ == spec_read_bool_step(old(self)@).1,
    {
        match self.pending_read_bool_value {
            Some(b) => {
                self.pending_read_bool_value = None;
                proof {
                    assert(self@ =~= spec_read_bool_step(old(self)@).1);
                }
                Ok(b)
            },
            None => {
                match self.read_byte() {
                    Ok(b) => {
                        if b == 0x01 {
                            Ok(true)
                        } else if b == 0x02 {
                            Ok(false)
                        } else {
                            Err(DecodeError::Protocol(ProtocolViolation::InvalidBoolByte(b)))
                        }
                    },
                    Err(e) => Err(e),
                }
            },
        }
    }

    /// Reads a length-prefixed byte string, copying the payload out of the
    /// buffer.
    pub fn read_bytes(&mut self) -> (r: Result<Vec<u8>, DecodeError>)
        ensures
            (match r {
                Ok(v) => spec_read_bytes_step(old(self)@).0 == Ok::<Seq<u8>, DecodeError>(v@),
                Err(e) => spec_read_bytes_step(old(self)@).0 == Err::<Seq<u8>, DecodeError>(e),
            }),
            final(self)@ == spec_read_bytes_step(old(self)@).1,
    {
        let cnt: u64 = match self.read_vlq() {
            Ok(u) => u,
            Err(e) => {
                return Err(e);
            },
        };
        if cnt > self.buf.len() as u64 {
            return Err(DecodeError::EndOfInput);
        }
        let n: usize = cnt as usize;
        let payload = slice_subrange(self.buf, 0, n);
        let out: Vec<u8> = slice_to_vec(payload);
        self.buf = slice_subrange(self.buf, n, self.buf.len());
        proof {
            assert(out@ =~= spec_read_bytes_step(old(self)@).0.unwrap());
            assert(self@ =~= spec_read_bytes_step(old(self)@).1);
        }
        Ok(out)
    }

    /// Reads a length-prefixed text string, validating that the payload is
    /// UTF-8.
    pub fn read_string(&mut self) -> (r: Result<String, DecodeError>)
        ensures
            (match r {
                Ok(v) => spec_read_string_step(old(self)@).0 == Ok::<Seq<char>, DecodeError>(v@),
                Err(e) => spec_read_string_step(old(self)@).0 == Err::<Seq<char>, DecodeError>(e),
            }),
            final(self)@ == spec_read_string_step(old(self)@).1,
    {
        let bytes: Vec<u8> = match self.read_bytes() {
            Ok(v) => v,
            Err(e) => {
                return Err(e);
            },
        };
        match string_from_utf8(bytes) {
            Some(st) => Ok(st),
            None => Err(DecodeError::Protocol(ProtocolViolation::InvalidUtf8)),
        }
    }

    /// Reads a list-or-set header: the element type and the count, inline in
    /// the header byte for counts up to 14, otherwise from the overflow
    /// variable-length integer that follows.
    fn read_list_set_begin(&mut self) -> (r: Result<(TypeTag, i32), DecodeError>)
        ensures
            r == spec_read_list_step(old(self)@).0,
            final(self)@ == spec_read_list_step(old(self)@).1,
    {
        let header: u8 = match self.read_byte() {
            Ok(b) => b,
            Err(e) => {
                return Err(e);
            },
        };
        let element_type: TypeTag = match collection_u8_to_type(header & 0x0f) {
            Ok(t) => t,
            Err(e) => {
                return Err(e);
            },
        };
        let possible_element_count: u8 = (header & 0xf0) >> 4;
        proof {
            assert((header & 0xf0) >> 4 == header >> 4 && header >> 4 <= 15) by (bit_vector);
        }
        if possible_element_count != 15 {
            Ok((element_type, possible_element_count as i32))
        } else {
            match self.read_vlq() {
                Ok(u) => {
                    if u <= 0x7fff_ffff {
                        Ok((element_type, u as i32))
                    } else {
                        Err(DecodeError::Protocol(ProtocolViolation::ValueOutOfRange))
                    }
                },
                Err(e) => Err(e),
            }
        }
    }

    /// Reads a list header.
    pub fn read_list_begin(&mut self) -> (r: Result<ListIdentifier, DecodeError>)
        ensures
            (match r {
                Ok(l) => spec_read_list_step(old(self)@).0 == Ok::<(TypeTag, i32), DecodeError>(
                    (l.element_type, l.size),
                ),
                Err(e) => spec_read_list_step(old(self)@).0 == Err::<(TypeTag, i32), DecodeError>(
                    e,
                ),
            }),
            final(self)@ == spec_read_list_step(old(self)@).1,
    {
        match self.read_list_set_begin() {
            Ok(p) => Ok(ListIdentifier { element_type: p.0, size: p.1 }),
            Err(e) => Err(e),
        }
    }

    /// Nothing ends a list on the wire: reading a list's end changes no
    /// state.
    pub fn read_list_end(&mut self)
        ensures
            final(self)@ == old(self)@,
    {
    }

    /// Message framing is outside the supported subset: always the
    /// unsupported-capability error, with no state touched.
    pub fn read_message_begin(&mut self) -> (r: Result<(), DecodeError>)
        ensures
            r == Err::<(), DecodeError>(DecodeError::Unsupported),
            final(self)@ == old(self)@,
    {
        Err(DecodeError::Unsupported)
    }

    /// Message framing is outside the supported subset: always the
    /// unsupported-capability error, with no state touched.
    pub fn read_message_end(&mut self) -> (r: Result<(), DecodeError>)
        ensures
            r == Err::<(), DecodeError>(DecodeError::Unsupported),
            final(self)@ == old(self)@,
    {
        Err(DecodeError::Unsupported)
    }

    /// Sets are outside the supported subset: always the
    /// unsupported-capability error, with no state touched.
    pub fn read_set_begin(&mut self) -> (r: Result<(), DecodeError>)
        ensures
            r == Err::<(), DecodeError>(DecodeError::Unsupported),
            final(self)@ == old(self)@,
    {
        Err(DecodeError::Unsupported)
    }

    /// Sets are outside the supported subset: always the
    /// unsupported-capability error, with no state touched.
    pub fn read_set_end(&mut self) -> (r: Result<(), DecodeError>)
        ensures
            r == Err::<(), DecodeError>(DecodeError::Unsupported),
            final(self)@ == old(self)@,
    {
        Err(DecodeError::Unsupported)
    }

    /// Maps are outside the supported subset: always the
    /// unsupported-capability error, with no state touched.
    pub fn read_map_begin(&mut self) -> (r: Result<(), DecodeError>)
        ensures
            r == Err::<(), DecodeError>(DecodeError::Unsupported),
            final(self)@ == old(self)@,
    {
        Err(DecodeError::Unsupported)
    }

    /// Nothing ends a map on the wire, and map headers are never read; for
    /// symmetry with the other end calls this changes no state.
    pub fn read_map_end(&mut self)
        ensures
            final(self)@ == old(self)@,
    {
    }
}

} // verus!
