//! Variable-length integer codec: base-128 little-endian groups with a
//! continuation bit, and the zigzag mapping between signed and unsigned
//! integers.
//!
//! This is the highest-frequency operation of the decoder. The value of an
//! encoded integer is reconstructed by concatenating the low 7 bits of each
//! byte in order, least-significant group first; the terminating group is the
//! first byte with its high bit clear. Reads are bounds-checked: a buffer
//! that ends inside an encoding is an end-of-input error, and a run of ten
//! continuation bytes (past the longest encoding of a 64-bit value) is a
//! protocol error.

use vstd::prelude::*;
use vstd::arithmetic::div_mod::{
    lemma_add_mod_noop_right, lemma_fundamental_div_mod, lemma_small_mod,
};
use crate::error::{DecodeError, ProtocolViolation};

verus! {

/// 128 raised to the given power: the weight of the byte at that index in a
/// base-128 encoding.
pub open spec fn pow128(e: nat) -> nat
    decreases e,
{
    if e == 0 {
        1
    } else {
        128 * pow128((e - 1) as nat)
    }
}

/// The integer that a byte sequence stands for when every byte is read as a
/// base-128 group, least-significant first: the low 7 bits of each byte,
/// weighted by its position.
pub open spec fn vlq_value(bytes: Seq<u8>) -> nat
    decreases bytes.len(),
{
    if bytes.len() == 0 {
        0
    } else {
        ((bytes[0] & 0x7f) + 128 * vlq_value(bytes.skip(1))) as nat
    }
}

/// True when the first `n` bytes form one complete variable-length integer:
/// the `n`th byte terminates (high bit clear), every byte before it
/// continues (high bit set), and the encoding is no longer than the ten
/// groups a 64-bit value can need.
pub open spec fn is_vlq_prefix(bytes: Seq<u8>, n: int) -> bool {
    &&& 0 < n <= bytes.len()
    &&& n <= 10
    &&& bytes[n - 1] < 0x80
    &&& forall|j: int| 0 <= j < n - 1 ==> bytes[j] >= 0x80
}

/// What reading one variable-length integer from the front of the buffer
/// yields: the value (truncated to 64 bits) and the number of bytes
/// consumed, or the error when no complete encoding is there.
pub open spec fn spec_read_vlq(bytes: Seq<u8>) -> Result<(u64, int), DecodeError> {
    if exists|n: int| is_vlq_prefix(bytes, n) {
        let n = choose|n: int| is_vlq_prefix(bytes, n);
        Ok(((vlq_value(bytes.take(n)) % 0x1_0000_0000_0000_0000) as u64, n))
    } else if bytes.len() >= 10 {
        Err(DecodeError::Protocol(ProtocolViolation::VarintTooLong))
    } else {
        Err(DecodeError::EndOfInput)
    }
}

/// The minimal encoding of an unsigned integer: low 7 bits first, high bit
/// set on every group but the last.
pub open spec fn vlq_encoding(x: nat) -> Seq<u8>
    decreases x,
{
    if x < 128 {
        seq![x as u8]
    } else {
        seq![((x % 128) + 128) as u8] + vlq_encoding(x / 128)
    }
}

/// The unsigned integer that a signed integer maps to under zigzag encoding:
/// small magnitudes, positive or negative, map to small values.
pub open spec fn zigzag_of(n: int) -> nat {
    if n >= 0 {
        (2 * n) as nat
    } else {
        (-2 * n - 1) as nat
    }
}

/// The signed integer that an unsigned value maps back to under zigzag
/// decoding: even values are non-negative, odd values are negative.
pub open spec fn unzigzag(u: nat) -> int {
    if u % 2 == 0 {
        (u / 2) as int
    } else {
        -(((u + 1) / 2) as int)
    }
}

/// At most one prefix length can terminate a variable-length integer: the
/// terminating byte of the shorter one would have to be a continuation byte
/// of the longer.
pub proof fn lemma_vlq_prefix_unique(bytes: Seq<u8>, n1: int, n2: int)
    requires
        is_vlq_prefix(bytes, n1),
        is_vlq_prefix(bytes, n2),
    ensures
        n1 == n2,
{
    if n1 < n2 {
        assert(bytes[n1 - 1] >= 0x80);
    }
    if n2 < n1 {
        assert(bytes[n2 - 1] >= 0x80);
    }
}

/// Taking one more byte adds its low 7 bits at the weight of its position.
pub proof fn lemma_vlq_value_take_step(s: Seq<u8>, i: int)
    requires
        0 <= i < s.len(),
    ensures
        vlq_value(s.take(i + 1)) == vlq_value(s.take(i)) + (s[i] & 0x7f) * pow128(i as nat),
    decreases i,
{
    let t1 = s.take(i + 1);
    let t0 = s.take(i);
    if i == 0 {
        assert(t1 =~= seq![s[0]]);
        assert(t1.skip(1) =~= Seq::<u8>::empty());
        assert(t0 =~= Seq::<u8>::empty());
        assert(vlq_value(t1) == (s[0] & 0x7f) + 128 * vlq_value(t1.skip(1)));
        assert(vlq_value(t1.skip(1)) == 0);
        assert(vlq_value(t0) == 0);
        assert(pow128(0) == 1);
        assert(vlq_value(t1) == vlq_value(t0) + (s[0] & 0x7f) * pow128(0));
    } else {
        let rest = s.skip(1);
        lemma_vlq_value_take_step(rest, i - 1);
        assert(t1.skip(1) =~= rest.take(i));
        assert(t0.skip(1) =~= rest.take(i - 1));
        assert(t1[0] == s[0] && t0[0] == s[0]);
        assert(rest[i - 1] == s[i]);
        let b: nat = (s[i] & 0x7f) as nat;
        let p: nat = pow128((i - 1) as nat);
        let head: nat = (s[0] & 0x7f) as nat;
        let inner: nat = vlq_value(rest.take(i - 1));
        assert(vlq_value(rest.take(i)) == inner + b * p);
        assert(vlq_value(t1) == head + 128 * vlq_value(t1.skip(1)));
        assert(vlq_value(t1) == head + 128 * (inner + b * p));
        assert(vlq_value(t0) == head + 128 * inner);
        assert(128 * (inner + b * p) == 128 * inner + b * (128 * p)) by (nonlinear_arith);
        assert(pow128(i as nat) == 128 * p);
        assert(vlq_value(t1) == vlq_value(t0) + b * pow128(i as nat));
        assert(vlq_value(s.take(i + 1)) == vlq_value(s.take(i)) + (s[i] & 0x7f) * pow128(
            i as nat,
        ));
    }
}

/// The value of an `n`-byte sequence is below the weight of position `n`.
pub proof fn lemma_vlq_value_bound(s: Seq<u8>)
    ensures
        vlq_value(s) < pow128(s.len()),
    decreases s.len(),
{
    if s.len() == 0 {
    } else {
        lemma_vlq_value_bound(s.skip(1));
        let b0: u8 = s[0];
        assert(b0 & 0x7f < 0x80) by (bit_vector);
        let v: nat = vlq_value(s.skip(1));
        let p: nat = pow128((s.len() - 1) as nat);
        assert(v < p);
        assert(128 * v <= 128 * (p - 1)) by (nonlinear_arith)
            requires
                v <= p - 1,
        ;
        assert(pow128(s.len()) == 128 * p);
    }
}

/// The shape of the minimal encoding: it terminates exactly at its last
/// byte, decodes back to the encoded value, and a 64-bit value takes at most
/// ten bytes.
pub proof fn lemma_vlq_encoding_facts(x: nat)
    ensures
        vlq_encoding(x).len() >= 1,
        vlq_encoding(x)[vlq_encoding(x).len() - 1] < 0x80,
        forall|j: int| 0 <= j < vlq_encoding(x).len() - 1 ==> vlq_encoding(x)[j] >= 0x80,
        vlq_value(vlq_encoding(x)) == x,
        x >= 128 ==> x / 128 >= 1,
    decreases x,
{
    let enc = vlq_encoding(x);
    if x < 128 {
        assert(enc =~= seq![x as u8]);
        assert(enc.skip(1) =~= Seq::<u8>::empty());
        let b: u8 = x as u8;
        assert(b < 0x80 ==> b & 0x7f == b) by (bit_vector);
        assert(vlq_value(enc) == (b & 0x7f) + 128 * vlq_value(enc.skip(1)));
    } else {
        lemma_vlq_encoding_facts(x / 128);
        let c: u8 = (x % 128) as u8;
        let head: u8 = ((x % 128) + 128) as u8;
        assert(c < 128 ==> ((c + 128) as u8 & 0x7f == c && (c + 128) as u8 >= 0x80))
            by (bit_vector);
        assert(head == (c + 128) as u8);
        assert(enc == seq![head] + vlq_encoding(x / 128));
        assert(enc[0] == head);
        assert(enc.skip(1) =~= vlq_encoding(x / 128));
        assert(vlq_value(enc) == (head & 0x7f) + 128 * vlq_value(enc.skip(1)));
        assert(vlq_value(enc) == (x % 128) + 128 * (x / 128));
        lemma_fundamental_div_mod(x as int, 128);
    }
}

/// A value below the weight of position `k` encodes in at most `k` bytes.
pub proof fn lemma_vlq_encoding_len(x: nat, k: nat)
    requires
        x < pow128(k),
        k >= 1,
    ensures
        vlq_encoding(x).len() <= k,
    decreases x,
{
    if x < 128 {
    } else {
        let p: nat = pow128((k - 1) as nat);
        assert(pow128(k) == 128 * p);
        assert(x / 128 < p) by (nonlinear_arith)
            requires
                x < 128 * p,
                p >= 1,
        ;
        if k == 1 {
            assert(pow128(1nat) == 128);
        } else {
            lemma_vlq_encoding_len(x / 128, (k - 1) as nat);
        }
    }
}

/// No shorter prefix decodes to the same value: the minimal encoding length
/// is a lower bound for any complete encoding of the value.
pub proof fn lemma_vlq_encoding_minimal(x: nat, s: Seq<u8>, n: int)
    requires
        is_vlq_prefix(s, n),
        vlq_value(s.take(n)) == x,
    ensures
        n >= vlq_encoding(x).len(),
    decreases x,
{
    if n < vlq_encoding(x).len() {
        lemma_vlq_value_bound(s.take(n));
        assert(s.take(n).len() == n);
        lemma_pow128_increases(n as nat, (vlq_encoding(x).len() - 1) as nat);
        lemma_vlq_encoding_low_bound(x);
    }
}

/// The weight function grows with the exponent.
pub proof fn lemma_pow128_increases(e1: nat, e2: nat)
    requires
        e1 <= e2,
    ensures
        pow128(e1) <= pow128(e2),
    decreases e2,
{
    if e1 < e2 {
        lemma_pow128_increases(e1, (e2 - 1) as nat);
        let p: nat = pow128((e2 - 1) as nat);
        assert(pow128(e2) == 128 * p);
        assert(p >= 1) by {
            lemma_pow128_pos((e2 - 1) as nat);
        }
    }
}

/// The weight function is positive.
pub proof fn lemma_pow128_pos(e: nat)
    ensures
        pow128(e) >= 1,
    decreases e,
{
    if e > 0 {
        lemma_pow128_pos((e - 1) as nat);
    }
}

/// A value reaches the weight of the position just below its encoding's
/// length: the encoding wastes no byte.
pub proof fn lemma_vlq_encoding_low_bound(x: nat)
    requires
        x >= 1,
    ensures
        x >= pow128((vlq_encoding(x).len() - 1) as nat),
    decreases x,
{
    lemma_vlq_encoding_facts(x);
    if x < 128 {
    } else {
        lemma_vlq_encoding_low_bound(x / 128);
        lemma_vlq_encoding_facts(x / 128);
        let rest = vlq_encoding(x / 128);
        assert(rest.len() >= 1);
        assert(vlq_encoding(x).len() == 1 + rest.len());
        let p: nat = pow128((rest.len() - 1) as nat);
        assert(pow128(rest.len()) == 128 * p);
        assert(x >= 128 * (x / 128)) by {
            lemma_fundamental_div_mod(x as int, 128);
        }
        assert(128 * (x / 128) >= 128 * p) by (nonlinear_arith)
            requires
                x / 128 >= p,
        ;
        assert(pow128((vlq_encoding(x).len() - 1) as nat) == 128 * p);
    }
}

/// Round trip of the unsigned codec: reading a buffer that starts with the
/// minimal encoding of any 64-bit value yields that value back and consumes
/// exactly the encoding, whatever follows it; and no complete encoding of
/// the value is shorter.
pub proof fn lemma_vlq_round_trip(x: u64, rest: Seq<u8>)
    ensures
        spec_read_vlq(vlq_encoding(x as nat) + rest) == Ok::<(u64, int), DecodeError>((
            x,
            vlq_encoding(x as nat).len() as int,
        )),
        forall|s: Seq<u8>, n: int|
            is_vlq_prefix(s, n) && vlq_value(s.take(n)) == x as nat ==> n >= vlq_encoding(
                x as nat,
            ).len(),
{
    let enc = vlq_encoding(x as nat);
    let whole = enc + rest;
    let len: int = enc.len() as int;
    lemma_vlq_encoding_facts(x as nat);
    assert(pow128(10) == 0x40_0000_0000_0000_0000) by {
        reveal_with_fuel(pow128, 11);
    }
    lemma_vlq_encoding_len(x as nat, 10);
    assert(is_vlq_prefix(whole, len));
    let n = choose|n: int| is_vlq_prefix(whole, n);
    lemma_vlq_prefix_unique(whole, n, len);
    assert(whole.take(len) =~= enc);
    lemma_small_mod(x as nat, 0x1_0000_0000_0000_0000);
    assert forall|s: Seq<u8>, n2: int|
        is_vlq_prefix(s, n2) && vlq_value(s.take(n2)) == x as nat implies n2 >= vlq_encoding(
        x as nat,
    ).len() by {
        lemma_vlq_encoding_minimal(x as nat, s, n2);
    }
}

/// A successful read consumed at least one byte, no more than the buffer
/// holds, and no more than the longest encoding.
pub proof fn lemma_read_vlq_ok_bounds(bytes: Seq<u8>, v: u64, n: int)
    requires
        spec_read_vlq(bytes) == Ok::<(u64, int), DecodeError>((v, n)),
    ensures
        0 < n <= bytes.len(),
        n <= 10,
{
    if exists|k: int| is_vlq_prefix(bytes, k) {
        let k = choose|k: int| is_vlq_prefix(bytes, k);
        assert(is_vlq_prefix(bytes, k));
    }
}

/// Reads one variable-length integer from the front of the buffer without
/// consuming it: the value (truncated to 64 bits) and the number of bytes it
/// took, or the error when no complete encoding is there.
pub fn vlq_from_bytes(buf: &[u8]) -> (r: Result<(u64, usize), DecodeError>)
    ensures
        match r {
            Ok(p) => spec_read_vlq(buf@) == Ok::<(u64, int), DecodeError>((p.0, p.1 as int)),
            Err(e) => spec_read_vlq(buf@) == Err::<(u64, int), DecodeError>(e),
        },
{
    let len: usize = buf.len();
    let mut val: u64 = 0;
    let mut mult: u64 = 1;
    let mut i: usize = 0;
    while i < 10
        invariant
            i <= 10,
            i <= len,
            len == buf@.len(),
            forall|j: int| 0 <= j < i ==> buf@[j] >= 0x80,
            val == (vlq_value(buf@.take(i as int)) % 0x1_0000_0000_0000_0000) as u64,
            i < 10 ==> mult == pow128(i as nat),
            mult <= 0x8000_0000_0000_0000,
        decreases 10 - i,
    {
        if i >= len {
            proof {
                assert(buf@.len() < 10);
                assert forall|n: int| !is_vlq_prefix(buf@, n) by {
                    if is_vlq_prefix(buf@, n) {
                        assert(buf@[n - 1] >= 0x80);
                    }
                }
            }
            return Err(DecodeError::EndOfInput);
        }
        let b: u8 = buf[i];
        let low: u64 = (b & 0x7f) as u64;
        proof {
            assert(b & 0x7f < 0x80) by (bit_vector);
            assert((low as int) * (mult as int) <= 127 * 0x8000_0000_0000_0000)
                by (nonlinear_arith)
                requires
                    low <= 127,
                    mult <= 0x8000_0000_0000_0000,
            ;
            lemma_vlq_value_take_step(buf@, i as int);
        }
        let prod: u128 = (low as u128) * (mult as u128);
        let sum: u128 = (val as u128) + prod;
        let val_new: u64 = (sum % 0x1_0000_0000_0000_0000) as u64;
        proof {
            let m: int = 0x1_0000_0000_0000_0000;
            let vt0: int = vlq_value(buf@.take(i as int)) as int;
            let vt1: int = vlq_value(buf@.take(i as int + 1)) as int;
            let c: int = (low as int) * (mult as int);
            assert(vt1 == vt0 + c);
            assert(sum == vt0 % m + c);
            assert((c + vt0 % m) % m == (c + vt0) % m) by {
                lemma_add_mod_noop_right(c, vt0, m);
            }
            assert(val_new == vt1 % m);
        }
        if b < 0x80 {
            proof {
                assert(is_vlq_prefix(buf@, i as int + 1));
                let n = choose|n: int| is_vlq_prefix(buf@, n);
                lemma_vlq_prefix_unique(buf@, n, i as int + 1);
            }
            return Ok((val_new, i + 1));
        }
        val = val_new;
        i = i + 1;
        if i < 10 {
            proof {
                lemma_pow128_increases((i - 1) as nat, 8);
                assert(pow128(8) == 0x100_0000_0000_0000) by {
                    reveal_with_fuel(pow128, 9);
                }
                assert(pow128(i as nat) == 128 * pow128((i - 1) as nat));
            }
            mult = mult * 128;
        }
    }
    proof {
        assert(buf@.len() >= 10);
        assert forall|n: int| !is_vlq_prefix(buf@, n) by {
            if is_vlq_prefix(buf@, n) {
                assert(buf@[n - 1] >= 0x80);
            }
        }
    }
    Err(DecodeError::Protocol(ProtocolViolation::VarintTooLong))
}

/// Writes the minimal variable-length encoding of an unsigned 64-bit value.
pub fn encode_vlq(x: u64) -> (r: Vec<u8>)
    ensures
        r@ == vlq_encoding(x as nat),
{
    let mut out: Vec<u8> = Vec::new();
    let mut v: u64 = x;
    proof {
        assert(out@ + vlq_encoding(v as nat) =~= vlq_encoding(x as nat));
    }
    while v >= 128
        invariant
            out@ + vlq_encoding(v as nat) == vlq_encoding(x as nat),
        decreases v,
    {
        let byte: u8 = ((v % 128) + 128) as u8;
        let ghost prev = out@;
        let ghost v_prev: u64 = v;
        out.push(byte);
        v = v / 128;
        proof {
            assert(vlq_encoding(v_prev as nat) == seq![byte] + vlq_encoding(v as nat));
            assert(out@ + vlq_encoding(v as nat) =~= prev + vlq_encoding(v_prev as nat));
        }
    }
    let ghost prev = out@;
    out.push(v as u8);
    proof {
        assert(vlq_encoding(v as nat) == seq![v as u8]);
        assert(out@ =~= prev + vlq_encoding(v as nat));
    }
    out
}

/// Maps a signed 64-bit integer to its zigzag image.
pub fn encode_zig_zag(n: i64) -> (r: u64)
    ensures
        r == zigzag_of(n as int),
{
    if n >= 0 {
        (n as u64) * 2
    } else {
        ((-(n + 1)) as u64) * 2 + 1
    }
}

/// Maps a zigzag image back to the signed 64-bit integer it stands for.
pub fn zig_zag_to_i64(u: u64) -> (r: i64)
    ensures
        r as int == unzigzag(u as nat),
{
    let half: u64 = u / 2;
    if u % 2 == 0 {
        half as i64
    } else {
        -1 - (half as i64)
    }
}

/// Round trip of the zigzag mapping: decoding the encoding of any signed
/// integer yields that integer back.
pub proof fn lemma_zig_zag_round_trip(n: int)
    ensures
        unzigzag(zigzag_of(n)) == n,
{
}

/// The zigzag image of a signed integer is below twice a bound exactly when
/// the integer lies in the symmetric range of that bound: the width of a
/// zigzag value and of the signed integer it stands for agree.
pub proof fn lemma_unzigzag_range(u: nat, bound: nat)
    requires
        bound >= 1,
    ensures
        u < 2 * bound <==> -(bound as int) <= unzigzag(u) < bound,
{
}

} // verus!
