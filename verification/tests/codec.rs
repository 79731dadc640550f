use format_study::error::{DecodeError, ProtocolViolation};
use format_study::varint::{encode_vlq, encode_zig_zag, vlq_from_bytes, zig_zag_to_i64};

fn assert_vlq_round_trip(x: u64, expected_len: usize) {
    let enc = encode_vlq(x);
    assert_eq!(enc.len(), expected_len, "minimal encoding length of {}", x);
    let (val, consumed) = vlq_from_bytes(&enc).unwrap();
    assert_eq!(val, x);
    assert_eq!(consumed, expected_len);
    // The same prefix decodes identically when more bytes follow.
    let mut longer = enc.clone();
    longer.push(0xab);
    let (val2, consumed2) = vlq_from_bytes(&longer).unwrap();
    assert_eq!(val2, x);
    assert_eq!(consumed2, expected_len);
}

#[test]
fn vlq_round_trip_boundaries() {
    assert_vlq_round_trip(0, 1);
    assert_vlq_round_trip(127, 1);
    assert_vlq_round_trip(128, 2);
    assert_vlq_round_trip(16383, 2);
    assert_vlq_round_trip(16384, 3);
    assert_vlq_round_trip(u32::MAX as u64, 5);
    assert_vlq_round_trip(u64::MAX, 10);
}

#[test]
fn vlq_known_bytes() {
    assert_eq!(encode_vlq(1), vec![0x01]);
    assert_eq!(encode_vlq(300), vec![0xac, 0x02]);
    assert_eq!(
        encode_vlq(u64::MAX),
        vec![0xff, 0xff, 0xff, 0xff, 0xff, 0xff, 0xff, 0xff, 0xff, 0x01]
    );
    let (val, consumed) = vlq_from_bytes(&[0xac, 0x02, 0x99]).unwrap();
    assert_eq!(val, 300);
    assert_eq!(consumed, 2);
}

#[test]
fn vlq_truncated_is_end_of_input() {
    assert_eq!(vlq_from_bytes(&[]), Err(DecodeError::EndOfInput));
    assert_eq!(vlq_from_bytes(&[0x80]), Err(DecodeError::EndOfInput));
    assert_eq!(
        vlq_from_bytes(&[0x80, 0x80, 0x80]),
        Err(DecodeError::EndOfInput)
    );
}

#[test]
fn vlq_unterminated_ten_bytes_is_protocol_error() {
    let bytes = [0x80u8; 11];
    assert_eq!(
        vlq_from_bytes(&bytes),
        Err(DecodeError::Protocol(ProtocolViolation::VarintTooLong))
    );
}

#[test]
fn vlq_non_minimal_encoding_still_decodes() {
    // 0 padded into two groups: the decoder reads what the bytes say.
    let (val, consumed) = vlq_from_bytes(&[0x80, 0x00]).unwrap();
    assert_eq!(val, 0);
    assert_eq!(consumed, 2);
}

#[test]
fn vlq_tenth_byte_bits_past_sixty_four_are_dropped() {
    // Ten groups carry up to 70 bits; the value is the low 64 of them.
    let mut bytes = vec![0x80u8; 9];
    bytes.push(0x40); // contributes 1 << 69 and nothing below
    let (val, consumed) = vlq_from_bytes(&bytes).unwrap();
    assert_eq!(val, 0);
    assert_eq!(consumed, 10);
}

fn assert_zig_zag_round_trip(n: i64) {
    assert_eq!(zig_zag_to_i64(encode_zig_zag(n)), n);
}

#[test]
fn zig_zag_round_trip_extremes_16() {
    for n in [i16::MIN as i64, -1, 0, 1, i16::MAX as i64] {
        assert_zig_zag_round_trip(n);
    }
}

#[test]
fn zig_zag_round_trip_extremes_32() {
    for n in [i32::MIN as i64, -1, 0, 1, i32::MAX as i64] {
        assert_zig_zag_round_trip(n);
    }
}

#[test]
fn zig_zag_round_trip_extremes_64() {
    for n in [i64::MIN, -1, 0, 1, i64::MAX] {
        assert_zig_zag_round_trip(n);
    }
}

#[test]
fn zig_zag_known_values() {
    assert_eq!(encode_zig_zag(0), 0);
    assert_eq!(encode_zig_zag(-1), 1);
    assert_eq!(encode_zig_zag(1), 2);
    assert_eq!(encode_zig_zag(-2), 3);
    assert_eq!(encode_zig_zag(2), 4);
    assert_eq!(encode_zig_zag(i64::MAX), u64::MAX - 1);
    assert_eq!(encode_zig_zag(i64::MIN), u64::MAX);
    assert_eq!(zig_zag_to_i64(0), 0);
    assert_eq!(zig_zag_to_i64(1), -1);
    assert_eq!(zig_zag_to_i64(2), 1);
    assert_eq!(zig_zag_to_i64(u64::MAX), i64::MIN);
}
