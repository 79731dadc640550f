use format_study::decoder::{FieldHeader, TCompactSimdInputProtocol};
use format_study::types::TypeTag;
use format_study::varint::{encode_vlq, encode_zig_zag};

// A record shaped like columnar footer metadata: one struct holding a list
// of many sub-structures, each with a few required scalar fields.

fn push_field_header(buf: &mut Vec<u8>, delta: u8, type_code: u8) {
    buf.push((delta << 4) | type_code);
}

fn push_zig_zag(buf: &mut Vec<u8>, n: i64) {
    buf.extend(encode_vlq(encode_zig_zag(n)));
}

fn encode_record(count: u64) -> Vec<u8> {
    let mut buf: Vec<u8> = Vec::new();
    // Field 1: i32, the version.
    push_field_header(&mut buf, 1, 0x05);
    push_zig_zag(&mut buf, 7);
    // Field 2: list of structs, one per column chunk.
    push_field_header(&mut buf, 1, 0x09);
    buf.push(0xfc); // element type struct, count overflows
    buf.extend(encode_vlq(count));
    for k in 0..count {
        // Field 1: i64, an offset.
        push_field_header(&mut buf, 1, 0x06);
        push_zig_zag(&mut buf, 1000 + k as i64);
        // Field 2: i64, a size.
        push_field_header(&mut buf, 1, 0x06);
        push_zig_zag(&mut buf, -(k as i64));
        // Field 3: bool inline true on even rows, false on odd.
        buf.push(if k % 2 == 0 { 0x11 } else { 0x12 });
        buf.push(0x00); // stop
    }
    // Field 3: i64, the row count.
    push_field_header(&mut buf, 1, 0x06);
    push_zig_zag(&mut buf, 123_456_789);
    buf.push(0x00); // stop
    buf
}

#[test]
fn hundred_thousand_substructures_round_trip() {
    let count: u64 = 100_000;
    let buf = encode_record(count);
    let mut dec = TCompactSimdInputProtocol::new(&buf);

    dec.read_struct_begin();
    assert_eq!(
        dec.read_field_begin(),
        Ok(FieldHeader::Field { field_type: TypeTag::I32, id: 1 })
    );
    assert_eq!(dec.read_i32(), Ok(7));
    dec.read_field_end();

    assert_eq!(
        dec.read_field_begin(),
        Ok(FieldHeader::Field { field_type: TypeTag::List, id: 2 })
    );
    let l = dec.read_list_begin().unwrap();
    assert_eq!(l.element_type, TypeTag::Struct);
    assert_eq!(l.size, count as i32);
    for k in 0..count {
        dec.read_struct_begin();
        assert_eq!(
            dec.read_field_begin(),
            Ok(FieldHeader::Field { field_type: TypeTag::I64, id: 1 })
        );
        assert_eq!(dec.read_i64(), Ok(1000 + k as i64));
        dec.read_field_end();
        assert_eq!(
            dec.read_field_begin(),
            Ok(FieldHeader::Field { field_type: TypeTag::I64, id: 2 })
        );
        assert_eq!(dec.read_i64(), Ok(-(k as i64)));
        dec.read_field_end();
        assert_eq!(
            dec.read_field_begin(),
            Ok(FieldHeader::Field { field_type: TypeTag::Bool, id: 3 })
        );
        assert_eq!(dec.read_bool(), Ok(k % 2 == 0));
        dec.read_field_end();
        assert_eq!(dec.read_field_begin(), Ok(FieldHeader::Stop));
        dec.read_struct_end();
    }
    dec.read_list_end();
    dec.read_field_end();

    assert_eq!(
        dec.read_field_begin(),
        Ok(FieldHeader::Field { field_type: TypeTag::I64, id: 3 })
    );
    assert_eq!(dec.read_i64(), Ok(123_456_789));
    dec.read_field_end();
    assert_eq!(dec.read_field_begin(), Ok(FieldHeader::Stop));
    dec.read_struct_end();
    assert_eq!(dec.as_slice().len(), 0);
}
