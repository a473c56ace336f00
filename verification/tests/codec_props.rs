use dns::errors::dec_string;
use dns::{
    append_u16, parse, write_u16, write_u32, Class, DnsMsgError, Error, LabelTable, Qclass, Qtype,
    Question, Type, encode_labels, OPCODE, RCODE,
};

#[test]
fn end_to_end_query() {
    let mut buffer = vec![0u8; 12];
    buffer[5] = 1; // qdcount
    let mut table = LabelTable::new();
    encode_labels(
        &mut buffer,
        &mut table,
        &vec![b"google".to_vec(), b"com".to_vec()],
    );
    append_u16(&mut buffer, 1); // qtype A
    append_u16(&mut buffer, 1); // qclass IN
    buffer.resize(512, 0);

    let result = parse(&buffer).unwrap();
    assert_eq!(
        &vec![Question::new(
            vec![b"google".to_vec(), b"com".to_vec()],
            Qtype::A,
            Qclass::IN
        )],
        result.questions()
    );
    assert_eq!(0, result.answers().len());
}

#[test]
fn too_short_a_buffer_is_out_of_bounds() {
    let result = parse(&[0u8; 1]);
    assert_eq!(
        Err(Error::new(
            DnsMsgError::OutOfBounds,
            "Out of bounds read at index 0".to_string()
        )),
        result
    );

    // A header that promises a question the buffer does not hold.
    let mut buffer = vec![0u8; 12];
    buffer[5] = 1;
    let result = parse(&buffer);
    assert_eq!(
        Err(Error::new(
            DnsMsgError::OutOfBounds,
            "Out of bounds read at index 12".to_string()
        )),
        result
    );
}

#[test]
fn a_truncated_label_is_out_of_bounds() {
    let mut buffer = vec![0u8; 12];
    buffer[5] = 1;
    buffer.push(63); // a label of 63 bytes, none of which follow
    let result = parse(&buffer);
    assert_eq!(
        Err(Error::new(
            DnsMsgError::OutOfBounds,
            "Out of bounds read at index 13".to_string()
        )),
        result
    );
}

#[test]
fn malformed_label_text_is_invalid_data() {
    let mut buffer = vec![0u8; 12];
    buffer[5] = 1;
    buffer.push(1);
    buffer.push(0xff); // not well-formed text
    buffer.push(0);
    append_u16(&mut buffer, 1);
    append_u16(&mut buffer, 1);
    let result = parse(&buffer);
    assert_eq!(
        Err(Error::new(
            DnsMsgError::InvalidData,
            "Invalid label text at index 13".to_string()
        )),
        result
    );
}

#[test]
fn unknown_qtype_and_qclass_are_invalid_data() {
    let mut buffer = vec![0u8; 12];
    buffer[5] = 1;
    buffer.push(0); // the root name
    append_u16(&mut buffer, 99);
    append_u16(&mut buffer, 1);
    assert_eq!(
        Err(Error::new(
            DnsMsgError::InvalidData,
            "Invalid qtype: 99".to_string()
        )),
        parse(&buffer)
    );

    let mut buffer = vec![0u8; 12];
    buffer[5] = 1;
    buffer.push(0);
    append_u16(&mut buffer, 1);
    append_u16(&mut buffer, 99);
    assert_eq!(
        Err(Error::new(
            DnsMsgError::InvalidData,
            "Invalid qclass: 99".to_string()
        )),
        parse(&buffer)
    );
}

#[test]
fn unsupported_record_type_is_reported() {
    let mut buffer = vec![0u8; 12];
    buffer[7] = 1; // ancount
    buffer.push(0); // the root name
    append_u16(&mut buffer, 2); // NS: known, not decoded
    append_u16(&mut buffer, 1); // class IN
    append_u16(&mut buffer, 0); // TTL
    append_u16(&mut buffer, 0);
    append_u16(&mut buffer, 4); // len
    buffer.extend_from_slice(&[1, 2, 3, 4]);
    assert_eq!(
        Err(Error::new(
            DnsMsgError::InvalidData,
            "Record type not supported: 2".to_string()
        )),
        parse(&buffer)
    );
}

#[test]
fn decimal_rendering_is_exact() {
    assert_eq!("0", dec_string(0).as_str());
    assert_eq!("7", dec_string(7).as_str());
    assert_eq!("10", dec_string(10).as_str());
    assert_eq!("255", dec_string(255).as_str());
    assert_eq!("65535", dec_string(65535).as_str());
    assert_eq!("1048576", dec_string(1048576).as_str());
}

#[test]
fn enum_wire_values_are_exact() {
    assert_eq!(1, Qtype::A.value());
    assert_eq!(255, Qtype::Wildcard.value());
    assert_eq!(Some(Qtype::MX), Qtype::from_u16(15));
    assert_eq!(None, Qtype::from_u16(17));
    assert_eq!(4, Qclass::HS.value());
    assert_eq!(None, Qclass::from_u16(5));
    assert_eq!(Some(Type::TXT), Type::from_u16(16));
    assert_eq!(None, Type::from_u16(252));
    assert_eq!(Some(Class::Wildcard), Class::from_u16(255));
    assert_eq!(2, OPCODE::STATUS.value());
    assert_eq!(None, OPCODE::from_u8(3));
    assert_eq!(5, RCODE::Refused.value());
    assert_eq!(None, RCODE::from_u8(6));
}

#[test]
fn primitive_writers_are_big_endian() {
    let mut buffer = vec![0u8; 8];
    let mut pos: usize = 0;
    write_u16(&mut buffer, &mut pos, 0x1234);
    assert_eq!(2, pos);
    write_u32(&mut buffer, &mut pos, 0x8090a0b0);
    assert_eq!(6, pos);
    assert_eq!(&buffer, &[0x12, 0x34, 0x80, 0x90, 0xa0, 0xb0, 0, 0]);

    let mut buffer: Vec<u8> = Vec::new();
    append_u16(&mut buffer, 0xbeef);
    assert_eq!(&buffer, &[0xbe, 0xef]);
}
