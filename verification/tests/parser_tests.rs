use dns::{
    encode_labels, parse, append_u16, write_u16, Class, DnsMsgError, Error, Ipv4Address,
    LabelTable, Qclass, Qtype, Question, Record, RecordPayload, OPCODE, QR, RCODE,
};

#[test]
fn should_read_id() {
    let buffer = [0u8; 512];
    let result = parse(&buffer).unwrap();
    assert_eq!(0u16, result.id());

    let mut buffer = [0u8; 512];
    buffer[1] = 1;
    buffer[0] = 1;
    let result = parse(&buffer).unwrap();
    assert_eq!(0x0101u16, result.id());
}

#[test]
fn should_read_qr() {
    let mut buffer = [0u8; 512];
    buffer[0] = 0xff;
    buffer[1] = 0xff;

    let result = parse(&buffer).unwrap();
    assert_eq!(QR::QUERY, result.qr());

    let mut buffer = buffer.clone();
    buffer[2] = 0b_1000_0000;
    let result = parse(&buffer).unwrap();
    assert_eq!(QR::RESPONSE, result.qr());
}

#[test]
fn should_read_authoritative_answer() {
    let mut buffer = [0u8; 512];

    {
        let result = parse(&buffer).unwrap();
        assert_eq!(false, result.aa());
    }

    buffer[2] = 0b_0000_0100;
    let result = parse(&buffer).unwrap();
    assert_eq!(true, result.aa());
}

#[test]
fn should_read_opcodes() {
    let mut buffer = [0u8; 512];

    buffer[2] = 1;
    {
        let result = parse(&buffer).unwrap();
        assert_eq!(OPCODE::QUERY, result.opcode());
    }

    buffer[2] = 1 << 3;
    {
        let result = parse(&buffer).unwrap();
        assert_eq!(OPCODE::IQUERY, result.opcode());
    }

    buffer[2] = 2 << 3;
    {
        let result = parse(&buffer).unwrap();
        assert_eq!(OPCODE::STATUS, result.opcode());
    }

    for i in 3..16 {
        buffer[2] = i << 3;
        let result = parse(&buffer);
        let msg = format!("Unknown opcode {}", i);
        assert_eq!(Err(Error::new(DnsMsgError::InvalidData, msg)), result);
    }
}

#[test]
fn should_read_truncated_message() {
    let mut buffer = [0u8; 512];

    {
        let result = parse(&buffer).unwrap();
        assert_eq!(false, result.tc());
    }

    buffer[2] = 0b_0000_0010;
    let result = parse(&buffer).unwrap();
    assert_eq!(true, result.tc());
}

#[test]
fn should_read_recursion_desired() {
    let mut buffer = [0u8; 512];

    {
        let result = parse(&buffer).unwrap();
        assert_eq!(false, result.rd());
    }

    buffer[2] = 1;
    let result = parse(&buffer).unwrap();
    assert_eq!(true, result.rd());
}

#[test]
fn should_read_recursion_available() {
    let mut buffer = [0u8; 512];

    {
        let result = parse(&buffer).unwrap();
        assert_eq!(false, result.ra());
    }

    buffer[3] = 0b_1000_0000;
    let result = parse(&buffer).unwrap();
    assert_eq!(true, result.ra());
}

#[test]
fn should_read_dnssec_bits() {
    let mut buffer = [0u8; 512];

    for i in 0..8 {
        buffer[3] = i << 4;
        let result = parse(&buffer).unwrap();
        assert_eq!(i, result.dnssec());
    }
}

#[test]
fn should_read_response_code() {
    let mut buffer = [0u8; 512];

    let values = vec![
        (0, RCODE::NoError),
        (1, RCODE::FormatError),
        (2, RCODE::ServerFailure),
        (3, RCODE::NameError),
        (4, RCODE::NotImplemented),
        (5, RCODE::Refused),
    ];

    for (i, val) in values {
        buffer[3] = i;
        let result = parse(&buffer).unwrap();
        assert_eq!(val, result.rcode());
    }
    for i in 6..16 {
        buffer[3] = i;
        let result = parse(&buffer);
        let msg = format!("Unknown rcode value {}", i);
        assert_eq!(Err(Error::new(DnsMsgError::InvalidData, msg)), result);
    }
}

#[test]
fn should_read_one_question() {
    let mut buffer = vec![0u8; 12];
    buffer[5] = 1; // 1 question

    let mut table = LabelTable::new();
    encode_labels(
        &mut buffer,
        &mut table,
        &vec![b"www".to_vec(), b"google".to_vec(), b"com".to_vec()],
    );
    append_u16(&mut buffer, 1); // qtype A
    append_u16(&mut buffer, 1); // qclass IN
    buffer.resize(512, 0);

    let expected = Question::new(
        vec![b"www".to_vec(), b"google".to_vec(), b"com".to_vec()],
        Qtype::A,
        Qclass::IN,
    );

    let result = parse(&buffer).unwrap();
    assert_eq!(&vec![expected], result.questions());
}

#[test]
fn should_read_multiple_questions() {
    let mut buffer = vec![0u8; 12];
    buffer[5] = 2; // 2 questions

    let mut table = LabelTable::new();
    encode_labels(
        &mut buffer,
        &mut table,
        &vec![b"www".to_vec(), b"google".to_vec(), b"com".to_vec()],
    );
    append_u16(&mut buffer, 1); // qtype A
    append_u16(&mut buffer, 1); // qclass IN

    let mut table = LabelTable::new();
    encode_labels(
        &mut buffer,
        &mut table,
        &vec![b"www".to_vec(), b"heise".to_vec(), b"de".to_vec()],
    );
    append_u16(&mut buffer, 2); // qtype NS
    append_u16(&mut buffer, 2); // qclass CS
    buffer.resize(512, 0);

    let expected = vec![
        Question::new(
            vec![b"www".to_vec(), b"google".to_vec(), b"com".to_vec()],
            Qtype::A,
            Qclass::IN,
        ),
        Question::new(
            vec![b"www".to_vec(), b"heise".to_vec(), b"de".to_vec()],
            Qtype::NS,
            Qclass::CS,
        ),
    ];

    let result = parse(&buffer).unwrap();
    assert_eq!(&expected, result.questions());
}

#[test]
fn should_read_questions_with_label_refs() {
    let mut buffer = vec![0u8; 12];
    buffer[5] = 2; // 2 questions

    let mut table = LabelTable::new();
    encode_labels(
        &mut buffer,
        &mut table,
        &vec![b"google".to_vec(), b"com".to_vec()],
    );
    append_u16(&mut buffer, 1); // qtype A
    append_u16(&mut buffer, 1); // qclass IN

    append_u16(&mut buffer, 0xc000 | 12); // ref 12
    append_u16(&mut buffer, 2); // qtype NS
    append_u16(&mut buffer, 3); // qclass CH
    buffer.resize(64, 0);

    let expected = vec![
        Question::new(
            vec![b"google".to_vec(), b"com".to_vec()],
            Qtype::A,
            Qclass::IN,
        ),
        Question::new(
            vec![b"google".to_vec(), b"com".to_vec()],
            Qtype::NS,
            Qclass::CH,
        ),
    ];

    let result = parse(&buffer).unwrap();
    assert_eq!(&expected, result.questions());
}

#[test]
fn should_recognize_cyclic_label_refs() {
    let mut buffer = vec![0u8; 512];
    buffer[5] = 2; // 2 questions

    buffer[12] = 0xc0;
    let mut pos: usize = 14;
    write_u16(&mut buffer, &mut pos, 1); // qtype A
    write_u16(&mut buffer, &mut pos, 1); // qclass IN

    buffer[13] = pos as u8;
    buffer[pos] = 0xc0;
    buffer[pos + 1] = 12;
    pos += 2;
    write_u16(&mut buffer, &mut pos, 1); // qtype A
    write_u16(&mut buffer, &mut pos, 1); // qclass IN

    let result = parse(&buffer);
    let expected = Err(Error::new(
        DnsMsgError::CyclicLabelRef,
        "Encountered cyclic label reference at index 14".to_string(),
    ));
    assert_eq!(expected, result);
}

#[test]
fn should_read_arecord_answers() {
    let mut buffer = vec![0u8; 12];
    buffer[7] = 1; // 1 answer

    let mut table = LabelTable::new();
    encode_labels(
        &mut buffer,
        &mut table,
        &vec![b"google".to_vec(), b"com".to_vec()],
    );
    append_u16(&mut buffer, 1); // type A
    append_u16(&mut buffer, 1); // class IN
    append_u16(&mut buffer, 0); // TTL, high half
    append_u16(&mut buffer, 32); // TTL, low half
    append_u16(&mut buffer, 4); // len
    buffer.extend_from_slice(&[8, 16, 32, 64]); // IP
    buffer.resize(512, 0);

    let result = parse(&buffer).unwrap();
    let expectation = Record::new(
        vec![b"google".to_vec(), b"com".to_vec()],
        Class::IN,
        32,
        RecordPayload::A(Ipv4Address::new(8, 16, 32, 64)),
    );

    assert_eq!(&vec![expectation], result.answers());
}

#[test]
fn should_fail_on_invalid_arecord_data() {
    {
        let mut buffer = vec![0u8; 12];
        buffer[7] = 1; // 1 answer
        let mut table = LabelTable::new();
        encode_labels(
            &mut buffer,
            &mut table,
            &vec![b"google".to_vec(), b"com".to_vec()],
        );
        append_u16(&mut buffer, 18);
        buffer.resize(128, 0);
        assert_eq!(
            Err(Error::new(
                DnsMsgError::InvalidData,
                "Invalid type: 18".to_string()
            )),
            parse(&buffer)
        );
    }

    {
        let mut buffer = vec![0u8; 12];
        buffer[7] = 1; // 1 answer
        let mut table = LabelTable::new();
        encode_labels(
            &mut buffer,
            &mut table,
            &vec![b"google".to_vec(), b"com".to_vec()],
        );
        append_u16(&mut buffer, 1); // type A
        append_u16(&mut buffer, 5);
        buffer.resize(128, 0);
        assert_eq!(
            Err(Error::new(
                DnsMsgError::InvalidData,
                "Invalid class: 5".to_string()
            )),
            parse(&buffer)
        );
    }

    {
        let mut buffer = vec![0u8; 12];
        buffer[7] = 1; // 1 answer
        let mut table = LabelTable::new();
        encode_labels(
            &mut buffer,
            &mut table,
            &vec![b"google".to_vec(), b"com".to_vec()],
        );
        append_u16(&mut buffer, 1); // type A
        append_u16(&mut buffer, 1); // class IN
        append_u16(&mut buffer, 0); // TTL, high half
        append_u16(&mut buffer, 32); // TTL, low half
        append_u16(&mut buffer, 5); // len
        buffer.resize(128, 0);
        assert_eq!(
            Err(Error::new(
                DnsMsgError::InvalidData,
                "Length of 5 is invalid for type A".to_string()
            )),
            parse(&buffer)
        );
    }
}
