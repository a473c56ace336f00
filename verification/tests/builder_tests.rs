use std::collections::HashSet;

use dns::{parse, DnsMessageBuilder, Qclass, Qtype, Question, OPCODE, QR, RCODE};

#[test]
fn should_init_with_default_id() {
    let num_tests: usize = 5;
    let mut ids = HashSet::new();

    for _ in 0..num_tests {
        let buffer = DnsMessageBuilder::new().build();
        let result = parse(&buffer).unwrap();
        ids.insert(result.id());
    }

    assert_eq!(num_tests, ids.len());
}

#[test]
fn should_allow_id_override() {
    let buffer = DnsMessageBuilder::new().with_id(5).build();
    let result = parse(&buffer).unwrap();
    assert_eq!(5, result.id());
}

#[test]
fn should_default_to_query() {
    let buffer = DnsMessageBuilder::new().build();
    let result = parse(&buffer).unwrap();
    assert_eq!(QR::QUERY, result.qr());
}

#[test]
fn should_allow_qr_override() {
    let buffer = DnsMessageBuilder::new().with_qr(QR::RESPONSE).build();
    let result = parse(&buffer).unwrap();
    assert_eq!(QR::RESPONSE, result.qr());
}

#[test]
fn should_default_to_query_opcode() {
    let buffer = DnsMessageBuilder::new().build();
    let result = parse(&buffer).unwrap();
    assert_eq!(OPCODE::QUERY, result.opcode());
}

#[test]
fn should_allow_opcode_override() {
    let buffer = DnsMessageBuilder::new().with_opcode(OPCODE::IQUERY).build();
    let result = parse(&buffer).unwrap();
    assert_eq!(QR::QUERY, result.qr());
    assert_eq!(OPCODE::IQUERY, result.opcode());
}

#[test]
fn should_default_to_non_authoritative_answer() {
    let buffer = DnsMessageBuilder::new().build();
    let result = parse(&buffer).unwrap();
    assert_eq!(false, result.aa());
}

#[test]
fn should_allow_aa_override() {
    let buffer = DnsMessageBuilder::new().with_aa(true).build();
    let result = parse(&buffer).unwrap();
    assert!(result.aa());
}

#[test]
fn should_default_to_non_truncated_message() {
    let buffer = DnsMessageBuilder::new().build();
    let result = parse(&buffer).unwrap();
    assert_eq!(false, result.tc());
}

#[test]
fn should_default_to_no_resultursion_desired() {
    let buffer = DnsMessageBuilder::new().build();
    let result = parse(&buffer).unwrap();
    assert_eq!(false, result.rd());
}

#[test]
fn should_allow_setting_resultursion_desired() {
    let buffer = DnsMessageBuilder::new().with_rd(true).build();
    let result = parse(&buffer).unwrap();
    assert!(result.rd());
}

#[test]
fn should_default_to_no_resultursion_available() {
    let buffer = DnsMessageBuilder::new().build();
    let result = parse(&buffer).unwrap();
    assert_eq!(false, result.ra());
}

#[test]
fn should_allow_setting_resultursion_avaiable() {
    let buffer = DnsMessageBuilder::new().with_ra(true).build();
    let result = parse(&buffer).unwrap();
    assert!(result.ra());
}

#[test]
fn should_default_to_zeroed_dnssec_bits() {
    let buffer = DnsMessageBuilder::new().build();
    let result = parse(&buffer).unwrap();
    assert_eq!(0, result.dnssec() & 0b_0111_0000);
}

#[test]
fn should_allow_setting_dnssec_bits() {
    let buffer = DnsMessageBuilder::new().with_dnssec_bits(0xff).build();
    let result = parse(&buffer).unwrap();
    assert_eq!(0b_0000_0111, result.dnssec());
}

#[test]
fn should_default_to_response_code_ok() {
    let buffer = DnsMessageBuilder::new().build();
    let result = parse(&buffer).unwrap();
    assert_eq!(RCODE::NoError, result.rcode());
}

#[test]
fn should_allow_setting_the_response_code() {
    let buffer = DnsMessageBuilder::new().with_rcode(RCODE::NotImplemented).build();
    let result = parse(&buffer).unwrap();
    assert_eq!(RCODE::NotImplemented, result.rcode());
}

#[test]
fn should_allow_adding_questions() {
    let buffer = DnsMessageBuilder::new()
        .add_question(Question::new(
            vec![b"www".to_vec(), b"aaa".to_vec()],
            Qtype::MD,
            Qclass::Wildcard,
        ))
        .add_question(Question::new(
            vec![b"heise".to_vec(), b"de".to_vec()],
            Qtype::A,
            Qclass::IN,
        ))
        .build();
    let result = parse(&buffer).unwrap();
    assert_eq!(
        &vec![
            Question::new(
                vec![b"www".to_vec(), b"aaa".to_vec()],
                Qtype::MD,
                Qclass::Wildcard
            ),
            Question::new(vec![b"heise".to_vec(), b"de".to_vec()], Qtype::A, Qclass::IN),
        ],
        result.questions()
    );
}

#[test]
fn should_build_with_label_refs() {
    let buffer = DnsMessageBuilder::new()
        .add_question(Question::new(
            vec![b"www".to_vec()],
            Qtype::MD,
            Qclass::Wildcard,
        ))
        .add_question(Question::new(
            vec![b"www".to_vec(), b"aaa".to_vec()],
            Qtype::MD,
            Qclass::Wildcard,
        ))
        .add_question(Question::new(
            vec![b"xxx".to_vec(), b"aaa".to_vec(), b"bbb".to_vec()],
            Qtype::MD,
            Qclass::Wildcard,
        ))
        .build();

    // The first name is written in full and recorded.
    assert_eq!(&buffer[12..17], &[3, 119, 119, 119, 0]);

    // The table records whole remaining suffixes, so a name that only
    // starts like an earlier one is written in full again.
    assert_eq!(&buffer[21..25], &[3, 119, 119, 119]);
    assert_eq!(&buffer[25..29], &[3, 97, 97, 97]);
    assert_eq!(buffer[29], 0);

    // The same goes for a name that only shares a label in the middle.
    assert_eq!(&buffer[34..38], &[3, 120, 120, 120]);
    assert_eq!(&buffer[38..42], &[3, 97, 97, 97]);
    assert_eq!(&buffer[42..46], &[3, 98, 98, 98]);
    assert_eq!(buffer[46], 0);

    // Decoding reproduces all three names.
    let result = parse(&buffer).unwrap();
    assert_eq!(3, result.questions().len());
    assert_eq!(
        vec![b"xxx".to_vec(), b"aaa".to_vec(), b"bbb".to_vec()],
        result.questions()[2].labels
    );
}

#[test]
fn shared_suffix_compresses_to_a_pointer() {
    let buffer = DnsMessageBuilder::new()
        .add_question(Question::new(
            vec![b"www".to_vec(), b"aaa".to_vec()],
            Qtype::A,
            Qclass::IN,
        ))
        .add_question(Question::new(
            vec![b"heise".to_vec(), b"de".to_vec()],
            Qtype::A,
            Qclass::IN,
        ))
        .add_question(Question::new(
            vec![b"foo".to_vec(), b"aaa".to_vec()],
            Qtype::A,
            Qclass::IN,
        ))
        .build();

    // First name in full at 12: [3]www[3]aaa[0]; the suffix "aaa" was
    // recorded at offset 16.
    assert_eq!(&buffer[12..20], &[3, 119, 119, 119, 3, 97, 97, 97]);
    assert_eq!(buffer[20], 0);

    // The third name writes its fresh label, then points back at the
    // shared suffix instead of re-emitting it.
    assert_eq!(&buffer[39..43], &[3, 102, 111, 111]);
    assert_eq!(&buffer[43..45], &[0xc0, 16]);

    // Decoding that buffer yields the original expanded label sequences.
    let result = parse(&buffer).unwrap();
    assert_eq!(
        &vec![
            Question::new(vec![b"www".to_vec(), b"aaa".to_vec()], Qtype::A, Qclass::IN),
            Question::new(
                vec![b"heise".to_vec(), b"de".to_vec()],
                Qtype::A,
                Qclass::IN
            ),
            Question::new(vec![b"foo".to_vec(), b"aaa".to_vec()], Qtype::A, Qclass::IN),
        ],
        result.questions()
    );
}

#[test]
fn full_round_trip_of_flags_and_questions() {
    let buffer = DnsMessageBuilder::new()
        .with_id(4660)
        .with_qr(QR::RESPONSE)
        .with_opcode(OPCODE::STATUS)
        .with_aa(true)
        .with_rd(true)
        .with_ra(true)
        .with_dnssec_bits(5)
        .with_rcode(RCODE::Refused)
        .add_question(Question::new(
            vec![b"google".to_vec(), b"com".to_vec()],
            Qtype::MX,
            Qclass::CH,
        ))
        .build();
    assert_eq!(512, buffer.len());
    let result = parse(&buffer).unwrap();
    assert_eq!(4660, result.id());
    assert_eq!(QR::RESPONSE, result.qr());
    assert_eq!(OPCODE::STATUS, result.opcode());
    assert!(result.aa());
    assert_eq!(false, result.tc());
    assert!(result.rd());
    assert!(result.ra());
    assert_eq!(5, result.dnssec());
    assert_eq!(RCODE::Refused, result.rcode());
    assert_eq!(
        &vec![Question::new(
            vec![b"google".to_vec(), b"com".to_vec()],
            Qtype::MX,
            Qclass::CH
        )],
        result.questions()
    );
    assert_eq!(0, result.answers().len());
}
