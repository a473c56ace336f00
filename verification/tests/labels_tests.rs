use dns::{encode_labels, parse_labels, LabelTable};

#[test]
fn encode_labels_should_prepend_byte_length() {
    let mut buffer: Vec<u8> = Vec::new();
    let mut table = LabelTable::new();
    encode_labels(&mut buffer, &mut table, &vec![b"abcd".to_vec()]);
    assert_eq!(4, buffer[0]);

    let mut buffer: Vec<u8> = Vec::new();
    let mut table = LabelTable::new();
    encode_labels(&mut buffer, &mut table, &vec![b"xxx".to_vec()]);
    assert_eq!(3, buffer[0]);
}

#[test]
fn encode_labels_should_encode_string() {
    let mut buffer: Vec<u8> = Vec::new();
    let mut table = LabelTable::new();
    encode_labels(
        &mut buffer,
        &mut table,
        &vec![b"abcd".to_vec(), b"aao".to_vec()],
    );
    assert_eq!(&buffer, &[4, 97, 98, 99, 100, 3, 97, 97, 111, 0]);
}

#[test]
fn encode_label_should_add_data_to_map() {
    let mut buffer = vec![0u8; 5];
    let mut table = LabelTable::new();
    encode_labels(
        &mut buffer,
        &mut table,
        &vec![b"aa".to_vec(), b"bb".to_vec()],
    );

    assert_eq!(
        Some(5),
        table.get(&vec![b"aa".to_vec(), b"bb".to_vec()])
    );
}

#[test]
fn encode_label_should_write_ref() {
    let mut table = LabelTable::new();
    table.insert(vec![b"aa".to_vec(), b"bb".to_vec()], 5);

    let mut buffer: Vec<u8> = Vec::new();
    encode_labels(
        &mut buffer,
        &mut table,
        &vec![b"aa".to_vec(), b"bb".to_vec()],
    );
    assert_eq!(&buffer[0..2], &[0xc0, 5]);
}

#[test]
fn table_misses_names_it_never_saw() {
    let mut table = LabelTable::new();
    table.insert(vec![b"aa".to_vec(), b"bb".to_vec()], 5);
    assert_eq!(None, table.get(&vec![b"aa".to_vec()]));
    assert_eq!(None, table.get(&vec![b"bb".to_vec()]));
}

#[test]
fn parse_labels_follows_a_pointer_and_keeps_the_cursor() {
    // One name "a" at offset 0, and at offset 3 a pointer back to it.
    let data: Vec<u8> = vec![1, 97, 0, 0xc0, 0];

    let mut pos: usize = 0;
    let labels = parse_labels(&data, &mut pos).unwrap();
    assert_eq!(vec![b"a".to_vec()], labels);
    assert_eq!(3, pos);

    let mut pos: usize = 3;
    let labels = parse_labels(&data, &mut pos).unwrap();
    assert_eq!(vec![b"a".to_vec()], labels);
    assert_eq!(5, pos);
}

#[test]
fn parse_labels_reads_a_label_after_a_pointer_target() {
    // The name at offset 5 is "b" followed by a pointer to "a": the
    // pointer ends the name, expanding through its target.
    let data: Vec<u8> = vec![1, 97, 0, 0, 0, 1, 98, 0xc0, 0];

    let mut pos: usize = 5;
    let labels = parse_labels(&data, &mut pos).unwrap();
    assert_eq!(vec![b"b".to_vec(), b"a".to_vec()], labels);
    assert_eq!(9, pos);
}

#[test]
fn parse_labels_follows_a_fourteen_bit_pointer() {
    // A name "a" written at offset 260, and at offset 0 a pointer whose
    // high bits are not zero: 0xc1 0x04 encodes the target 260.
    let mut data = vec![0u8; 300];
    data[0] = 0xc1;
    data[1] = 4;
    data[260] = 1;
    data[261] = 97;
    data[262] = 0;

    let mut pos: usize = 0;
    let labels = parse_labels(&data, &mut pos).unwrap();
    assert_eq!(vec![b"a".to_vec()], labels);
    assert_eq!(2, pos);
}
