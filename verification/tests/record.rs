use aof_decoder::header::RecordHeader;
use aof_decoder::record::Record;

#[test]
fn record_keeps_what_it_was_made_of() {
    let record = Record::new(1, b"abc".to_vec(), b"hello".to_vec());
    assert_eq!(record.opcode(), 1);
    assert_eq!(record.key(), b"abc");
    assert_eq!(record.value(), b"hello");
}

#[test]
fn record_header_declares_the_payload_lengths() {
    let record = Record::new(9, vec![0u8; 10_000], vec![1u8; 7]);
    assert_eq!(
        record.header(),
        RecordHeader { opcode: 9, key_length: 10_000, value_length: 7 }
    );
    let empty = Record::new(0, Vec::new(), Vec::new());
    assert_eq!(empty.header(), RecordHeader { opcode: 0, key_length: 0, value_length: 0 });
}

#[test]
fn record_encodes_as_header_key_value() {
    let record = Record::new(1, b"abc".to_vec(), b"hello".to_vec());
    let mut expected = vec![0x01u8, 0x03, 0, 0, 0, 0, 0, 0, 0, 0x05, 0, 0, 0, 0, 0, 0, 0];
    expected.extend_from_slice(b"abc");
    expected.extend_from_slice(b"hello");
    assert_eq!(record.encode(), expected);
}

#[test]
fn empty_record_encodes_as_a_bare_header() {
    let record = Record::new(4, Vec::new(), Vec::new());
    assert_eq!(record.encode(), vec![4u8, 0, 0, 0, 0, 0, 0, 0, 0, 0, 0, 0, 0, 0, 0, 0, 0]);
}

#[test]
fn record_clone_is_equal() {
    let record = Record::new(3, vec![0xff, 0x00], vec![0x80]);
    let copy = record.clone();
    assert_eq!(copy, record);
    assert_eq!(copy.key(), &[0xffu8, 0x00][..]);
    assert_eq!(copy.value(), &[0x80u8][..]);
}

#[test]
fn record_gives_up_its_parts() {
    let record = Record::new(5, b"k".to_vec(), b"vv".to_vec());
    assert_eq!(record.into_parts(), (5, b"k".to_vec(), b"vv".to_vec()));
}

#[test]
fn records_differ_by_any_part() {
    let record = Record::new(1, b"a".to_vec(), b"b".to_vec());
    assert_ne!(record, Record::new(2, b"a".to_vec(), b"b".to_vec()));
    assert_ne!(record, Record::new(1, b"x".to_vec(), b"b".to_vec()));
    assert_ne!(record, Record::new(1, b"a".to_vec(), b"y".to_vec()));
}
