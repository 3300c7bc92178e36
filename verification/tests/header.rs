use aof_decoder::error::DecodeError;
use aof_decoder::header::{decode_header, encode_header, RecordHeader, HEADER_LEN};

#[test]
fn header_is_seventeen_bytes() {
    assert_eq!(HEADER_LEN, 17);
}

#[test]
fn decode_header_reads_opcode_and_lengths() {
    let bytes = [0x01u8, 0x03, 0, 0, 0, 0, 0, 0, 0, 0x05, 0, 0, 0, 0, 0, 0, 0];
    assert_eq!(
        decode_header(&bytes),
        Ok(RecordHeader { opcode: 1, key_length: 3, value_length: 5 })
    );
}

#[test]
fn decode_header_reads_lengths_little_endian() {
    let bytes = [
        0xabu8, 0x10, 0x27, 0, 0, 0, 0, 0, 0, 0x01, 0x02, 0x03, 0x04, 0x05, 0x06, 0x07, 0x08,
    ];
    assert_eq!(
        decode_header(&bytes),
        Ok(RecordHeader { opcode: 0xab, key_length: 10_000, value_length: 0x0807_0605_0403_0201 })
    );
}

#[test]
fn decode_header_accepts_the_largest_lengths() {
    let bytes = [0xffu8; 17];
    assert_eq!(
        decode_header(&bytes),
        Ok(RecordHeader { opcode: 255, key_length: u64::MAX, value_length: u64::MAX })
    );
}

#[test]
fn decode_header_refuses_fewer_than_seventeen_bytes() {
    let bytes = [0x01u8, 0x03, 0, 0, 0, 0, 0, 0, 0, 0x05, 0, 0, 0, 0, 0, 0, 0];
    for n in 0..17usize {
        assert_eq!(decode_header(&bytes[..n]), Err(DecodeError::TruncatedHeader));
    }
}

#[test]
fn decode_header_looks_at_the_first_seventeen_bytes_only() {
    let mut bytes = vec![0x02u8, 0x01, 0, 0, 0, 0, 0, 0, 0, 0x02, 0, 0, 0, 0, 0, 0, 0];
    bytes.extend_from_slice(&[0xff, 0xff, 0xff]);
    assert_eq!(
        decode_header(&bytes),
        Ok(RecordHeader { opcode: 2, key_length: 1, value_length: 2 })
    );
}

#[test]
fn encode_header_lays_out_opcode_then_lengths() {
    let header = RecordHeader { opcode: 1, key_length: 3, value_length: 5 };
    assert_eq!(
        encode_header(&header),
        vec![0x01u8, 0x03, 0, 0, 0, 0, 0, 0, 0, 0x05, 0, 0, 0, 0, 0, 0, 0]
    );
}

#[test]
fn encoded_header_decodes_to_itself() {
    let headers = [
        RecordHeader { opcode: 0, key_length: 0, value_length: 0 },
        RecordHeader { opcode: 1, key_length: 3, value_length: 5 },
        RecordHeader { opcode: 200, key_length: 10_000, value_length: 10_000 },
        RecordHeader { opcode: 255, key_length: u64::MAX, value_length: 1 << 40 },
    ];
    for header in headers {
        let bytes = encode_header(&header);
        assert_eq!(bytes.len(), HEADER_LEN);
        assert_eq!(decode_header(&bytes), Ok(header));
    }
}

#[test]
fn decoded_header_encodes_to_the_same_bytes() {
    let bytes = [
        0x7fu8, 0x11, 0x22, 0x33, 0x44, 0x55, 0x66, 0x77, 0x88, 0x99, 0xaa, 0xbb, 0xcc, 0xdd,
        0xee, 0xff, 0x00,
    ];
    let header = decode_header(&bytes).unwrap();
    assert_eq!(encode_header(&header), bytes.to_vec());
}
