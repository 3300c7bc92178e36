use aof_decoder::wire::{read_ne_u64, read_ne_u8, write_u64, U64_LEN};

#[test]
fn length_fields_are_eight_bytes_wide() {
    assert_eq!(U64_LEN, 8);
}

#[test]
fn read_u8_takes_the_first_byte() {
    let data = [7u8, 8, 9];
    let mut input: &[u8] = &data;
    assert_eq!(read_ne_u8(&mut input), 7);
    assert_eq!(input, &[8u8, 9][..]);
    assert_eq!(read_ne_u8(&mut input), 8);
    assert_eq!(read_ne_u8(&mut input), 9);
    assert!(input.is_empty());
}

#[test]
fn read_u64_is_little_endian() {
    let data = [0x01u8, 0x02, 0x03, 0x04, 0x05, 0x06, 0x07, 0x08, 0xff];
    let mut input: &[u8] = &data;
    assert_eq!(read_ne_u64(&mut input), 0x0807_0605_0403_0201);
    assert_eq!(input, &[0xffu8][..]);
}

#[test]
fn read_u64_weighs_each_byte() {
    for i in 0..8usize {
        let mut data = [0u8; 8];
        data[i] = 1;
        let mut input: &[u8] = &data;
        assert_eq!(read_ne_u64(&mut input), 1u64 << (8 * i));
        assert!(input.is_empty());
    }
}

#[test]
fn read_u64_reaches_both_ends_of_the_range() {
    let zeros = [0u8; 8];
    let mut input: &[u8] = &zeros;
    assert_eq!(read_ne_u64(&mut input), 0);
    let ones = [0xffu8; 8];
    let mut input: &[u8] = &ones;
    assert_eq!(read_ne_u64(&mut input), u64::MAX);
}

#[test]
fn read_u64_agrees_with_std() {
    let data = [0xdeu8, 0xad, 0xbe, 0xef, 0x00, 0x11, 0x22, 0x33];
    let mut input: &[u8] = &data;
    assert_eq!(read_ne_u64(&mut input), u64::from_le_bytes(data));
}

#[test]
fn write_u64_appends_least_significant_byte_first() {
    let mut out = vec![9u8];
    write_u64(&mut out, 0x0102_0304_0506_0708);
    assert_eq!(out, vec![9u8, 8, 7, 6, 5, 4, 3, 2, 1]);
}

#[test]
fn write_u64_agrees_with_std() {
    for x in [0u64, 1, 255, 256, 10_000, 0x1234_5678_9abc_def0, u64::MAX - 1, u64::MAX] {
        let mut out = Vec::new();
        write_u64(&mut out, x);
        assert_eq!(out, x.to_le_bytes().to_vec());
    }
}

#[test]
fn written_u64_reads_back() {
    for x in [0u64, 1, 255, 256, 65_535, 65_536, 10_000, 1 << 32, (1 << 56) + 3, u64::MAX] {
        let mut out = Vec::new();
        write_u64(&mut out, x);
        assert_eq!(out.len(), 8);
        let mut input: &[u8] = &out;
        assert_eq!(read_ne_u64(&mut input), x);
        assert!(input.is_empty());
    }
}
