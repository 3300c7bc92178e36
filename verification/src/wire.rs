//! Fixed-width integers as they lie on the wire.
//!
//! Every multi-byte integer of the log format is little-endian, on every
//! platform: byte `i` of a field carries weight `256^i`.

use vstd::prelude::*;

verus! {

/// Width in bytes of a length field.
pub const U64_LEN: usize = 8;

/// The number that the first eight bytes of `b` spell in little-endian order.
pub open spec fn le_u64(b: Seq<u8>) -> int
    recommends
        b.len() >= 8,
{
    b[0] as int + 0x100 * (b[1] as int) + 0x1_0000 * (b[2] as int) + 0x100_0000 * (b[3] as int)
        + 0x1_0000_0000 * (b[4] as int) + 0x100_0000_0000 * (b[5] as int) + 0x1_0000_0000_0000 * (
    b[6] as int) + 0x100_0000_0000_0000 * (b[7] as int)
}

/// The eight bytes that spell `x` in little-endian order.
pub open spec fn le_bytes(x: u64) -> Seq<u8> {
    seq![
        (x % 0x100) as u8,
        (x / 0x100 % 0x100) as u8,
        (x / 0x1_0000 % 0x100) as u8,
        (x / 0x100_0000 % 0x100) as u8,
        (x / 0x1_0000_0000 % 0x100) as u8,
        (x / 0x100_0000_0000 % 0x100) as u8,
        (x / 0x1_0000_0000_0000 % 0x100) as u8,
        (x / 0x100_0000_0000_0000 % 0x100) as u8,
    ]
}

/// Eight bytes never spell more than a `u64` holds.
pub proof fn lemma_le_u64_bounds(b: Seq<u8>)
    requires
        b.len() >= 8,
    ensures
        0 <= le_u64(b) <= u64::MAX,
{
}

/// Dividing by a power of 256 is dividing by 256 that many times.
proof fn lemma_shift_by_bytes(x: u64)
    ensures
        x / 0x1_0000 == x / 0x100 / 0x100,
        x / 0x100_0000 == x / 0x1_0000 / 0x100,
        x / 0x1_0000_0000 == x / 0x100_0000 / 0x100,
        x / 0x100_0000_0000 == x / 0x1_0000_0000 / 0x100,
        x / 0x1_0000_0000_0000 == x / 0x100_0000_0000 / 0x100,
        x / 0x100_0000_0000_0000 == x / 0x1_0000_0000_0000 / 0x100,
        x / 0x100_0000_0000_0000 < 0x100,
{
    assert(x / 0x1_0000 == x / 0x100 / 0x100);
    assert(x / 0x100_0000 == x / 0x1_0000 / 0x100);
    assert(x / 0x1_0000_0000 == x / 0x100_0000 / 0x100);
    assert(x / 0x100_0000_0000 == x / 0x1_0000_0000 / 0x100);
    assert(x / 0x1_0000_0000_0000 == x / 0x100_0000_0000 / 0x100);
    assert(x / 0x100_0000_0000_0000 == x / 0x1_0000_0000_0000 / 0x100);
}

/// Spelling a number and reading it back gives the number.
pub proof fn lemma_le_bytes_then_u64(x: u64)
    ensures
        le_bytes(x).len() == 8,
        le_u64(le_bytes(x)) == x,
{
    lemma_shift_by_bytes(x);
    let q1 = x / 0x100;
    let q2 = q1 / 0x100;
    let q3 = q2 / 0x100;
    let q4 = q3 / 0x100;
    let q5 = q4 / 0x100;
    let q6 = q5 / 0x100;
    let q7 = q6 / 0x100;
    assert(x == 0x100 * q1 + x % 0x100);
    assert(q1 == 0x100 * q2 + q1 % 0x100);
    assert(q2 == 0x100 * q3 + q2 % 0x100);
    assert(q3 == 0x100 * q4 + q3 % 0x100);
    assert(q4 == 0x100 * q5 + q4 % 0x100);
    assert(q5 == 0x100 * q6 + q5 % 0x100);
    assert(q6 == 0x100 * q7 + q6 % 0x100);
    assert(q7 == q7 % 0x100);
}

/// Reading eight bytes and spelling the number gives the same eight bytes.
pub proof fn lemma_le_u64_then_bytes(b: Seq<u8>)
    requires
        b.len() >= 8,
    ensures
        le_bytes(le_u64(b) as u64) == b.subrange(0, 8),
{
    let x = le_u64(b) as u64;
    lemma_shift_by_bytes(x);
    let t7 = b[7] as int;
    let t6 = b[6] as int + 0x100 * t7;
    let t5 = b[5] as int + 0x100 * t6;
    let t4 = b[4] as int + 0x100 * t5;
    let t3 = b[3] as int + 0x100 * t4;
    let t2 = b[2] as int + 0x100 * t3;
    let t1 = b[1] as int + 0x100 * t2;
    assert(x == b[0] as int + 0x100 * t1);
    assert(x / 0x100 == t1 && x % 0x100 == b[0]);
    assert(t1 / 0x100 == t2 && t1 % 0x100 == b[1]);
    assert(t2 / 0x100 == t3 && t2 % 0x100 == b[2]);
    assert(t3 / 0x100 == t4 && t3 % 0x100 == b[3]);
    assert(t4 / 0x100 == t5 && t4 % 0x100 == b[4]);
    assert(t5 / 0x100 == t6 && t5 % 0x100 == b[5]);
    assert(t6 / 0x100 == t7 && t6 % 0x100 == b[6]);
    assert(le_bytes(x) =~= b.subrange(0, 8));
}

/// Takes the first byte off `input` and returns it.
pub fn read_ne_u8<'a>(input: &mut &'a [u8]) -> (byte: u8)
    requires
        old(input)@.len() >= 1,
    ensures
        byte == old(input)@[0],
        final(input)@ == old(input)@.skip(1),
{
    let (int_bytes, rest) = input.split_at(1);
    *input = rest;
    int_bytes[0]
}

/// Takes the first eight bytes off `input` and returns the length field that
/// they spell, least significant byte first.
pub fn read_ne_u64<'a>(input: &mut &'a [u8]) -> (value: u64)
    requires
        old(input)@.len() >= 8,
    ensures
        value == le_u64(old(input)@),
        final(input)@ == old(input)@.skip(8),
{
    let (int_bytes, rest) = input.split_at(U64_LEN);
    *input = rest;
    let b0: u64 = int_bytes[0] as u64;
    let b1: u64 = int_bytes[1] as u64;
    let b2: u64 = int_bytes[2] as u64;
    let b3: u64 = int_bytes[3] as u64;
    let b4: u64 = int_bytes[4] as u64;
    let b5: u64 = int_bytes[5] as u64;
    let b6: u64 = int_bytes[6] as u64;
    let b7: u64 = int_bytes[7] as u64;
    b0 + 0x100 * b1 + 0x1_0000 * b2 + 0x100_0000 * b3 + 0x1_0000_0000 * b4 + 0x100_0000_0000 * b5
        + 0x1_0000_0000_0000 * b6 + 0x100_0000_0000_0000 * b7
}

/// Appends to `out` the eight bytes that spell `x`, least significant first.
pub fn write_u64(out: &mut Vec<u8>, x: u64)
    ensures
        final(out)@ == old(out)@ + le_bytes(x),
{
    out.push((x % 0x100) as u8);
    out.push((x / 0x100 % 0x100) as u8);
    out.push((x / 0x1_0000 % 0x100) as u8);
    out.push((x / 0x100_0000 % 0x100) as u8);
    out.push((x / 0x1_0000_0000 % 0x100) as u8);
    out.push((x / 0x100_0000_0000 % 0x100) as u8);
    out.push((x / 0x1_0000_0000_0000 % 0x100) as u8);
    out.push((x / 0x100_0000_0000_0000 % 0x100) as u8);
    assert(out@ =~= old(out)@ + le_bytes(x));
}

} // verus!
