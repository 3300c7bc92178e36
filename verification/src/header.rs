//! The fixed-size header that frames every record.
//!
//! On the wire a header is one opcode byte, then the key's length, then the
//! value's length, each length an eight-byte little-endian integer.

use crate::error::DecodeError;
use crate::wire::{
    le_bytes, le_u64, lemma_le_bytes_then_u64, lemma_le_u64_bounds, lemma_le_u64_then_bytes,
    read_ne_u64, read_ne_u8, write_u64,
};
use vstd::prelude::*;

verus! {

/// Size in bytes of a header on the wire.
pub const HEADER_LEN: usize = 17;

/// The framing data of one record.
#[derive(Clone, Copy, Debug, PartialEq, Eq, Hash, Structural)]
pub struct RecordHeader {
    /// Tag of the operation. Every value is allowed; none is interpreted.
    pub opcode: u8,
    /// Number of key bytes that follow the header.
    pub key_length: u64,
    /// Number of value bytes that follow the key.
    pub value_length: u64,
}

/// The header that the first seventeen bytes of `b` spell.
pub open spec fn header_at(b: Seq<u8>) -> RecordHeader
    recommends
        b.len() >= HEADER_LEN,
{
    RecordHeader {
        opcode: b[0],
        key_length: le_u64(b.subrange(1, 9)) as u64,
        value_length: le_u64(b.subrange(9, 17)) as u64,
    }
}

/// The seventeen bytes that spell `h`.
pub open spec fn header_bytes(h: RecordHeader) -> Seq<u8> {
    seq![h.opcode] + le_bytes(h.key_length) + le_bytes(h.value_length)
}

/// Reads the header at the front of `bytes`. Fewer than seventeen bytes are
/// a truncated header; bytes past the seventeenth are not looked at.
pub fn decode_header(bytes: &[u8]) -> (decoded: Result<RecordHeader, DecodeError>)
    ensures
        bytes@.len() < HEADER_LEN ==> decoded == Err::<RecordHeader, DecodeError>(
            DecodeError::TruncatedHeader,
        ),
        bytes@.len() >= HEADER_LEN ==> decoded == Ok::<RecordHeader, DecodeError>(
            header_at(bytes@),
        ),
{
    if bytes.len() < HEADER_LEN {
        return Err(DecodeError::TruncatedHeader);
    }
    let mut input = bytes;
    let opcode = read_ne_u8(&mut input);
    let key_length = read_ne_u64(&mut input);
    let value_length = read_ne_u64(&mut input);
    proof {
        lemma_le_u64_bounds(bytes@.subrange(1, 9));
        lemma_le_u64_bounds(bytes@.subrange(9, 17));
    }
    Ok(RecordHeader { opcode, key_length, value_length })
}

/// Writes `header` out as its seventeen bytes.
pub fn encode_header(header: &RecordHeader) -> (bytes: Vec<u8>)
    ensures
        bytes@ == header_bytes(*header),
        bytes@.len() == HEADER_LEN,
{
    let mut bytes: Vec<u8> = Vec::with_capacity(HEADER_LEN);
    bytes.push(header.opcode);
    write_u64(&mut bytes, header.key_length);
    write_u64(&mut bytes, header.value_length);
    assert(bytes@ =~= header_bytes(*header));
    bytes
}

/// Only the first seventeen bytes count.
pub proof fn lemma_header_at_prefix(b: Seq<u8>, c: Seq<u8>)
    requires
        b.len() >= HEADER_LEN,
        c.len() >= HEADER_LEN,
        b.subrange(0, 17) == c.subrange(0, 17),
    ensures
        header_at(b) == header_at(c),
{
    assert forall|i: int| 0 <= i < 17 implies b[i] == c[i] by {
        assert(b[i] == b.subrange(0, 17)[i]);
        assert(c[i] == c.subrange(0, 17)[i]);
    }
    assert(b.subrange(1, 9) =~= c.subrange(1, 9));
    assert(b.subrange(9, 17) =~= c.subrange(9, 17));
}

/// A header that is written and read back is the same header, whatever
/// follows it on the wire.
pub proof fn lemma_header_round_trip(h: RecordHeader, tail: Seq<u8>)
    ensures
        header_bytes(h).len() == HEADER_LEN,
        header_at(header_bytes(h) + tail) == h,
{
    let b = header_bytes(h) + tail;
    lemma_le_bytes_then_u64(h.key_length);
    lemma_le_bytes_then_u64(h.value_length);
    assert(b.subrange(1, 9) =~= le_bytes(h.key_length));
    assert(b.subrange(9, 17) =~= le_bytes(h.value_length));
}

/// Seventeen bytes that are read as a header and written back are the same
/// seventeen bytes: no two headers share a spelling, and every spelling is
/// some header's.
pub proof fn lemma_header_bytes_of_header_at(b: Seq<u8>)
    requires
        b.len() >= HEADER_LEN,
    ensures
        header_bytes(header_at(b)) == b.subrange(0, 17),
{
    lemma_le_u64_bounds(b.subrange(1, 9));
    lemma_le_u64_bounds(b.subrange(9, 17));
    lemma_le_u64_then_bytes(b.subrange(1, 9));
    lemma_le_u64_then_bytes(b.subrange(9, 17));
    assert(b.subrange(1, 9).subrange(0, 8) =~= b.subrange(1, 9));
    assert(b.subrange(9, 17).subrange(0, 8) =~= b.subrange(9, 17));
    assert(header_bytes(header_at(b)) =~= b.subrange(0, 17));
}

} // verus!
