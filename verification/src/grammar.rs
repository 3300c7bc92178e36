//! What a byte stream means as a log.
//!
//! A log is zero or more records laid end to end, with nothing before,
//! between or after them. The functions here say, for every byte sequence,
//! which records it holds and how it ends. The decoders are held to them.

use crate::error::{DecodeError, Field};
use crate::header::{header_at, lemma_header_bytes_of_header_at, RecordHeader, HEADER_LEN};
use crate::record::{Record, RecordView};
use vstd::prelude::*;

verus! {

/// The outcome of reading one record off the front of a stream.
pub enum Parsed {
    /// A whole record was there; `rest` is what follows it.
    Record { record: RecordView, rest: Seq<u8> },
    /// The stream was empty: it ended on a record boundary.
    EndOfStream,
    /// The stream is defective at this point.
    Error { error: DecodeError },
}

/// The error, if any, that `header` earns by declaring a payload longer than
/// `max_payload`. The key's length is judged before the value's.
pub open spec fn oversize(header: RecordHeader, max_payload: u64) -> Option<DecodeError> {
    if header.key_length > max_payload {
        Some(DecodeError::PayloadTooLarge { field: Field::Key })
    } else if header.value_length > max_payload {
        Some(DecodeError::PayloadTooLarge { field: Field::Value })
    } else {
        None
    }
}

/// Reads one record off the front of `s`.
///
/// An empty stream ends cleanly. Otherwise seventeen bytes of header must be
/// there; both declared lengths must be within `max_payload`; and then the
/// key and the value must be there in full, in that order. Whatever fails
/// first is the error.
pub open spec fn parse_one(s: Seq<u8>, max_payload: u64) -> Parsed {
    if s.len() == 0 {
        Parsed::EndOfStream
    } else if s.len() < HEADER_LEN {
        Parsed::Error { error: DecodeError::TruncatedHeader }
    } else {
        let header = header_at(s);
        let key_end = HEADER_LEN + header.key_length;
        let value_end = key_end + header.value_length;
        if let Some(error) = oversize(header, max_payload) {
            Parsed::Error { error }
        } else if s.len() < key_end {
            Parsed::Error { error: DecodeError::TruncatedPayload { field: Field::Key } }
        } else if s.len() < value_end {
            Parsed::Error { error: DecodeError::TruncatedPayload { field: Field::Value } }
        } else {
            Parsed::Record {
                record: RecordView {
                    opcode: header.opcode,
                    key: s.subrange(HEADER_LEN as int, key_end),
                    value: s.subrange(key_end, value_end),
                },
                rest: s.skip(value_end),
            }
        }
    }
}

/// A whole stream, decoded: the records up to its end or its first defect,
/// in stream order, and the defect if there was one.
pub struct Decoded {
    pub records: Seq<RecordView>,
    pub error: Option<DecodeError>,
}

/// Reads records off `s` until it ends or is found defective. Nothing past a
/// defect is looked at.
pub open spec fn parse_all(s: Seq<u8>, max_payload: u64) -> Decoded
    decreases s.len(),
{
    match parse_one(s, max_payload) {
        Parsed::EndOfStream => Decoded { records: Seq::empty(), error: None },
        Parsed::Error { error } => Decoded { records: Seq::empty(), error: Some(error) },
        Parsed::Record { record, rest } => {
            let tail = parse_all(rest, max_payload);
            Decoded { records: seq![record] + tail.records, error: tail.error }
        },
    }
}

/// The records of `v`, each as what it is.
pub open spec fn views(v: Seq<Record>) -> Seq<RecordView> {
    v.map_values(|r: Record| r@)
}

/// A record that is read takes at least its header off the stream, and its
/// payloads are as long as the header says.
pub proof fn lemma_parse_one_consumes(s: Seq<u8>, max_payload: u64)
    ensures
        match parse_one(s, max_payload) {
            Parsed::Record { record, rest } => {
                &&& record.fits()
                &&& record.header() == header_at(s)
                &&& record.key.len() <= max_payload
                &&& record.value.len() <= max_payload
                &&& s == record.encoding() + rest
                &&& rest.len() + HEADER_LEN <= s.len()
            },
            _ => true,
        },
{
    if let Parsed::Record { record, rest } = parse_one(s, max_payload) {
        lemma_header_bytes_of_header_at(s);
        assert(s =~= record.encoding() + rest);
    }
}

} // verus!
