//! One decoded operation of the log: an opcode, a key and a value.

use crate::header::{encode_header, header_bytes, RecordHeader};
use vstd::prelude::*;

verus! {

/// What a record is: its opcode and its two payloads, as raw bytes.
pub struct RecordView {
    pub opcode: u8,
    pub key: Seq<u8>,
    pub value: Seq<u8>,
}

impl RecordView {
    /// Both payload lengths fit in a header's length fields.
    pub open spec fn fits(self) -> bool {
        self.key.len() <= u64::MAX && self.value.len() <= u64::MAX
    }

    /// The header that frames this record.
    pub open spec fn header(self) -> RecordHeader
        recommends
            self.fits(),
    {
        RecordHeader {
            opcode: self.opcode,
            key_length: self.key.len() as u64,
            value_length: self.value.len() as u64,
        }
    }

    /// The record on the wire: header, then key, then value.
    pub open spec fn encoding(self) -> Seq<u8>
        recommends
            self.fits(),
    {
        header_bytes(self.header()) + self.key + self.value
    }
}

/// A record of the log. Its header always declares the lengths that its key
/// and value have. The payloads are raw bytes: they need not be text.
#[derive(Debug, PartialEq, Eq)]
pub struct Record {
    header: RecordHeader,
    key: Vec<u8>,
    value: Vec<u8>,
}

impl View for Record {
    type V = RecordView;

    closed spec fn view(&self) -> RecordView {
        RecordView { opcode: self.header.opcode, key: self.key@, value: self.value@ }
    }
}

impl Clone for Record {
    fn clone(&self) -> (copy: Record)
        ensures
            copy@ == self@,
    {
        proof {
            use_type_invariant(self);
        }
        let key = self.key.clone();
        let value = self.value.clone();
        assert(key@ =~= self.key@);
        assert(value@ =~= self.value@);
        Record { header: self.header, key, value }
    }
}

impl Record {
    #[verifier::type_invariant]
    spec fn lengths_agree(&self) -> bool {
        self.header.key_length == self.key@.len() && self.header.value_length == self.value@.len()
    }

    /// Frames `key` and `value` under `opcode`.
    pub fn new(opcode: u8, key: Vec<u8>, value: Vec<u8>) -> (record: Record)
        ensures
            record@ == (RecordView { opcode, key: key@, value: value@ }),
            record@.fits(),
    {
        let header = RecordHeader {
            opcode,
            key_length: key.len() as u64,
            value_length: value.len() as u64,
        };
        Record { header, key, value }
    }

    /// The header that frames this record.
    pub fn header(&self) -> (header: RecordHeader)
        ensures
            self@.fits(),
            header == self@.header(),
    {
        proof {
            use_type_invariant(self);
        }
        self.header
    }

    /// The operation's tag.
    pub fn opcode(&self) -> (opcode: u8)
        ensures
            opcode == self@.opcode,
    {
        self.header.opcode
    }

    /// The key's bytes.
    pub fn key(&self) -> (key: &[u8])
        ensures
            key@ == self@.key,
    {
        self.key.as_slice()
    }

    /// The value's bytes.
    pub fn value(&self) -> (value: &[u8])
        ensures
            value@ == self@.value,
    {
        self.value.as_slice()
    }

    /// Gives up the record for its key and value.
    pub fn into_parts(self) -> (parts: (u8, Vec<u8>, Vec<u8>))
        ensures
            parts.0 == self@.opcode,
            parts.1@ == self@.key,
            parts.2@ == self@.value,
    {
        (self.header.opcode, self.key, self.value)
    }

    /// The record as it lies on the wire.
    pub fn encode(&self) -> (bytes: Vec<u8>)
        ensures
            self@.fits(),
            bytes@ == self@.encoding(),
    {
        proof {
            use_type_invariant(self);
        }
        let mut bytes = encode_header(&self.header);
        bytes.extend_from_slice(self.key.as_slice());
        bytes.extend_from_slice(self.value.as_slice());
        assert(bytes@ =~= self@.encoding());
        bytes
    }
}

} // verus!
