//! Decoding a log that lies in memory.

use crate::error::DecodeError;
use crate::framer::{
    lemma_need_more_advances, lemma_run_follows_grammar, read_of, reads_left, run, Framer, Phase,
    Progress,
};
use crate::grammar::{lemma_parse_one_consumes, parse_all, parse_one, views, Parsed};
use crate::record::{Record, RecordView};
use vstd::prelude::*;
use vstd::slice::{slice_subrange, slice_to_vec};

verus! {

/// A single pass over a log held in a byte slice. Each call of
/// `next_record` takes one record off the front of what remains. After a
/// defect the decoder yields that defect and nothing else.
pub struct AofStreamDecoder<'a> {
    data: &'a [u8],
    pos: usize,
    max_payload: u64,
    failure: Option<DecodeError>,
}

/// Copies out of `data`, from `pos` on, as many bytes as a read of up to
/// `want` bytes brings.
fn read_at(data: &[u8], pos: usize, want: u64) -> (chunk: Vec<u8>)
    requires
        pos <= data.len(),
    ensures
        chunk@ == read_of(data@.skip(pos as int), want),
        data@.skip(pos as int).skip(chunk@.len() as int) == data@.skip(pos + chunk@.len()),
        pos + chunk@.len() <= data.len(),
{
    let left: usize = data.len() - pos;
    let end: usize = if want < left as u64 {
        pos + want as usize
    } else {
        data.len()
    };
    let chunk = slice_to_vec(slice_subrange(data, pos, end));
    assert(chunk@ =~= read_of(data@.skip(pos as int), want));
    assert(data@.skip(pos as int).skip(chunk@.len() as int) =~= data@.skip(pos + chunk@.len()));
    chunk
}

impl<'a> AofStreamDecoder<'a> {
    #[verifier::type_invariant]
    spec fn in_bounds(&self) -> bool {
        self.pos <= self.data.len()
    }

    /// The bytes that have not been decoded yet.
    pub closed spec fn remaining(&self) -> Seq<u8> {
        self.data@.skip(self.pos as int)
    }

    /// The defect that ended the decoding, if one did.
    pub closed spec fn failure(&self) -> Option<DecodeError> {
        self.failure
    }

    /// The largest payload length that this decoder accepts in a header.
    pub closed spec fn max_payload(&self) -> u64 {
        self.max_payload
    }

    /// A decoder at the start of `data`. It refuses every header that
    /// declares a key or a value longer than `max_payload` bytes.
    pub fn new(data: &'a [u8], max_payload: u64) -> (decoder: AofStreamDecoder<'a>)
        ensures
            decoder.remaining() == data@,
            decoder.failure() is None,
            decoder.max_payload() == max_payload,
    {
        AofStreamDecoder { data, pos: 0, max_payload, failure: None }
    }

    /// Decodes the record at the front of what remains and moves past it.
    ///
    /// `Ok(Some(record))` is a record; `Ok(None)` is the clean end of the
    /// stream; `Err` is a defect, which every later call repeats.
    pub fn next_record(&mut self) -> (step: Result<Option<Record>, DecodeError>)
        ensures
            final(self).max_payload() == old(self).max_payload(),
            match old(self).failure() {
                Some(error) => {
                    &&& step == Err::<Option<Record>, DecodeError>(error)
                    &&& final(self).failure() == Some(error)
                    &&& final(self).remaining() == old(self).remaining()
                },
                None => match parse_one(old(self).remaining(), old(self).max_payload()) {
                    Parsed::Record { record, rest } => {
                        &&& step matches Ok(Some(decoded))
                        &&& decoded@ == record
                        &&& final(self).remaining() == rest
                        &&& final(self).failure() is None
                    },
                    Parsed::EndOfStream => {
                        &&& step matches Ok(None)
                        &&& final(self).remaining() == old(self).remaining()
                        &&& final(self).failure() is None
                    },
                    Parsed::Error { error } => {
                        &&& step == Err::<Option<Record>, DecodeError>(error)
                        &&& final(self).failure() == Some(error)
                    },
                },
            },
    {
        proof {
            use_type_invariant(&*self);
        }
        if let Some(error) = self.failure {
            return Err(error);
        }
        let ghost s = self.remaining();
        let mut framer = Framer::new(self.max_payload);
        loop
            invariant
                self.data == old(self).data,
                self.max_payload == old(self).max_payload,
                self.failure is None,
                old(self).failure is None,
                self.pos <= self.data.len(),
                s == old(self).remaining(),
                framer.max_payload() == self.max_payload,
                run(framer.phase(), self.max_payload, self.remaining()) == run(
                    Phase::Header,
                    self.max_payload,
                    s,
                ),
            decreases reads_left(framer.phase()),
        {
            let ghost phase = framer.phase();
            let chunk = read_at(self.data, self.pos, framer.demand());
            self.pos = self.pos + chunk.len();
            proof {
                lemma_need_more_advances(phase, self.max_payload, chunk@);
                lemma_run_follows_grammar(s, self.max_payload);
            }
            match framer.feed(chunk) {
                Progress::NeedMore => {},
                Progress::Record(record) => {
                    return Ok(Some(record));
                },
                Progress::EndOfStream => {
                    return Ok(None);
                },
                Progress::Failed(error) => {
                    self.failure = Some(error);
                    return Err(error);
                },
            }
        }
    }
}

/// Decodes all of `data`: the records up to its end or its first defect, in
/// stream order, and the defect if there was one.
pub fn decode_all(data: &[u8], max_payload: u64) -> (decoded: (Vec<Record>, Option<DecodeError>))
    ensures
        views(decoded.0@) == parse_all(data@, max_payload).records,
        decoded.1 == parse_all(data@, max_payload).error,
{
    let mut decoder = AofStreamDecoder::new(data, max_payload);
    let mut records: Vec<Record> = Vec::new();
    assert(views(records@) =~= Seq::empty());
    loop
        invariant
            decoder.failure() is None,
            decoder.max_payload() == max_payload,
            parse_all(data@, max_payload).records == views(records@) + parse_all(
                decoder.remaining(),
                max_payload,
            ).records,
            parse_all(data@, max_payload).error == parse_all(
                decoder.remaining(),
                max_payload,
            ).error,
        decreases decoder.remaining().len(),
    {
        let ghost before = decoder.remaining();
        let ghost done = records@;
        proof {
            lemma_parse_one_consumes(before, max_payload);
        }
        match decoder.next_record() {
            Ok(Some(record)) => {
                records.push(record);
                assert(views(records@) =~= views(done) + seq![record@]);
                assert(views(done) + (seq![record@] + parse_all(
                    decoder.remaining(),
                    max_payload,
                ).records) =~= views(records@) + parse_all(
                    decoder.remaining(),
                    max_payload,
                ).records);
            },
            Ok(None) => {
                assert(views(records@) + Seq::<RecordView>::empty() =~= views(records@));
                return (records, None);
            },
            Err(error) => {
                assert(views(records@) + Seq::<RecordView>::empty() =~= views(records@));
                return (records, Some(error));
            },
        }
    }
}

} // verus!
