//! What holds of every log, proved from the grammar.

use crate::error::{DecodeError, Field};
use crate::framer::{failed, step, Phase, ProgressView};
use crate::grammar::{lemma_parse_one_consumes, oversize, parse_all, parse_one, Decoded, Parsed};
use crate::header::{header_at, header_bytes, lemma_header_round_trip, HEADER_LEN};
use crate::record::RecordView;
use vstd::prelude::*;

verus! {

/// Whether `record` can be written under the limit `max_payload`: its
/// lengths fit a header, and neither is above the limit.
pub open spec fn writable(record: RecordView, max_payload: u64) -> bool {
    &&& record.fits()
    &&& record.key.len() <= max_payload
    &&& record.value.len() <= max_payload
}

/// The log that holds `records` and nothing else: their encodings, end to
/// end, in order.
pub open spec fn log_of(records: Seq<RecordView>) -> Seq<u8>
    decreases records.len(),
{
    if records.len() == 0 {
        Seq::empty()
    } else {
        records[0].encoding() + log_of(records.skip(1))
    }
}

/// A record that is encoded and decoded again is the same record: the same
/// opcode, key bytes and value bytes. What follows the record on the stream
/// is left as it was.
pub proof fn lemma_round_trip(record: RecordView, tail: Seq<u8>, max_payload: u64)
    requires
        writable(record, max_payload),
    ensures
        parse_one(record.encoding() + tail, max_payload) == (Parsed::Record { record, rest: tail }),
        parse_one(record.encoding(), max_payload) == (Parsed::Record {
            record,
            rest: Seq::empty(),
        }),
{
    lemma_round_trip_before(record, tail, max_payload);
    lemma_round_trip_before(record, Seq::empty(), max_payload);
    assert(record.encoding() + Seq::<u8>::empty() =~= record.encoding());
}

proof fn lemma_round_trip_before(record: RecordView, tail: Seq<u8>, max_payload: u64)
    requires
        writable(record, max_payload),
    ensures
        parse_one(record.encoding() + tail, max_payload) == (Parsed::Record { record, rest: tail }),
{
    let header = record.header();
    let s = record.encoding() + tail;
    let key_end = HEADER_LEN + record.key.len();
    let value_end = key_end + record.value.len();
    lemma_header_round_trip(header, record.key + record.value + tail);
    assert(s =~= header_bytes(header) + (record.key + record.value + tail));
    assert(s.subrange(HEADER_LEN as int, key_end as int) =~= record.key);
    assert(s.subrange(key_end as int, value_end as int) =~= record.value);
    assert(s.skip(value_end as int) =~= tail);
}

/// An empty stream holds no record and ends cleanly.
pub proof fn lemma_empty_stream(max_payload: u64)
    ensures
        parse_one(Seq::empty(), max_payload) == Parsed::EndOfStream,
        parse_all(Seq::empty(), max_payload) == (Decoded { records: Seq::empty(), error: None }),
{
}

/// A stream that is exactly one header and the payload bytes that the
/// header declares holds exactly one record, and then ends cleanly.
pub proof fn lemma_exact_single_record(s: Seq<u8>, max_payload: u64)
    requires
        s.len() >= HEADER_LEN,
        oversize(header_at(s), max_payload) is None,
        s.len() == HEADER_LEN + header_at(s).key_length + header_at(s).value_length,
    ensures
        parse_all(s, max_payload) == (Decoded {
            records: seq![
                RecordView {
                    opcode: s[0],
                    key: s.subrange(HEADER_LEN as int, HEADER_LEN + header_at(s).key_length),
                    value: s.subrange(HEADER_LEN + header_at(s).key_length, s.len() as int),
                },
            ],
            error: None,
        }),
{
    let rest = s.skip(s.len() as int);
    assert(rest =~= Seq::<u8>::empty());
    assert(parse_all(rest, max_payload).records =~= Seq::<RecordView>::empty());
    assert(parse_all(s, max_payload).records =~= seq![
        RecordView {
            opcode: s[0],
            key: s.subrange(HEADER_LEN as int, HEADER_LEN + header_at(s).key_length),
            value: s.subrange(HEADER_LEN + header_at(s).key_length, s.len() as int),
        },
    ]);
}

/// A stream of one to sixteen bytes is a truncated header, and holds no
/// record.
pub proof fn lemma_truncated_header(s: Seq<u8>, max_payload: u64)
    requires
        1 <= s.len() < HEADER_LEN,
    ensures
        parse_all(s, max_payload) == (Decoded {
            records: Seq::empty(),
            error: Some(DecodeError::TruncatedHeader),
        }),
{
}

/// A stream that ends before the key that its first header declares is a
/// truncated key, and holds no record.
pub proof fn lemma_truncated_key(s: Seq<u8>, max_payload: u64)
    requires
        s.len() >= HEADER_LEN,
        oversize(header_at(s), max_payload) is None,
        s.len() - HEADER_LEN < header_at(s).key_length,
    ensures
        parse_all(s, max_payload) == (Decoded {
            records: Seq::empty(),
            error: Some(DecodeError::TruncatedPayload { field: Field::Key }),
        }),
{
}

/// A stream that holds the key that its first header declares, but ends
/// before the value, is a truncated value, and holds no record.
pub proof fn lemma_truncated_value(s: Seq<u8>, max_payload: u64)
    requires
        s.len() >= HEADER_LEN,
        oversize(header_at(s), max_payload) is None,
        s.len() - HEADER_LEN >= header_at(s).key_length,
        s.len() - HEADER_LEN - header_at(s).key_length < header_at(s).value_length,
    ensures
        parse_all(s, max_payload) == (Decoded {
            records: Seq::empty(),
            error: Some(DecodeError::TruncatedPayload { field: Field::Value }),
        }),
{
}

/// A header that declares a payload above the limit is refused, whatever
/// follows it, and the key's length is judged first.
pub proof fn lemma_oversize_refused(s: Seq<u8>, max_payload: u64)
    requires
        s.len() >= HEADER_LEN,
        oversize(header_at(s), max_payload) is Some,
    ensures
        parse_all(s, max_payload) == (Decoded {
            records: Seq::empty(),
            error: oversize(header_at(s), max_payload),
        }),
        header_at(s).key_length > max_payload ==> parse_all(s, max_payload).error == Some(
            DecodeError::PayloadTooLarge { field: Field::Key },
        ),
{
}

/// A header that declares an empty key and an empty value frames a record
/// with an empty key and an empty value, under every limit.
pub proof fn lemma_zero_length_fields(s: Seq<u8>, max_payload: u64)
    requires
        s.len() >= HEADER_LEN,
        header_at(s).key_length == 0,
        header_at(s).value_length == 0,
    ensures
        parse_one(s, max_payload) == (Parsed::Record {
            record: RecordView { opcode: s[0], key: Seq::empty(), value: Seq::empty() },
            rest: s.skip(HEADER_LEN as int),
        }),
{
    assert(s.subrange(HEADER_LEN as int, HEADER_LEN as int) =~= Seq::<u8>::empty());
}

/// Records that are written end to end are read back as the same records,
/// as many and in the same order, and then the stream ends cleanly.
pub proof fn lemma_sequencing(records: Seq<RecordView>, max_payload: u64)
    requires
        forall|i: int| 0 <= i < records.len() ==> writable(#[trigger] records[i], max_payload),
    ensures
        parse_all(log_of(records), max_payload) == (Decoded { records, error: None }),
    decreases records.len(),
{
    if records.len() == 0 {
        assert(parse_all(log_of(records), max_payload).records =~= records);
    } else {
        let later = records.skip(1);
        assert forall|i: int| 0 <= i < later.len() implies writable(
            #[trigger] later[i],
            max_payload,
        ) by {
            assert(later[i] == records[i + 1]);
        }
        lemma_sequencing(later, max_payload);
        lemma_round_trip(records[0], log_of(later), max_payload);
        assert(seq![records[0]] + later =~= records);
    }
}

/// A stream that decodes without a defect is the log of the records that
/// it decodes to, byte for byte: nothing in it is skipped or read twice.
pub proof fn lemma_clean_stream_is_its_log(s: Seq<u8>, max_payload: u64)
    requires
        parse_all(s, max_payload).error is None,
    ensures
        log_of(parse_all(s, max_payload).records) == s,
    decreases s.len(),
{
    lemma_parse_one_consumes(s, max_payload);
    match parse_one(s, max_payload) {
        Parsed::Record { record, rest } => {
            lemma_clean_stream_is_its_log(rest, max_payload);
            let records = parse_all(s, max_payload).records;
            assert(records.skip(1) =~= parse_all(rest, max_payload).records);
        },
        Parsed::EndOfStream => {
            assert(s =~= Seq::<u8>::empty());
        },
        Parsed::Error { error } => {},
    }
}

/// Past a defect nothing is decoded: a framer that has failed answers every
/// read with the same defect, and one that has seen the clean end answers
/// every read with the end.
pub proof fn lemma_terminal_phases_stay(phase: Phase, max_payload: u64, chunk: Seq<u8>)
    requires
        phase.is_terminal(),
    ensures
        step(phase, max_payload, chunk).0 == phase,
        phase matches Phase::Failed { error } ==> step(phase, max_payload, chunk) == failed(error),
        phase is Finished ==> step(phase, max_payload, chunk).1 == ProgressView::EndOfStream,
{
}

} // verus!
