//! The framing state machine.
//!
//! A `Framer` never reads. It says how many bytes it wants next, is handed
//! what a read of that many bytes brought, and answers with what that made
//! of the record in progress. Whoever owns the stream runs the loop, so the
//! same machine serves a file, a socket or a slice, and never holds more
//! than one record's payload.

use crate::error::{DecodeError, Field};
use crate::grammar::{oversize, parse_one, Parsed};
use crate::header::{decode_header, header_at, lemma_header_at_prefix, RecordHeader, HEADER_LEN};
use crate::record::{Record, RecordView};
use vstd::prelude::*;

verus! {

/// Where a framer stands between two reads.
pub enum Phase {
    /// On a record boundary, waiting for a header.
    Header,
    /// Waiting for the key that `header` declares.
    Key { header: RecordHeader },
    /// Waiting for the value that `header` declares; `key` is in hand.
    Value { header: RecordHeader, key: Seq<u8> },
    /// The stream ended on a record boundary. Terminal.
    Finished,
    /// The stream was found defective. Terminal.
    Failed { error: DecodeError },
}

impl Phase {
    /// How many bytes the next read is to ask for. A terminal phase asks for
    /// none.
    pub open spec fn demand(self) -> u64 {
        match self {
            Phase::Header => HEADER_LEN as u64,
            Phase::Key { header } => header.key_length,
            Phase::Value { header, key } => header.value_length,
            Phase::Finished => 0,
            Phase::Failed { error } => 0,
        }
    }

    /// No further record will come.
    pub open spec fn is_terminal(self) -> bool {
        self is Finished || self is Failed
    }
}

/// What a read made of the record in progress, as plain values.
pub enum ProgressView {
    NeedMore,
    Record { record: RecordView },
    EndOfStream,
    Failed { error: DecodeError },
}

/// The machine's one rule: from a phase and what the read brought, the next
/// phase and the answer.
///
/// `chunk` is the result of reading up to `phase.demand()` bytes, so a chunk
/// shorter than that means the stream has ended. An empty chunk where a
/// header was due is a clean end; any other shortfall is a defect, and from
/// then on every answer is that defect. A header that declares a payload
/// above `max_payload` is refused before any payload is asked for.
pub open spec fn step(phase: Phase, max_payload: u64, chunk: Seq<u8>) -> (Phase, ProgressView) {
    match phase {
        Phase::Header => {
            if chunk.len() == 0 {
                (Phase::Finished, ProgressView::EndOfStream)
            } else if chunk.len() < HEADER_LEN {
                failed(DecodeError::TruncatedHeader)
            } else if let Some(error) = oversize(header_at(chunk), max_payload) {
                failed(error)
            } else {
                (Phase::Key { header: header_at(chunk) }, ProgressView::NeedMore)
            }
        },
        Phase::Key { header } => {
            if chunk.len() < header.key_length {
                failed(DecodeError::TruncatedPayload { field: Field::Key })
            } else {
                (Phase::Value { header, key: chunk }, ProgressView::NeedMore)
            }
        },
        Phase::Value { header, key } => {
            if chunk.len() < header.value_length {
                failed(DecodeError::TruncatedPayload { field: Field::Value })
            } else {
                (
                    Phase::Header,
                    ProgressView::Record {
                        record: RecordView { opcode: header.opcode, key, value: chunk },
                    },
                )
            }
        },
        Phase::Finished => (Phase::Finished, ProgressView::EndOfStream),
        Phase::Failed { error } => failed(error),
    }
}

/// The move into the failed phase.
pub open spec fn failed(error: DecodeError) -> (Phase, ProgressView) {
    (Phase::Failed { error }, ProgressView::Failed { error })
}

/// What a read made of the record in progress.
#[derive(Debug, PartialEq, Eq)]
pub enum Progress {
    /// The record is not complete: ask again how much is wanted, and read.
    NeedMore,
    /// A record is complete. The framer is back on a record boundary.
    Record(Record),
    /// The stream ended on a record boundary.
    EndOfStream,
    /// The stream is defective. No further record will come.
    Failed(DecodeError),
}

impl View for Progress {
    type V = ProgressView;

    open spec fn view(&self) -> ProgressView {
        match self {
            Progress::NeedMore => ProgressView::NeedMore,
            Progress::Record(record) => ProgressView::Record { record: record@ },
            Progress::EndOfStream => ProgressView::EndOfStream,
            Progress::Failed(error) => ProgressView::Failed { error: *error },
        }
    }
}

enum State {
    Header,
    Key { header: RecordHeader },
    Value { header: RecordHeader, key: Vec<u8> },
    Finished,
    Failed { error: DecodeError },
}

impl View for State {
    type V = Phase;

    closed spec fn view(&self) -> Phase {
        match self {
            State::Header => Phase::Header,
            State::Key { header } => Phase::Key { header: *header },
            State::Value { header, key } => Phase::Value { header: *header, key: key@ },
            State::Finished => Phase::Finished,
            State::Failed { error } => Phase::Failed { error: *error },
        }
    }
}

/// The framing state machine of one stream.
pub struct Framer {
    max_payload: u64,
    state: State,
}

impl Framer {
    /// The largest payload length that this framer accepts in a header.
    pub closed spec fn max_payload(&self) -> u64 {
        self.max_payload
    }

    /// Where this framer stands.
    pub closed spec fn phase(&self) -> Phase {
        self.state@
    }

    /// A framer at the start of a stream. It refuses every header that
    /// declares a key or a value longer than `max_payload` bytes.
    pub fn new(max_payload: u64) -> (framer: Framer)
        ensures
            framer.max_payload() == max_payload,
            framer.phase() == Phase::Header,
    {
        Framer { max_payload, state: State::Header }
    }

    /// The number of bytes to ask of the stream for the next `feed`.
    pub fn demand(&self) -> (wanted: u64)
        ensures
            wanted == self.phase().demand(),
    {
        match &self.state {
            State::Header => HEADER_LEN as u64,
            State::Key { header } => header.key_length,
            State::Value { header, key } => header.value_length,
            State::Finished => 0,
            State::Failed { error } => 0,
        }
    }

    /// Whether the stream has ended, cleanly or not.
    pub fn is_terminal(&self) -> (terminal: bool)
        ensures
            terminal == self.phase().is_terminal(),
    {
        match &self.state {
            State::Finished => true,
            State::Failed { error } => true,
            _ => false,
        }
    }

    /// Takes what a read of up to `demand()` bytes brought, and moves on.
    pub fn feed(&mut self, chunk: Vec<u8>) -> (progress: Progress)
        requires
            chunk@.len() <= old(self).phase().demand(),
        ensures
            final(self).max_payload() == old(self).max_payload(),
            (final(self).phase(), progress@) == step(
                old(self).phase(),
                old(self).max_payload(),
                chunk@,
            ),
    {
        let mut state = State::Header;
        core::mem::swap(&mut self.state, &mut state);
        match state {
            State::Header => {
                if chunk.len() == 0 {
                    self.state = State::Finished;
                    Progress::EndOfStream
                } else {
                    match decode_header(chunk.as_slice()) {
                        Err(error) => self.fail(error),
                        Ok(header) => {
                            if header.key_length > self.max_payload {
                                self.fail(DecodeError::PayloadTooLarge { field: Field::Key })
                            } else if header.value_length > self.max_payload {
                                self.fail(DecodeError::PayloadTooLarge { field: Field::Value })
                            } else {
                                self.state = State::Key { header };
                                Progress::NeedMore
                            }
                        },
                    }
                }
            },
            State::Key { header } => {
                if (chunk.len() as u64) < header.key_length {
                    self.fail(DecodeError::TruncatedPayload { field: Field::Key })
                } else {
                    self.state = State::Value { header, key: chunk };
                    Progress::NeedMore
                }
            },
            State::Value { header, key } => {
                if (chunk.len() as u64) < header.value_length {
                    self.fail(DecodeError::TruncatedPayload { field: Field::Value })
                } else {
                    self.state = State::Header;
                    Progress::Record(Record::new(header.opcode, key, chunk))
                }
            },
            State::Finished => {
                self.state = State::Finished;
                Progress::EndOfStream
            },
            State::Failed { error } => self.fail(error),
        }
    }

    fn fail(&mut self, error: DecodeError) -> (progress: Progress)
        ensures
            final(self).max_payload() == old(self).max_payload(),
            (final(self).phase(), progress@) == failed(error),
    {
        self.state = State::Failed { error };
        Progress::Failed(error)
    }
}

/// What a read of up to `want` bytes brings from a stream that still holds
/// `s`: that many bytes, or all of `s` where it is shorter.
pub open spec fn read_of(s: Seq<u8>, want: u64) -> Seq<u8> {
    if want <= s.len() {
        s.take(want as int)
    } else {
        s
    }
}

/// The number of reads that a framer in `phase` is away from an answer, at
/// most.
pub open spec fn reads_left(phase: Phase) -> nat {
    match phase {
        Phase::Header => 3,
        Phase::Key { header } => 2,
        Phase::Value { header, key } => 1,
        Phase::Finished => 1,
        Phase::Failed { error } => 1,
    }
}

/// Runs a framer in `phase` on the stream `s`: each read brings what the
/// framer demands, as far as the stream reaches, until the framer has an
/// answer. The result is the phase it is left in, the answer, and what is
/// left of the stream.
pub open spec fn run(phase: Phase, max_payload: u64, s: Seq<u8>) -> (Phase, ProgressView, Seq<u8>)
    decreases reads_left(phase),
{
    let chunk = read_of(s, phase.demand());
    let (next, progress) = step(phase, max_payload, chunk);
    if progress is NeedMore {
        run(next, max_payload, s.skip(chunk.len() as int))
    } else {
        (next, progress, s.skip(chunk.len() as int))
    }
}

/// An unfinished answer brings the framer one read nearer to a finished one.
pub proof fn lemma_need_more_advances(phase: Phase, max_payload: u64, chunk: Seq<u8>)
    ensures
        step(phase, max_payload, chunk).1 is NeedMore ==> reads_left(
            step(phase, max_payload, chunk).0,
        ) < reads_left(phase),
{
}

/// A framer that starts on a record boundary and is fed the stream by reads
/// of what it demands answers as the grammar says: with the record at the
/// front of the stream, leaving what follows it; with the clean end of an
/// empty stream; or with the stream's defect.
pub proof fn lemma_run_follows_grammar(s: Seq<u8>, max_payload: u64)
    ensures
        match parse_one(s, max_payload) {
            Parsed::Record { record, rest } => run(Phase::Header, max_payload, s) == (
                Phase::Header,
                ProgressView::Record { record },
                rest,
            ),
            Parsed::EndOfStream => run(Phase::Header, max_payload, s) == (
                Phase::Finished,
                ProgressView::EndOfStream,
                s,
            ),
            Parsed::Error { error } => {
                &&& run(Phase::Header, max_payload, s).0 == Phase::Failed { error }
                &&& run(Phase::Header, max_payload, s).1 == ProgressView::Failed { error }
            },
        },
{
    let first = read_of(s, HEADER_LEN as u64);
    if s.len() == 0 {
        assert(s.skip(0) =~= s);
    } else if s.len() < HEADER_LEN {
    } else {
        assert(first.subrange(0, 17) =~= s.subrange(0, 17));
        lemma_header_at_prefix(first, s);
        let header = header_at(s);
        if oversize(header, max_payload) is None {
            let key_phase = Phase::Key { header };
            let after_header = s.skip(HEADER_LEN as int);
            let key = read_of(after_header, header.key_length);
            assert(run(Phase::Header, max_payload, s) == run(key_phase, max_payload, after_header));
            if after_header.len() >= header.key_length {
                let value_phase = Phase::Value { header, key };
                let after_key = after_header.skip(key.len() as int);
                let value = read_of(after_key, header.value_length);
                assert(run(key_phase, max_payload, after_header) == run(
                    value_phase,
                    max_payload,
                    after_key,
                ));
                if after_key.len() >= header.value_length {
                    let key_end = HEADER_LEN + header.key_length;
                    let value_end = key_end + header.value_length;
                    assert(key =~= s.subrange(HEADER_LEN as int, key_end));
                    assert(value =~= s.subrange(key_end, value_end));
                    assert(after_key.skip(value.len() as int) =~= s.skip(value_end));
                }
            }
        }
    }
}

} // verus!
