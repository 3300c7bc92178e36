//! Decoder for an append-only operation log: a finite byte stream of
//! back-to-back records, each framed by a fixed-size header that carries an
//! opcode and the byte lengths of the key and value that follow it.
//!
//! - [`wire`]: the little-endian integers of the format.
//! - [`header`]: the seventeen-byte record header and its codec.
//! - [`record`]: a decoded record.
//! - [`error`]: the defects a stream can have.
//! - [`grammar`]: what a byte sequence means as a log.
//! - [`framer`]: the pull-based framing state machine, for any byte source.
//! - [`decoder`]: a decoder over a log held in memory.
//! - [`laws`]: what holds of every log.

pub mod decoder;
pub mod error;
pub mod framer;
pub mod grammar;
pub mod header;
pub mod laws;
pub mod record;
pub mod wire;
