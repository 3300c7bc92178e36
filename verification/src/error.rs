//! What can be wrong with a log.

use vstd::prelude::*;

verus! {

/// One of the two payloads that follow a record's header.
#[derive(Clone, Copy, Debug, PartialEq, Eq, Hash, Structural)]
pub enum Field {
    /// The key, which comes first.
    Key,
    /// The value, which follows the key.
    Value,
}

/// A structural defect of the stream. A clean end of the stream, on a record
/// boundary, is not among these.
#[derive(Clone, Copy, Debug, PartialEq, Eq, Hash, Structural)]
pub enum DecodeError {
    /// The stream ended inside a header: some of its bytes were there, but
    /// not all of them.
    TruncatedHeader,
    /// The stream ended before the declared length of `field` was reached.
    TruncatedPayload { field: Field },
    /// The header declares a length for `field` above the configured maximum.
    PayloadTooLarge { field: Field },
}

} // verus!
