//! A verified account codec and mutation protocol.
//!
//! The library manages a fixed-layout record persisted in a fixed-capacity
//! account buffer owned by an identity. A single entry point,
//! [`dispatch::process_instruction`], validates ownership of the buffer,
//! parses an untrusted payload into an update request, decodes the record
//! currently stored in the buffer, applies the update, and re-encodes the
//! record in place. Every failure is reported as a [`FailureKind`]; no step
//! panics and nothing is written to the buffer unless every check passed.

use vstd::prelude::*;

pub mod record;
pub mod codec;
pub mod payload;
pub mod mutate;
pub mod dispatch;

verus! {

/// Every way an invocation can fail.
///
/// Each variant is produced by exactly one stage of the dispatcher:
/// ownership check, payload text decoding, payload parsing, and record
/// encoding, in that order.
#[derive(Clone, Copy, Debug, PartialEq, Eq, Structural)]
pub enum FailureKind {
    /// The payload bytes are not valid UTF-8 text.
    InvalidEncoding,
    /// The payload text is not a well-formed update document.
    MalformedPayload,
    /// The invoking identity does not own the account buffer.
    NotAuthorized,
    /// The encoded record would not fit into the account buffer.
    CapacityExceeded,
}

} // verus!
