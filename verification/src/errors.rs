//! The error taxonomy of the protocol core.

use vstd::prelude::*;

verus! {

/// A failure of the wire format itself.
///
/// `NotEnoughData` is not fatal: a streaming caller buffers more input and
/// retries. `TooLong` and `InvalidString` mark a corrupt or non-conforming
/// peer and end the connection.
#[derive(Debug, PartialEq, Eq, Structural, Clone, Copy)]
pub enum FormatError {
    /// The buffer ends before the field does; keep buffering and retry.
    NotEnoughData,
    /// A variable-length integer would need a sixth byte.
    TooLong,
    /// A declared string length exceeds the buffer, or the bytes are not UTF-8.
    InvalidString,
}

/// A failure of the protocol exchange above the raw format.
#[derive(Debug, PartialEq, Eq, Structural, Clone, Copy)]
pub enum ExchangeError {
    /// The wire format broke down; the field says how.
    Format(FormatError),
    /// The pong payload does not echo the ping payload exactly.
    ProtocolViolation,
    /// The handshake address exceeds 255 bytes and was rejected before encoding.
    AddressTooLong,
}

} // verus!
