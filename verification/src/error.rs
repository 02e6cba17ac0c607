//! Errors shared by every protocol layer.

use vstd::prelude::*;

verus! {

/// HTTP/2 connection errors (RFC 9113 §7).
#[derive(Debug, Clone, Copy, PartialEq, Eq, Structural)]
pub enum H2Error {
    ProtocolError,
    FlowControlError,
    FrameSizeError,
    EnhanceYourCalm,
}

/// Errors returned by the library.
#[derive(Debug, Clone, Copy, PartialEq, Eq, Structural)]
pub enum Error {
    /// A buffer cannot hold what has to be written to it, or does not yet hold
    /// what has to be read from it.
    BufferTooSmall { needed: usize },
    /// The operation is not valid in the current state, or the input is malformed.
    InvalidState,
    /// Nothing can be done until the peer or the application makes progress.
    WouldBlock,
    /// More headers than one message may carry.
    TooManyHeaders,
    /// No further stream or connection can be created.
    StreamLimitExhausted,
    /// HTTP/2 protocol violation.
    Http2(H2Error),
}

/// A byte count as a `usize`, held at the largest one where it does not fit.
pub open spec fn sat(n: int) -> usize {
    if n > usize::MAX {
        usize::MAX
    } else {
        n as usize
    }
}

/// `BufferTooSmall` for a total of `n` bytes.
pub open spec fn too_small(n: int) -> Error {
    Error::BufferTooSmall { needed: sat(n) }
}

} // verus!
