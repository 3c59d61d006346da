use vstd::prelude::*;

verus! {

/// Why a decode stopped. Every kind is final for the decode in progress:
/// nothing is retried, and the position in the stream is no longer reliable.
#[derive(Clone, Copy, Debug, PartialEq, Eq, Structural)]
pub enum DecodeError {
    /// Fewer bytes are left than the next field needs.
    Truncated,
    /// A fixed marker byte was not the expected one.
    UnexpectedHeader { expected: u8, found: u8 },
    /// The byte source ended before the four bytes of an envelope header.
    ConnectionClosed,
    /// A length-encoded integer began with the reserved prefix `0xFF`.
    InvalidLenenc,
}

} // verus!
