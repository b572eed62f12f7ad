//! The shapes a payload comes in, and the ways a transfer fails.

use vstd::prelude::*;

verus! {

/// Why a transfer ended without success.
#[derive(Clone, Copy, Debug, PartialEq, Eq, Structural)]
pub enum DisplayError {
    /// The bus reported a failure for a write. The cause is not told apart.
    BusWriteError,
    /// The payload came in a shape that the operation does not frame.
    DataFormatNotImplemented,
}

/// How the caller presents a payload.
#[derive(Clone, Copy, Debug)]
pub enum Payload<'a> {
    /// All bytes at hand, in one piece.
    Bytes(&'a [u8]),
    /// Bytes that are produced one at a time, their number not known
    /// beforehand. The transfer asks for each as it needs it.
    ByteStream,
    /// Any other shape, such as 16-bit words in either byte order.
    Other,
}

} // verus!
