//! Why a stream cannot be decoded.

use vstd::prelude::*;

verus! {

/// The ways in which decoding fails.
#[derive(Clone, Copy, Debug, PartialEq, Eq, Structural)]
pub enum DecodeError {
    /// The stream is shorter than two digits, or its first or last position
    /// does not hold a hexadecimal digit.
    MalformedKey,
    /// The number of slots that the stream holds under its key is not a
    /// multiple of four.
    TruncatedStream,
    /// A position that carries data does not hold a hexadecimal digit.
    InvalidHexDigit,
}

} // verus!
