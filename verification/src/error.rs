//! The decode error taxonomy.

use vstd::prelude::*;

verus! {

/// Why a decode attempt failed. Every error is terminal for the current
/// decode call; the decoder never retries.
#[derive(Clone, Copy, Debug, PartialEq, Eq, Structural)]
pub enum DecodeError {
    /// The underlying transport failed. The in-memory decoder never raises
    /// this; glue code that reads from a real transport maps its failures
    /// here before handing bytes to the library.
    IoError,
    /// The source ended in the middle of a frame. Distinct from the clean
    /// "no more frames" condition, which is not an error.
    IncompleteFrame,
    /// A structural fault: a line without a tag byte, an unknown tag byte, a
    /// negative length other than the null marker, or a missing trailing
    /// CRLF after a bulk payload.
    MalformedFrame,
    /// An integer payload that does not match `-?[0-9]+`.
    InvalidInteger,
    /// An integer payload whose value does not fit in a signed 64-bit word.
    IntegerOverflow,
    /// A declared length, or a line, that exceeds the configured maximum.
    FrameTooLarge,
    /// Array nesting beyond the configured maximum depth.
    MaxDepthExceeded,
}

} // verus!
