//! Typed errors for the codecs and the processor.

use vstd::prelude::*;

verus! {

/// Why a byte buffer failed to decode.
#[derive(Clone, Copy, Debug, PartialEq, Eq, Structural)]
pub enum DecodeError {
    /// Fewer bytes were available than the declared structure requires.
    TruncatedInput,
    /// The leading discriminant byte matches no defined variant.
    UnknownVariant,
    /// The text field's bytes are not valid UTF-8.
    InvalidText,
}

/// Why a `process` request failed. No error leaves a partial write behind:
/// the storage region is unchanged unless the whole request succeeds.
#[derive(Clone, Copy, Debug, PartialEq, Eq, Structural)]
pub enum ProcessError {
    /// The instruction bytes did not decode.
    InvalidInstruction(DecodeError),
    /// The instruction decoded to a recognized but intentionally
    /// unimplemented variant.
    Unsupported,
    /// The region's recorded owner does not match the supplied authority.
    AccessDenied,
    /// The updated counter, or its stored double, would not fit in 32 bits.
    Overflow,
}

} // verus!
