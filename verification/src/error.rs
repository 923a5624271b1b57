use vstd::prelude::*;

verus! {

/// Why a byte buffer was rejected by a decoder.
#[derive(Clone, Copy, Debug, PartialEq, Eq, Structural)]
pub enum DecodeError {
    /// The buffer length does not match a required fixed size, or is not a
    /// whole multiple of an element size.
    LengthMismatch,
    /// An offset points outside the buffer.
    OffsetOutOfBounds,
    /// Offsets of successive variable-size fields are not ordered as required.
    OffsetNotIncreasing,
    /// A derived element or bit count exceeds the declared maximum.
    InvalidBoundedLength,
    /// Unused trailing bits of a fixed bit vector are not zero.
    InvalidPadding,
    /// A bit list holds no set bit at all, so it has no length marker.
    MissingDelimiter,
    /// A bit list carries whole zero bytes above its length marker.
    ExtraBitsAfterDelimiter,
}

} // verus!
