use vstd::prelude::*;

verus! {

/// Why a value could not be read from a byte sequence.
#[derive(Debug, Clone, Copy, PartialEq, Eq, Structural)]
pub enum ReadingError {
    /// The input ended in the middle of a value.
    EndOfInput,
    /// A sequence of elements held no further element where one was expected.
    Missing,
    /// A VarInt ran over five bytes, or a length prefix exceeded its bound.
    TooLarge,
    /// A value was read but is not acceptable here (bad id, negative or excessive count, bad UTF-8).
    Invalid,
    /// The data component has no wire codec.
    Unsupported,
}

/// Why a value could not be written.
#[derive(Debug, Clone, Copy, PartialEq, Eq, Structural)]
pub enum WritingError {
    /// A string is longer than the protocol allows.
    TooLarge,
}

} // verus!
