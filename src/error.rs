use vstd::prelude::*;

verus! {

/// The ways an encode, decode or construction call can fail.
#[derive(Clone, Copy, Debug, PartialEq, Eq, Structural)]
pub enum CodecError {
    /// The input ended before a field was complete.
    Truncated,
    /// A variable-length integer did not terminate within five bytes.
    MalformedVarInt,
    /// A string's bytes are not valid UTF-8.
    InvalidUtf8,
    /// A string's character count lies outside its declared range.
    StringLengthOutOfBounds,
    /// An enumeration ordinal does not name any variant.
    InvalidEnumOrdinal,
    /// A node's variant tag is not one of root, literal or argument.
    InvalidNodeVariant,
    /// A parser identifier is not one that this codec knows.
    InvalidParserId,
    /// The reserved maximal value was given to a sentinel-encoded optional.
    UnrepresentableOptionalValue,
    /// A length or count prefix is negative.
    NegativeLength,
}

} // verus!
