//! What can go wrong when a game is compressed or decompressed.

use vstd::prelude::*;

verus! {

/// Why a game could not be compressed.
#[derive(Debug, Clone, Copy, PartialEq, Eq, Structural)]
pub enum EncodeError {
    /// A move of the game is not a legal move in its position.
    IllegalInput,
    /// A rank does not fit the alphabet of 256 symbols, or the compressed
    /// tags are longer than 127 bytes.
    IndexOverflow,
    /// The tags could not be serialized or deflated, or the bits of the game
    /// are more than a bit string can hold.
    SerializationFailure,
}

/// Why a bit string could not be decompressed.
#[derive(Debug, Clone, Copy, PartialEq, Eq, Structural)]
pub enum DecodeError {
    /// The bit string ends inside its prefix, its tags or a code word.
    Truncated,
    /// A rank was read that no legal move has.
    IndexOutOfRange,
    /// The block of the tags could not be inflated or deserialized.
    DeserializationFailure,
}

} // verus!
