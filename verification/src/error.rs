//! What can go wrong when an identifier is read from text.

use vstd::prelude::*;

verus! {

/// Why a text is not hexadecimal, as the `hex` crate tells it.
#[derive(Clone, Copy, Debug, PartialEq, Eq, Structural)]
pub enum HexError {
    /// The byte at `index` is no hexadecimal digit; `c` is that byte as a
    /// character.
    InvalidHexCharacter { c: char, index: usize },
    /// The text has an odd number of bytes.
    OddLength,
    /// The text does not fit a container of fixed size.
    InvalidStringLength,
}

/// Why a text is not an identifier.
#[derive(Clone, Copy, Debug, PartialEq, Eq, Structural)]
pub enum Error {
    /// The text is not hexadecimal.
    InvalidHexString(HexError),
    /// The text is hexadecimal but stands for this many bytes, not twelve.
    InvalidHexIdLength(usize),
}

} // verus!
