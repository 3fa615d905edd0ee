use vstd::prelude::*;

verus! {

/// The ways in which building or reading a blurhash string can fail.
///
/// Validation errors are typed and returned, never silently corrected.
/// Buffer-size mismatches against a declared width and height are caller
/// contract violations, not values of this type.
#[derive(Clone, Copy, Debug, PartialEq, Eq, Structural)]
pub enum Error {
    /// The string handed to a decoding routine has fewer than 6 bytes.
    HashTooShort,
    /// The string's length disagrees with the count implied by its
    /// size-flag digit.
    LengthMismatch { expected: usize, actual: usize },
    /// The string is not valid ASCII.
    InvalidAscii,
    /// A byte of the string lies outside the 83-symbol alphabet.
    InvalidBase83(u8),
    /// A component count lies outside the range 1 through 9.
    ComponentsOutOfRange,
}

} // verus!
