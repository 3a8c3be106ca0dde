use vstd::prelude::*;

verus! {

/// Failures of signing, decoding and proof construction.
#[derive(Clone, Copy, Debug, PartialEq, Eq, Structural)]
pub enum Error {
    /// Fewer message bases (or blinding values) than messages.
    MismatchedLengths,
    /// The signing divisor `x + e` is zero.
    DegenerateKey,
    /// Bytes that are not the encoding of a valid value.
    InvalidEncoding,
    /// The commitment builder was given a secret vector of the wrong length.
    BuilderMisuse,
    /// A re-randomizer or blinding value of a proof is zero.
    ZeroBlinding,
}

} // verus!
