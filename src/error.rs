use vstd::prelude::*;

verus! {

/// Every way in which building a machine or reading a letter can fail.
#[derive(PartialEq, Eq, Structural, Clone, Copy, Debug)]
pub enum EnigmaError {
    /// A character outside `A`..`Z` (either case) where a letter is needed.
    InvalidLetter,
    /// A rotor identifier that the catalog does not hold.
    UnknownRotorId,
    /// A reflector identifier that the catalog does not hold.
    UnknownReflectorId,
    /// A malformed token, a wrong rotor count, or overlapping plug pairs.
    ConfigError,
}

} // verus!
