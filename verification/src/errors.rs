use vstd::prelude::*;

verus! {

/// The identifiers the marker handler resolves.
#[derive(Debug, Clone, Copy, PartialEq, Eq, Structural)]
pub enum Identifier {
    P,
    Q,
    M,
    S,
}

/// The coordinate members of a point identifier.
#[derive(Debug, Clone, Copy, PartialEq, Eq, Structural)]
pub enum Member {
    X,
    Y,
}

/// The errors the derivation and its handler surface.
#[derive(Debug, Clone, Copy, PartialEq, Eq, Structural)]
pub enum HintError {
    /// A point identifier's coordinate cell is missing or not an integer.
    IdentifierHasNoMember(Identifier, Member),
    /// The scalar identifier's cell is missing or not an integer.
    IdentifierNotInteger(Identifier),
    /// All sampling iterations were exhausted without a point.
    RandomEcPointNotOnCurve,
    /// An output cell could not be written.
    Memory,
}

} // verus!
