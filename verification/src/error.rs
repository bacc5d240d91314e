use vstd::prelude::*;

verus! {

/// Every failure the core can report. All failures are returned as values;
/// a failed operation leaves the state untouched.
#[derive(Clone, Copy, PartialEq, Eq, Structural, Debug)]
pub enum Error {
    /// A gated operation (mint, base-URI change) was attempted by an
    /// account other than the collection owner.
    CallerIsNotOwner,
    /// A query or transfer referenced an unminted token, or an enumeration
    /// index was out of range.
    TokenNotExists,
    /// A transfer was attempted by a party that is neither the token's
    /// owner nor its approved operator.
    NotApproved,
    /// A mint collision: the requested identifier is already owned.
    /// Unreachable under monotonic allocation; kept as a defensive guard.
    DuplicateToken,
    /// A mint batch would push the total supply past the largest
    /// representable token identifier.
    Overflow,
    /// A token URI was requested while no base URI is configured.
    BaseUriNotSet,
}

} // verus!
