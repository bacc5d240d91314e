use vstd::prelude::*;

verus! {

/// An opaque account identity. The core never interprets it; it is only
/// compared for equality (ownership checks, balance lookups).
#[derive(Clone, Copy, PartialEq, Eq, Structural, Debug, Hash)]
pub struct AccountId {
    pub id: u128,
}

} // verus!
