use vstd::prelude::*;

verus! {

/// Errors returned by the pool factory; the contract surfaces each with a
/// stable numeric code (its position in this list, from 1).
#[derive(Clone, Copy, Debug, PartialEq, Eq, PartialOrd, Ord)]
pub enum Error {
    /// The registry's slot counter would overflow.
    NextPoolIdOverflow,
    InvalidProtocolFee,
    PoolNotRegistered,
    OwnershipRenunciationDisabled,
}

} // verus!
