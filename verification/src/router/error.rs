use vstd::prelude::*;

verus! {

/// Errors returned by the router; the contract surfaces each with a stable
/// numeric code (its position in this list, from 1).
#[derive(Clone, Copy, Debug, PartialEq, Eq, PartialOrd, Ord)]
pub enum Error {
    /// The pool ID counter would overflow.
    NextPoolIdOverflow,
    /// A protocol fee above 100%.
    InvalidProtocolFee,
    /// A hop or an admin call names an unknown pool ID.
    PoolNotRegistered,
    /// Router ownership cannot be renounced.
    OwnershipRenunciationDisabled,
    /// A routed swap with no hops.
    EmptySwapPath,
}

} // verus!
