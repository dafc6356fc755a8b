//! The Spreadless router: deploys pools from a governance-selected WASM
//! hash, assigns each an ID, holds the protocol-fee defaults copied into new
//! pools, and routes multi-hop exact-input swaps.
use vstd::prelude::*;

pub mod contract;
pub mod error;

pub use contract::{DefaultProtocolFeeUpdated, SpreadlessRouter};
pub use error::Error;

verus! {

} // verus!
