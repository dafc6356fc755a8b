//! Verified core of the Spreadless stable-swap pool.
use vstd::prelude::*;

pub mod liquidity_pool;
pub mod math;
pub mod pool;
pub mod pool_factory;
pub mod registry;
pub mod router;
pub mod spreadless_pool;

verus! {

} // verus!
