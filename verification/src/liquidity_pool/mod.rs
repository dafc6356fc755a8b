//! The liquidity pool's operations: the decisions its contract entrypoints
//! make between reading the pool, moving tokens and writing the pool back.
use vstd::prelude::*;

pub mod contract;
pub mod error;

pub use contract::LiquidityPool;
pub use error::Error;

verus! {

} // verus!
