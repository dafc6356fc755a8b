//! The pool's state model and the boundary between the contract's `i128`
//! token amounts and the `u64` (9-decimal) world the math runs in:
//!
//!   state       - the pool and its tokens, and their bridges into the math
//!   scaling     - raw <-> internal (9-decimal) conversion
//!   amp         - amplification, with a linear ramp over time
//!   fee         - swap-fee and protocol-fee policy
//!   normalized  - fixed-capacity amount vectors
//!   quote       - quotes for deposits, withdrawals and swaps
use vstd::prelude::*;

pub mod amp;
pub mod fee;
pub mod normalized;
pub mod quote;
pub mod scaling;
pub mod state;

verus! {

} // verus!
