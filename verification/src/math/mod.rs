//! Stable-swap math: the StableSwap invariant and its swap, join and exit
//! formulas, on the pool's internal 9-decimal `u64` balances.
//!
//!   stable      - the invariant and the swap/join/exit formulas (`calc_*`)
//!   lp_exit     - proportional and single-token LP exit quotes
//!   base        - proportional join/exit amounts shared by every pool type
//!   fixed_math  - 9-decimal fixed-point helpers (mul/div/complement)
//!   arithmetic  - `u64` mul-div, checked sums and the 256-bit helpers
//!   wide        - the host's 256-bit integers
use vstd::prelude::*;

pub mod arithmetic;
pub mod base;

pub mod fixed_math;
pub mod lp_exit;

pub mod stable;
pub mod wide;

verus! {

pub const AMP_PRECISION: u64 = 1_000;

pub const MIN_AMP: u16 = 1;

pub const MAX_AMP: u16 = 12000;

/// Largest balance the stable math supports (3B tokens at 9 decimals).
pub const MAX_SAFE_BALANCE: u64 = 3_000_000_000_000_000_000;

pub const DEFAULT_INV_THRESHOLD: u64 = 100;

pub const BALANCE_THRESHOLD: u64 = 1;

pub const MIN_TOKENS: usize = 2;

pub const MAX_TOKENS: usize = 5;

pub const MIN_SWAP_FEE: u64 = 10_000;

pub const MAX_SWAP_FEE: u64 = 10_000_000;

} // verus!
