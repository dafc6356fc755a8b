//! Rules of the Spreadless pool that differ from the base liquidity pool: its
//! amplification factor may range up to 50000.
use vstd::prelude::*;

use crate::math::MIN_AMP;

verus! {

pub const MAX_AMP: u16 = 50000;

/// Whether `factor` lies in `[MIN_AMP, MAX_AMP]` (1..=50000).
pub fn is_valid_amp_factor(factor: u32) -> (r: bool)
    ensures
        r == (MIN_AMP <= factor <= MAX_AMP),
{
    factor >= MIN_AMP as u32 && factor <= MAX_AMP as u32
}

} // verus!
