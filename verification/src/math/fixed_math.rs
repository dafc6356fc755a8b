//! Fixed-point helpers scaled so that `ONE` stands for 1.0. Products and
//! quotients run through a `u128` intermediate; each rounding direction is
//! explicit.
use vstd::prelude::*;

use super::arithmetic::{ceil_div, lemma_ceil_div_positive, opt_u64};

verus! {

/// 100% in fixed point; the pool's internal 9-decimal scale and the fee-rate
/// scale.
pub const ONE: u64 = 1_000_000_000;

const ONE_128: u128 = 1_000_000_000;

/// `a * b / ONE` rounded down, when it fits in a `u64`.
pub open spec fn spec_mul_down(a: u64, b: u64) -> Option<u64> {
    opt_u64((a * b) / (ONE as int))
}

/// `a * b / ONE` rounded up, when it fits in a `u64`.
pub open spec fn spec_mul_up(a: u64, b: u64) -> Option<u64> {
    opt_u64(ceil_div(a * b, ONE as int))
}

/// `a * ONE / b` rounded down; `None` for a zero divisor or a quotient past
/// `u64`.
pub open spec fn spec_div_down(a: u64, b: u64) -> Option<u64> {
    if b == 0 {
        None
    } else {
        opt_u64((a * ONE) / (b as int))
    }
}

/// `a * ONE / b` rounded up; `None` for a zero divisor or a quotient past
/// `u64`.
pub open spec fn spec_div_up(a: u64, b: u64) -> Option<u64> {
    if b == 0 {
        None
    } else {
        opt_u64(ceil_div(a * ONE, b as int))
    }
}

/// `ONE - a`, floored at zero.
pub open spec fn spec_complement(a: u64) -> u64 {
    if a >= ONE {
        0
    } else {
        (ONE - a) as u64
    }
}

pub trait FixedMul {
    fn mul_down(self, other: u64) -> Option<u64>;

    fn mul_up(self, other: u64) -> Option<u64>;
}

pub trait FixedDiv {
    fn div_down(self, other: u64) -> Option<u64>;

    fn div_up(self, other: u64) -> Option<u64>;
}

pub trait FixedComplement {
    fn complement(self) -> u64;
}

impl FixedMul for u64 {
    fn mul_down(self, other: u64) -> (r: Option<u64>)
        ensures
            r == spec_mul_down(self, other),
    {
        assert((self as int) * (other as int) <= u64::MAX * u64::MAX) by (nonlinear_arith);
        let product = (self as u128).checked_mul(other as u128)?;
        u64::try_from(product / ONE_128).ok()
    }

    fn mul_up(self, other: u64) -> (r: Option<u64>)
        ensures
            r == spec_mul_up(self, other),
    {
        assert((self as int) * (other as int) <= u64::MAX * u64::MAX) by (nonlinear_arith);
        let product = (self as u128).checked_mul(other as u128)?;
        if product == 0 {
            proof {
                lemma_ceil_div_positive(1, ONE as int);
            }
            Some(0)
        } else {
            proof {
                lemma_ceil_div_positive(product as int, ONE as int);
            }
            u64::try_from((product - 1) / ONE_128 + 1).ok()
        }
    }
}

impl FixedDiv for u64 {
    fn div_down(self, other: u64) -> (r: Option<u64>)
        ensures
            r == spec_div_down(self, other),
    {
        if other == 0 {
            return None;
        }
        if self == 0 {
            return Some(0);
        }
        assert((self as int) * (ONE as int) <= u64::MAX * 1_000_000_000) by (nonlinear_arith);
        let inflated = (self as u128).checked_mul(ONE_128)?;
        u64::try_from(inflated / other as u128).ok()
    }

    fn div_up(self, other: u64) -> (r: Option<u64>)
        ensures
            r == spec_div_up(self, other),
    {
        if other == 0 {
            return None;
        }
        if self == 0 {
            proof {
                lemma_ceil_div_positive(1, other as int);
            }
            return Some(0);
        }
        assert((self as int) * (ONE as int) <= u64::MAX * 1_000_000_000) by (nonlinear_arith);
        let inflated = (self as u128).checked_mul(ONE_128)?;
        proof {
            lemma_ceil_div_positive(inflated as int, other as int);
        }
        u64::try_from((inflated - 1) / other as u128 + 1).ok()
    }
}

impl FixedComplement for u64 {
    fn complement(self) -> (r: u64)
        ensures
            r == spec_complement(self),
    {
        ONE.saturating_sub(self)
    }
}


/// Law: `mul_up` never gives less than `mul_down` and at most one more.
pub proof fn law_mul_rounding(a: u64, b: u64)
    requires
        spec_mul_up(a, b) is Some,
    ensures
        spec_mul_down(a, b) is Some,
        spec_mul_down(a, b)->0 <= spec_mul_up(a, b)->0 <= spec_mul_down(a, b)->0 + 1,
{
    assert((a as int) * (b as int) >= 0) by (nonlinear_arith);
    super::arithmetic::lemma_ceil_floor(a * b, ONE as int);
}

/// Law: `div_up` never gives less than `div_down` and at most one more.
pub proof fn law_div_rounding(a: u64, b: u64)
    requires
        spec_div_up(a, b) is Some,
    ensures
        spec_div_down(a, b) is Some,
        spec_div_down(a, b)->0 <= spec_div_up(a, b)->0 <= spec_div_down(a, b)->0 + 1,
{
    assert((a as int) * (ONE as int) >= 0) by (nonlinear_arith);
    super::arithmetic::lemma_ceil_floor(a * ONE, b as int);
}

} // verus!
