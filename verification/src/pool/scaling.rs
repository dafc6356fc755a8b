//! Boundary scaling: raw `i128` token amounts <-> normalized `u64` internal
//! balances. Every internal balance lives at `INTERNAL_DECIMALS` (9), the
//! scale of `math::fixed_math::ONE` and of the invariant `D`.
use vstd::arithmetic::power::pow;
use vstd::prelude::*;

use crate::math::arithmetic::{ceil_div, opt_u64};
use crate::math::MAX_SAFE_BALANCE;

verus! {

pub const INTERNAL_DECIMALS: u32 = 9;

/// `base^exp` when it fits in a `u64`, by repeated checked multiplication.
fn checked_pow_u64(base: u64, exp: u32) -> (r: Option<u64>)
    ensures
        r == opt_u64(pow(base as int, exp as nat)),
{
    let mut acc: u64 = 1;
    let mut k: u32 = 0;
    assert(pow(base as int, 0) == 1) by {
        reveal(pow);
    }
    while k < exp
        invariant
            k <= exp,
            acc as int == pow(base as int, k as nat),
        decreases exp - k,
    {
        assert(pow(base as int, (k + 1) as nat) == base * pow(base as int, k as nat)) by {
            reveal(pow);
        }
        match acc.checked_mul(base) {
            Some(v) => {
                acc = v;
            },
            None => {
                proof {
                    // base > 0 here, so the powers only grow.
                    assert(acc * base > u64::MAX);
                    assert(base > 0) by (nonlinear_arith)
                        requires
                            acc * base > u64::MAX,
                    ;
                    vstd::arithmetic::power::lemma_pow_increases(
                        base as nat,
                        (k + 1) as nat,
                        exp as nat,
                    );
                }
                return None;
            },
        }
        k = k + 1;
    }
    Some(acc)
}

/// `a / b` rounded up.
fn div_ceil_u64(a: u64, b: u64) -> (r: u64)
    requires
        b != 0,
    ensures
        r == ceil_div(a as int, b as int),
{
    let q = a / b;
    let m = a % b;
    proof {
        let (ai, bi, qi, mi) = (a as int, b as int, q as int, m as int);
        vstd::arithmetic::div_mod::lemma_fundamental_div_mod(ai, bi);
        vstd::arithmetic::div_mod::lemma_mod_bound(ai, bi);
        assert(ai == bi * qi + mi);
        assert(bi * qi == qi * bi) by (nonlinear_arith);
        if m == 0 {
            vstd::arithmetic::div_mod::lemma_fundamental_div_mod_converse(ai + bi - 1, bi, qi, bi - 1);
        } else {
            assert(ai + bi - 1 == (qi + 1) * bi + (mi - 1)) by (nonlinear_arith)
                requires
                    ai == qi * bi + mi,
            ;
            vstd::arithmetic::div_mod::lemma_fundamental_div_mod_converse(
                ai + bi - 1,
                bi,
                qi + 1,
                mi - 1,
            );
            assert(qi < u64::MAX) by (nonlinear_arith)
                requires
                    ai == qi * bi + mi,
                    0 < mi < bi,
                    ai <= u64::MAX,
                    qi >= 0,
            ;
        }
    }
    if m == 0 {
        q
    } else {
        q + 1
    }
}

/// `(scaling_factor, scaling_up)` for a token with `decimals` decimals:
/// `10^(9 - decimals)` applied upward, or `10^(decimals - 9)` applied
/// downward; `None` only when the factor overflows a `u64`.
pub open spec fn spec_scaling_for(decimals: u32) -> Option<(u64, bool)> {
    if decimals <= INTERNAL_DECIMALS {
        match opt_u64(pow(10, (INTERNAL_DECIMALS - decimals) as nat)) {
            Some(f) => Some((f, true)),
            None => None,
        }
    } else {
        match opt_u64(pow(10, (decimals - INTERNAL_DECIMALS) as nat)) {
            Some(f) => Some((f, false)),
            None => None,
        }
    }
}

/// Derive `(scaling_factor, scaling_up)` for a token with the given
/// `decimals`.
pub fn scaling_for(decimals: u32) -> (r: Option<(u64, bool)>)
    ensures
        r == spec_scaling_for(decimals),
{
    if decimals <= INTERNAL_DECIMALS {
        Some((checked_pow_u64(10, INTERNAL_DECIMALS - decimals)?, true))
    } else {
        Some((checked_pow_u64(10, decimals - INTERNAL_DECIMALS)?, false))
    }
}

/// A raw amount at the internal scale, before the range check: multiplied
/// by the factor when scaling up, divided (rounded down) otherwise.
pub open spec fn scaled_raw(raw: int, factor: u64, up: bool) -> int {
    if up {
        raw * factor
    } else {
        raw / (factor as int)
    }
}

/// The internal balance of a raw amount: `None` for a negative amount, a
/// product past `i128`, or a result above `MAX_SAFE_BALANCE`.
pub open spec fn spec_to_internal(raw: i128, factor: u64, up: bool) -> Option<u64> {
    if raw < 0 {
        None
    } else if up && raw * factor > i128::MAX {
        None
    } else if scaled_raw(raw as int, factor, up) > MAX_SAFE_BALANCE {
        None
    } else {
        Some(scaled_raw(raw as int, factor, up) as u64)
    }
}

/// Raw token amount (`i128`) -> normalized internal balance (`u64` at 9
/// decimals), rounded down (sub-precision dust of tokens with more than 9
/// decimals is dropped). `None` for a negative amount or one beyond
/// `MAX_SAFE_BALANCE`.
pub fn to_internal(raw: i128, scaling_factor: u64, scaling_up: bool) -> (r: Option<u64>)
    requires
        !scaling_up ==> scaling_factor != 0,
    ensures
        r == spec_to_internal(raw, scaling_factor, scaling_up),
        r matches Some(v) ==> v <= MAX_SAFE_BALANCE,
{
    if raw < 0 {
        return None;
    }
    let factor = scaling_factor as i128;
    let scaled = if scaling_up {
        raw.checked_mul(factor)?
    } else {
        raw / factor
    };
    let scaled = u64::try_from(scaled).ok()?;
    if scaled > MAX_SAFE_BALANCE {
        None
    } else {
        Some(scaled)
    }
}

/// The raw amount of an internal balance, rounded down: divided by the
/// factor when scaling up, multiplied otherwise.
pub open spec fn spec_from_internal(internal: u64, factor: u64, up: bool) -> int {
    if up {
        (internal as int) / (factor as int)
    } else {
        internal * factor
    }
}

/// The raw amount of an internal balance, rounded up.
pub open spec fn spec_from_internal_up(internal: u64, factor: u64, up: bool) -> int {
    if up {
        ceil_div(internal as int, factor as int)
    } else {
        internal * factor
    }
}

/// The conversion back to raw units is defined (no zero divisor) and fits in
/// an `i128`.
pub open spec fn from_internal_defined(internal: u64, factor: u64, up: bool) -> bool {
    &&& factor != 0
    &&& !up ==> internal * factor <= i128::MAX
}

/// Normalized internal balance -> raw token amount. For tokens with at most
/// 9 decimals this rounds down; any sub-precision remainder stays in the
/// pool.
pub fn from_internal(internal: u64, scaling_factor: u64, scaling_up: bool) -> (r: i128)
    requires
        from_internal_defined(internal, scaling_factor, scaling_up),
    ensures
        r == spec_from_internal(internal, scaling_factor, scaling_up),
{
    if scaling_up {
        (internal / scaling_factor) as i128
    } else {
        (internal as i128) * (scaling_factor as i128)
    }
}

/// Like `from_internal` but rounded up: used when charging a computed input,
/// so any sub-precision remainder favours the pool.
pub fn from_internal_up(internal: u64, scaling_factor: u64, scaling_up: bool) -> (r: i128)
    requires
        from_internal_defined(internal, scaling_factor, scaling_up),
    ensures
        r == spec_from_internal_up(internal, scaling_factor, scaling_up),
{
    if scaling_up {
        proof {
            crate::math::stable::lemma_ceil_div_le(internal as int, scaling_factor as int);
        }
        div_ceil_u64(internal, scaling_factor) as i128
    } else {
        (internal as i128) * (scaling_factor as i128)
    }
}


/// Law: for tokens with at most 9 decimals (scaling up), normalizing a raw
/// amount and converting it back is lossless.
pub proof fn law_scale_up_roundtrip(raw: i128, factor: u64)
    requires
        factor >= 1,
        spec_to_internal(raw, factor, true) is Some,
    ensures
        spec_from_internal(spec_to_internal(raw, factor, true)->0, factor, true) == raw,
{
    vstd::arithmetic::div_mod::lemma_div_by_multiple(raw as int, factor as int);
}

/// Law: for tokens with more than 9 decimals (scaling down), normalizing
/// truncates toward the pool: converting back gives at most the raw amount,
/// and less than one factor below it.
pub proof fn law_scale_down_truncates(raw: i128, factor: u64)
    requires
        factor >= 1,
        spec_to_internal(raw, factor, false) is Some,
    ensures
        ({
            let back = spec_from_internal(spec_to_internal(raw, factor, false)->0, factor, false);
            back <= raw < back + factor
        }),
{
    crate::math::arithmetic::lemma_ceil_floor(raw as int, factor as int);
    vstd::arithmetic::div_mod::lemma_fundamental_div_mod(raw as int, factor as int);
    vstd::arithmetic::div_mod::lemma_mod_pos_bound(raw as int, factor as int);
}

/// Law: converting back rounded up gives the rounded-down amount, or one
/// more when scaling up leaves a remainder; scaling down is exact either way.
pub proof fn law_from_internal_rounding(internal: u64, factor: u64, up: bool)
    requires
        factor >= 1,
    ensures
        spec_from_internal(internal, factor, up) <= spec_from_internal_up(internal, factor, up)
            <= spec_from_internal(internal, factor, up) + 1,
        !up ==> spec_from_internal_up(internal, factor, up) == spec_from_internal(
            internal,
            factor,
            up,
        ),
{
    if up {
        crate::math::arithmetic::lemma_ceil_floor(internal as int, factor as int);
    }
}

} // verus!
