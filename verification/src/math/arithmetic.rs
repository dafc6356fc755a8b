//! Integer arithmetic shared by the stable-swap math: `u64` mul-div with
//! explicit rounding, an overflow-checked sum, and the 256-bit helpers the
//! Newton solvers run on (division by zero and subtraction underflow surface
//! as `None`; a product past 256 bits is excluded by the callers' contracts).
use soroban_sdk::Env;
use vstd::arithmetic::div_mod::lemma_div_plus_one;
use vstd::prelude::*;

use super::wide::{
    wide_add, wide_div, wide_eq, wide_from_u128, wide_lt, wide_modulus, wide_mul, wide_sub,
    wide_to_u128, Wide,
};

verus! {

/// `ceil(x / d)` for nonnegative `x` and positive `d`.
pub open spec fn ceil_div(x: int, d: int) -> int {
    (x + d - 1) / d
}

/// `x` as a `u64` when it fits.
pub open spec fn opt_u64(x: int) -> Option<u64> {
    if 0 <= x <= u64::MAX {
        Some(x as u64)
    } else {
        None
    }
}

/// Sum of a sequence of balances, as a mathematical integer.
pub open spec fn seq_sum(s: Seq<u64>) -> int
    decreases s.len(),
{
    if s.len() == 0 {
        0
    } else {
        seq_sum(s.drop_last()) + s.last()
    }
}

pub open spec fn spec_mul_div_up_u64(value: u64, mul: u64, div: u64) -> Option<u64> {
    if div == 0 {
        None
    } else {
        opt_u64(ceil_div(value * mul, div as int))
    }
}

pub open spec fn spec_mul_div_down_u64(value: u64, mul: u64, div: u64) -> Option<u64> {
    if div == 0 {
        None
    } else {
        opt_u64((value * mul) / (div as int))
    }
}

pub open spec fn spec_checked_sum(s: Seq<u64>) -> Option<u64> {
    opt_u64(seq_sum(s))
}

/// For a positive numerator, `(x - 1) / d + 1` is the rounded-up quotient.
pub proof fn lemma_ceil_div_positive(x: int, d: int)
    requires
        x >= 1,
        d >= 1,
    ensures
        (x - 1) / d + 1 == ceil_div(x, d),
        ceil_div(0, d) == 0,
{
    lemma_div_plus_one(x - 1, d);
    assert((d + (x - 1)) == x + d - 1);
    assert(0 <= d - 1 < d);
    vstd::arithmetic::div_mod::lemma_basic_div(d - 1, d);
}

/// Every prefix sum of nonnegative terms is bounded by the whole sum.
pub proof fn lemma_seq_sum_prefix(s: Seq<u64>, k: int)
    requires
        0 <= k <= s.len(),
    ensures
        0 <= seq_sum(s.subrange(0, k)) <= seq_sum(s),
    decreases s.len(),
{
    if s.len() > 0 {
        if k == s.len() {
            assert(s.subrange(0, k) =~= s);
            lemma_seq_sum_prefix(s.drop_last(), k - 1);
        } else {
            assert(s.drop_last().subrange(0, k) =~= s.subrange(0, k));
            lemma_seq_sum_prefix(s.drop_last(), k);
        }
    }
}

/// `ceil(value * mul / div)` through a `u128` intermediate; `None` when `div`
/// is zero or the quotient does not fit in a `u64`.
pub fn mul_div_up_u64(value: u64, mul: u64, div: u64) -> (r: Option<u64>)
    ensures
        r == spec_mul_div_up_u64(value, mul, div),
{
    if div == 0 {
        return None;
    }
    assert((value as int) * (mul as int) <= u64::MAX * u64::MAX) by (nonlinear_arith);
    let product = (value as u128).checked_mul(mul as u128)?;
    if product == 0 {
        proof {
            lemma_ceil_div_positive(1, div as int);
        }
        return Some(0);
    }
    proof {
        lemma_ceil_div_positive(product as int, div as int);
    }
    u64::try_from((product - 1) / div as u128 + 1).ok()
}

/// `floor(value * mul / div)` through a `u128` intermediate; `None` when `div`
/// is zero or the quotient does not fit in a `u64`.
pub fn mul_div_down_u64(value: u64, mul: u64, div: u64) -> (r: Option<u64>)
    ensures
        r == spec_mul_div_down_u64(value, mul, div),
{
    if div == 0 {
        return None;
    }
    assert((value as int) * (mul as int) <= u64::MAX * u64::MAX) by (nonlinear_arith);
    let product = (value as u128).checked_mul(mul as u128)?;
    u64::try_from(product / div as u128).ok()
}

/// Sum of a slice, `None` on overflow instead of trapping.
pub fn checked_sum(values: &[u64]) -> (r: Option<u64>)
    ensures
        r == spec_checked_sum(values@),
{
    let mut acc: u64 = 0;
    let mut i: usize = 0;
    while i < values.len()
        invariant
            0 <= i <= values.len(),
            acc == seq_sum(values@.subrange(0, i as int)),
        decreases values.len() - i,
    {
        assert(values@.subrange(0, i + 1).drop_last() =~= values@.subrange(0, i as int));
        match acc.checked_add(values[i]) {
            Some(next) => {
                acc = next;
            },
            None => {
                proof {
                    lemma_seq_sum_prefix(values@, i + 1);
                }
                return None;
            },
        }
        i = i + 1;
    }
    assert(values@.subrange(0, i as int) =~= values@);
    Some(acc)
}


/// A `u64` as a 256-bit host number.
pub fn u256(e: &Env, value: u64) -> (r: Wide)
    ensures
        r.value() == value,
{
    wide_from_u128(e, value as u128)
}

/// A 256-bit number as a `u64`, when it fits.
pub fn to_u64(e: &Env, value: &Wide) -> (r: Option<u64>)
    ensures
        r == opt_u64(value.value() as int),
{
    match wide_to_u128(e, value) {
        Some(v) => u64::try_from(v).ok(),
        None => None,
    }
}

/// `floor(num1 * num2 / den)`; `None` when `den` is zero.
pub fn mul_div_down(e: &Env, num1: &Wide, num2: &Wide, den: &Wide, zero: &Wide) -> (r: Option<
    Wide,
>)
    requires
        zero.value() == 0,
        den.value() != 0 ==> num1.value() * num2.value() < wide_modulus(),
    ensures
        match r {
            None => den.value() == 0,
            Some(w) => den.value() != 0 && w.value() == num1.value() * num2.value() / den.value(),
        },
{
    if wide_eq(e, den, zero) {
        return None;
    }
    let product = wide_mul(e, num1, num2);
    Some(wide_div(e, &product, den))
}

/// `ceil(num1 * num2 / den)`; `None` when `den` is zero.
pub fn mul_div_up(e: &Env, num1: &Wide, num2: &Wide, den: &Wide, zero: &Wide, one: &Wide) -> (r:
    Option<Wide>)
    requires
        zero.value() == 0,
        one.value() == 1,
        den.value() != 0 ==> num1.value() * num2.value() < wide_modulus(),
    ensures
        match r {
            None => den.value() == 0,
            Some(w) => den.value() != 0 && w.value() == ceil_div(
                (num1.value() * num2.value()) as int,
                den.value() as int,
            ),
        },
{
    if wide_eq(e, den, zero) {
        return None;
    }
    let product = wide_mul(e, num1, num2);
    if wide_eq(e, &product, zero) {
        proof {
            lemma_ceil_div_positive(1, den.value() as int);
        }
        return Some(*zero);
    }
    proof {
        lemma_ceil_div_positive(product.value() as int, den.value() as int);
        lemma_quotient_step_fits(product.value() as int, den.value() as int);
    }
    let reduced = wide_sub(e, &product, one);
    let quotient = wide_div(e, &reduced, den);
    Some(wide_add(e, &quotient, one))
}

/// `ceil(num / den)`; `None` when `den` is zero.
pub fn div_up(e: &Env, num: &Wide, den: &Wide, zero: &Wide, one: &Wide) -> (r: Option<Wide>)
    requires
        zero.value() == 0,
        one.value() == 1,
        num.value() < wide_modulus(),
    ensures
        match r {
            None => den.value() == 0,
            Some(w) => den.value() != 0 && w.value() == ceil_div(
                num.value() as int,
                den.value() as int,
            ),
        },
{
    if wide_eq(e, den, zero) {
        return None;
    }
    if wide_eq(e, num, zero) {
        proof {
            lemma_ceil_div_positive(1, den.value() as int);
        }
        return Some(*zero);
    }
    proof {
        lemma_ceil_div_positive(num.value() as int, den.value() as int);
        lemma_quotient_step_fits(num.value() as int, den.value() as int);
    }
    let reduced = wide_sub(e, num, one);
    let quotient = wide_div(e, &reduced, den);
    Some(wide_add(e, &quotient, one))
}

/// `a - b`, or `None` when `b` exceeds `a`.
pub fn checked_sub(e: &Env, a: &Wide, b: &Wide) -> (r: Option<Wide>)
    ensures
        match r {
            None => a.value() < b.value(),
            Some(w) => b.value() <= a.value() && w.value() == a.value() - b.value(),
        },
{
    if wide_lt(e, a, b) {
        return None;
    }
    Some(wide_sub(e, a, b))
}

/// For a positive numerator below `2^256`, `(x - 1) / d + 1` stays below
/// `2^256`.
proof fn lemma_quotient_step_fits(x: int, d: int)
    requires
        1 <= x < wide_modulus(),
        d >= 1,
    ensures
        (x - 1) / d + 1 <= x,
        (x - 1) / d < wide_modulus(),
{
    vstd::arithmetic::div_mod::lemma_div_is_ordered_by_denominator(x - 1, 1, d);
    vstd::arithmetic::div_mod::lemma_div_basics(x - 1);
    vstd::arithmetic::div_mod::lemma_div_pos_is_pos(x - 1, d);
}


/// Rounding a quotient up gives the rounded-down quotient, plus one exactly
/// when the division leaves a remainder; the two bracket the exact quotient.
pub proof fn lemma_ceil_floor(x: int, d: int)
    requires
        x >= 0,
        d >= 1,
    ensures
        x / d <= ceil_div(x, d) <= x / d + 1,
        (ceil_div(x, d) == x / d) <==> (x % d == 0),
        (x / d) * d <= x <= ceil_div(x, d) * d,
{
    let q = x / d;
    let r = x % d;
    vstd::arithmetic::div_mod::lemma_fundamental_div_mod(x, d);
    vstd::arithmetic::div_mod::lemma_mod_pos_bound(x, d);
    assert(x == d * q + r);
    if r == 0 {
        vstd::arithmetic::div_mod::lemma_div_multiples_vanish_fancy(q, d - 1, d);
        assert(d * q + (d - 1) == x + d - 1);
        assert(ceil_div(x, d) == q);
    } else {
        vstd::arithmetic::div_mod::lemma_div_multiples_vanish_fancy(q + 1, r - 1, d);
        assert(d * (q + 1) + (r - 1) == x + d - 1) by (nonlinear_arith)
            requires
                x == d * q + r,
        ;
        assert(ceil_div(x, d) == q + 1);
        assert((q + 1) * d == d * q + d) by (nonlinear_arith);
    }
    assert(q * d == d * q) by (nonlinear_arith);
}

/// Law: `mul_div_up_u64` never gives less than `mul_div_down_u64` and at
/// most one more; they agree exactly when the division is exact, and the two
/// bracket `value * mul / div`.
pub proof fn law_mul_div_rounding(value: u64, mul: u64, div: u64)
    requires
        div > 0,
        spec_mul_div_up_u64(value, mul, div) is Some,
    ensures
        spec_mul_div_down_u64(value, mul, div) is Some,
        ({
            let down = spec_mul_div_down_u64(value, mul, div)->0;
            let up = spec_mul_div_up_u64(value, mul, div)->0;
            &&& down <= up <= down + 1
            &&& (up == down <==> (value * mul) % (div as int) == 0)
            &&& down * div <= value * mul <= up * div
        }),
{
    assert((value as int) * (mul as int) >= 0) by (nonlinear_arith);
    lemma_ceil_floor(value * mul, div as int);
}

} // verus!
