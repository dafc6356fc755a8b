//! The StableSwap invariant and the swap, join and exit formulas built on it.
//!
//! Both solvers are Newton–Raphson iterations on 256-bit host integers, each
//! capped at 64 rounds. Their contracts state exactly which iterate is
//! returned: the first one within the convergence threshold of its
//! predecessor, with every division rounded as the code rounds it. A product
//! past 256 bits would trap in the host, so each solver asks in its
//! `requires` that the iteration it will run stays within 256 bits.
use soroban_sdk::Env;
use vstd::prelude::*;

use super::arithmetic::{
    checked_sub, checked_sum, div_up, mul_div_down, mul_div_up, mul_div_up_u64, opt_u64,
    seq_sum, spec_checked_sum, to_u64, u256, ceil_div, spec_mul_div_up_u64,
};
use super::fixed_math::{
    self, spec_complement, spec_div_down, spec_mul_down, spec_mul_up, FixedComplement, FixedDiv,
    FixedMul,
};
use super::wide::{wide_add, wide_modulus, wide_mul, wide_shl, Wide};
use super::{AMP_PRECISION, BALANCE_THRESHOLD, DEFAULT_INV_THRESHOLD, MAX_TOKENS};

verus! {

// ---------------------------------------------------------------------------
// The invariant D.
// ---------------------------------------------------------------------------

/// The convergence threshold used when none is given.
pub open spec fn threshold_of(t: Option<u64>) -> nat {
    match t {
        Some(v) => v as nat,
        None => DEFAULT_INV_THRESHOLD as nat,
    }
}

/// `|a - b|`.
pub open spec fn dist(a: int, b: int) -> int {
    if a >= b {
        a - b
    } else {
        b - a
    }
}

/// Each balance times the token count: the divisors of the `D^(n+1)/(n^n P)`
/// term.
pub open spec fn scaled_balances(bs: Seq<u64>, n: nat) -> Seq<nat> {
    Seq::new(bs.len(), |i: int| (bs[i] * n) as nat)
}

/// `p = D`, then `p = p * D / divisors[i]` for the first `k` divisors
/// (rounded down); `None` at a zero divisor.
pub open spec fn invariant_p(d: nat, divisors: Seq<nat>, k: nat) -> Option<nat>
    decreases k,
{
    if k == 0 {
        Some(d)
    } else {
        match invariant_p(d, divisors, (k - 1) as nat) {
            None => None,
            Some(p) => if divisors[k - 1] == 0 {
                None
            } else {
                Some(p * d / divisors[k - 1])
            },
        }
    }
}

/// Every product `p * D` formed for the first `k` divisors fits in 256 bits.
pub open spec fn invariant_p_fits(d: nat, divisors: Seq<nat>, k: nat) -> bool
    decreases k,
{
    if k == 0 {
        true
    } else {
        invariant_p_fits(d, divisors, (k - 1) as nat) && match invariant_p(
            d,
            divisors,
            (k - 1) as nat,
        ) {
            None => true,
            Some(p) => divisors[k - 1] != 0 ==> p * d < wide_modulus(),
        }
    }
}

/// The Newton numerator `A n^n S / AMP_PRECISION + p n`.
pub open spec fn invariant_numerator(nc: nat, n: nat, p: nat) -> nat {
    nc + p * n
}

/// The Newton denominator `(A n^n - AMP_PRECISION) D / AMP_PRECISION + (n + 1) p`.
pub open spec fn invariant_denominator(am: nat, n: nat, d: nat, p: nat) -> nat {
    am * d / (AMP_PRECISION as nat) + (n + 1) * p
}

/// One Newton step from `d`: `numerator * d / denominator`, rounded down.
pub open spec fn invariant_step(am: nat, nc: nat, n: nat, divisors: Seq<nat>, d: nat) -> Option<
    nat,
> {
    match invariant_p(d, divisors, n) {
        None => None,
        Some(p) => {
            let den = invariant_denominator(am, n, d, p);
            if den == 0 {
                None
            } else {
                Some(invariant_numerator(nc, n, p) * d / den)
            }
        },
    }
}

/// Every intermediate of the step from `d` fits in 256 bits.
pub open spec fn invariant_step_fits(am: nat, nc: nat, n: nat, divisors: Seq<nat>, d: nat) -> bool {
    &&& invariant_p_fits(d, divisors, n)
    &&& match invariant_p(d, divisors, n) {
        None => true,
        Some(p) => {
            let num = invariant_numerator(nc, n, p);
            let den = invariant_denominator(am, n, d, p);
            &&& p * n < wide_modulus()
            &&& num < wide_modulus()
            &&& am * d < wide_modulus()
            &&& (n + 1) * p < wide_modulus()
            &&& den < wide_modulus()
            &&& den != 0 ==> num * d < wide_modulus()
        },
    }
}

/// Up to `fuel` Newton steps from `d`: the first iterate within `th` of its
/// predecessor, `None` when a step fails, leaves `u64`, or fuel runs out.
pub open spec fn invariant_newton(
    am: nat,
    nc: nat,
    n: nat,
    divisors: Seq<nat>,
    th: nat,
    d: nat,
    fuel: nat,
) -> Option<u64>
    decreases fuel,
{
    if fuel == 0 {
        None
    } else {
        match invariant_step(am, nc, n, divisors, d) {
            None => None,
            Some(d1) => if d1 > u64::MAX {
                None
            } else if dist(d1 as int, d as int) <= th {
                Some(d1 as u64)
            } else {
                invariant_newton(am, nc, n, divisors, th, d1, (fuel - 1) as nat)
            },
        }
    }
}

/// Every step that `invariant_newton` takes stays within 256 bits.
pub open spec fn invariant_newton_fits(
    am: nat,
    nc: nat,
    n: nat,
    divisors: Seq<nat>,
    th: nat,
    d: nat,
    fuel: nat,
) -> bool
    decreases fuel,
{
    if fuel == 0 {
        true
    } else {
        invariant_step_fits(am, nc, n, divisors, d) && match invariant_step(
            am,
            nc,
            n,
            divisors,
            d,
        ) {
            None => true,
            Some(d1) => d1 > u64::MAX || dist(d1 as int, d as int) <= th || invariant_newton_fits(
                am,
                nc,
                n,
                divisors,
                th,
                d1,
                (fuel - 1) as nat,
            ),
        }
    }
}

/// Whether the balances reach the Newton iteration, and with which
/// coefficients: the sum fits in `u64` and is positive, there are at most
/// `MAX_TOKENS` balances, and `A n`, each `balance * n` and
/// `A n - AMP_PRECISION` stay in range.
pub open spec fn invariant_solvable(amp: u64, bs: Seq<u64>) -> bool {
    let n = bs.len();
    &&& 0 < seq_sum(bs) <= u64::MAX
    &&& n <= MAX_TOKENS
    &&& amp * n <= u64::MAX
    &&& forall|i: int| 0 <= i < n ==> #[trigger] (bs[i] * n) <= u64::MAX
    &&& amp * n >= AMP_PRECISION
}

/// The iteration `calc_invariant` runs for solvable balances, starting from
/// `D = S` with 64 rounds.
pub open spec fn invariant_iteration(amp: u64, bs: Seq<u64>, th: nat) -> Option<u64> {
    let n = bs.len();
    let ann = (amp * n) as nat;
    invariant_newton(
        (ann - AMP_PRECISION) as nat,
        (ann * seq_sum(bs) / (AMP_PRECISION as int)) as nat,
        n,
        scaled_balances(bs, n),
        th,
        seq_sum(bs) as nat,
        64,
    )
}

/// The StableSwap invariant `D` of `bs` as `calc_invariant` computes it.
pub open spec fn spec_calc_invariant(amp: u64, bs: Seq<u64>, th: nat) -> Option<u64> {
    if seq_sum(bs) > u64::MAX {
        None
    } else if seq_sum(bs) == 0 {
        Some(0)
    } else if !invariant_solvable(amp, bs) {
        None
    } else {
        invariant_iteration(amp, bs, th)
    }
}

/// The host arithmetic of `calc_invariant` stays within 256 bits.
pub open spec fn invariant_fits(amp: u64, bs: Seq<u64>, th: nat) -> bool {
    invariant_solvable(amp, bs) ==> {
        let n = bs.len();
        let ann = (amp * n) as nat;
        invariant_newton_fits(
            (ann - AMP_PRECISION) as nat,
            (ann * seq_sum(bs) / (AMP_PRECISION as int)) as nat,
            n,
            scaled_balances(bs, n),
            th,
            seq_sum(bs) as nat,
            64,
        )
    }
}

proof fn lemma_invariant_p_none_stays(d: nat, divisors: Seq<nat>, k: nat, m: nat)
    requires
        k <= m,
        invariant_p(d, divisors, k) is None,
    ensures
        invariant_p(d, divisors, m) is None,
    decreases m - k,
{
    if k < m {
        lemma_invariant_p_none_stays(d, divisors, k + 1, m);
    }
}

proof fn lemma_invariant_p_fits_prefix(d: nat, divisors: Seq<nat>, k: nat, m: nat)
    requires
        k <= m,
        invariant_p_fits(d, divisors, m),
    ensures
        invariant_p_fits(d, divisors, k),
    decreases m - k,
{
    if k < m {
        lemma_invariant_p_fits_prefix(d, divisors, k, (m - 1) as nat);
    }
}

/// One Newton step of the StableSwap equation from `prev` lands on `d`:
/// with `p = prev^(n+1) / (n^n prod(balances))` (rounded as the solver rounds),
/// `d = numerator * prev / denominator` rounded down, i.e.
/// `d * denominator <= numerator * prev < (d + 1) * denominator`.
pub open spec fn invariant_newton_lands(amp: u64, bs: Seq<u64>, prev: nat, d: nat) -> bool {
    let n = bs.len();
    let ann = (amp * n) as nat;
    let am = (ann - AMP_PRECISION) as nat;
    let nc = (ann * seq_sum(bs) / (AMP_PRECISION as int)) as nat;
    match invariant_p(prev, scaled_balances(bs, n), n) {
        None => false,
        Some(p) => {
            let num = invariant_numerator(nc, n, p);
            let den = invariant_denominator(am, n, prev, p);
            &&& den > 0
            &&& d * den <= num * prev
            &&& num * prev < (d + 1) * den
        },
    }
}

proof fn lemma_invariant_newton_result(
    am: nat,
    nc: nat,
    n: nat,
    divisors: Seq<nat>,
    th: nat,
    d: nat,
    fuel: nat,
    x: u64,
)
    requires
        invariant_newton(am, nc, n, divisors, th, d, fuel) == Some(x),
    ensures
        exists|prev: nat|
            dist(x as int, prev as int) <= th && #[trigger] invariant_step(
                am,
                nc,
                n,
                divisors,
                prev,
            ) == Some(x as nat),
    decreases fuel,
{
    let d1 = invariant_step(am, nc, n, divisors, d)->0;
    if dist(d1 as int, d as int) <= th {
        assert(invariant_step(am, nc, n, divisors, d) == Some(x as nat));
    } else {
        lemma_invariant_newton_result(am, nc, n, divisors, th, d1, (fuel - 1) as nat, x);
    }
}

/// Law: the invariant `calc_invariant` returns for a nonempty pool is a
/// converged Newton iterate of the StableSwap equation: one Newton step from
/// a point within the convergence threshold of `D` lands exactly on `D`.
pub proof fn law_invariant_is_newton_fixpoint(amp: u64, bs: Seq<u64>, th: nat, d: u64)
    requires
        seq_sum(bs) > 0,
        spec_calc_invariant(amp, bs, th) == Some(d),
    ensures
        exists|prev: nat|
            dist(d as int, prev as int) <= th && #[trigger] invariant_newton_lands(
                amp,
                bs,
                prev,
                d as nat,
            ),
{
    let n = bs.len();
    let ann = (amp * n) as nat;
    let am = (ann - AMP_PRECISION) as nat;
    let nc = (ann * seq_sum(bs) / (AMP_PRECISION as int)) as nat;
    let divisors = scaled_balances(bs, n);
    lemma_invariant_newton_result(am, nc, n, divisors, th, seq_sum(bs) as nat, 64, d);
    let prev = choose|prev: nat|
        dist(d as int, prev as int) <= th && #[trigger] invariant_step(am, nc, n, divisors, prev)
            == Some(d as nat);
    let p = invariant_p(prev, divisors, n)->0;
    let num = invariant_numerator(nc, n, p);
    let den = invariant_denominator(am, n, prev, p);
    assert(d as nat == num * prev / den);
    vstd::arithmetic::div_mod::lemma_fundamental_div_mod((num * prev) as int, den as int);
    vstd::arithmetic::div_mod::lemma_mod_bound((num * prev) as int, den as int);
    assert((d + 1) * den == d * den + den) by (nonlinear_arith);
    assert(den * d == d * den) by (nonlinear_arith);
    assert(invariant_newton_lands(amp, bs, prev, d as nat));
}

/// The invariant `D` of `balances`, by Newton–Raphson (Curve's
/// `get_D`); the amplification parameter is `A n^(n-1)` times
/// `AMP_PRECISION`. `None` on overflow of the `u64` inputs, more than
/// `MAX_TOKENS` balances, a zero balance in a nonempty pool, or no
/// convergence within 64 rounds.
pub fn calc_invariant(e: &Env, amplification: u64, balances: &[u64], inv_threshold: Option<u64>) -> (r:
    Option<u64>)
    requires
        invariant_fits(amplification, balances@, threshold_of(inv_threshold)),
    ensures
        r == spec_calc_invariant(amplification, balances@, threshold_of(inv_threshold)),
{
    let ghost bs = balances@;
    let ghost th = threshold_of(inv_threshold);
    let sum = checked_sum(balances)?;
    if sum == 0 {
        return Some(0);
    }
    let num_tokens = balances.len();
    if num_tokens > MAX_TOKENS {
        return None;
    }
    let num_tokens_u64 = num_tokens as u64;

    let zero = u256(e, 0);
    let amp_precision = u256(e, AMP_PRECISION);
    let num_tokens_u256 = u256(e, num_tokens_u64);

    let amp_times_total = match amplification.checked_mul(num_tokens_u64) {
        Some(v) => v,
        None => {
            return None;
        },
    };
    let amp_times_total_u256 = u256(e, amp_times_total);
    let sum_u256 = u256(e, sum);
    let mut current = sum_u256;

    let ghost divisors = scaled_balances(bs, num_tokens as nat);
    let mut balances_times_u256: Vec<Wide> = Vec::new();
    let mut i: usize = 0;
    while i < num_tokens
        invariant
            num_tokens == balances.len(),
            num_tokens_u64 == num_tokens,
            bs == balances@,
            seq_sum(bs) == sum as int,
            sum > 0,
            num_tokens <= MAX_TOKENS,
            divisors == scaled_balances(bs, num_tokens as nat),
            0 <= i <= num_tokens,
            balances_times_u256@.len() == i,
            forall|k: int| 0 <= k < i ==> #[trigger] (bs[k] * num_tokens) <= u64::MAX,
            forall|k: int| 0 <= k < i ==> #[trigger] balances_times_u256@[k].value() == divisors[k],
        decreases num_tokens - i,
    {
        let balance_times = match balances[i].checked_mul(num_tokens_u64) {
            Some(v) => v,
            None => {
                assert(!((bs[i as int] * bs.len()) <= u64::MAX));
                return None;
            },
        };
        assert((bs[i as int] * num_tokens) <= u64::MAX);
        balances_times_u256.push(u256(e, balance_times));
        i = i + 1;
    }
    let amp_minus = match amp_times_total.checked_sub(AMP_PRECISION) {
        Some(v) => u256(e, v),
        None => {
            return None;
        },
    };
    assert(invariant_solvable(amplification, bs));
    let n_plus_1 = u256(e, num_tokens_u64.saturating_add(1));
    assert((amp_times_total as int) * (sum as int) <= u64::MAX * u64::MAX) by (nonlinear_arith);
    let numerator_const = match mul_div_down(
        e,
        &amp_times_total_u256,
        &sum_u256,
        &amp_precision,
        &zero,
    ) {
        Some(v) => v,
        None => {
            return None;
        },
    };

    let threshold = inv_threshold.unwrap_or(DEFAULT_INV_THRESHOLD);
    let ghost am = amp_minus.value();
    let ghost nc = numerator_const.value();
    let ghost n = num_tokens as nat;
    let mut round: usize = 0;
    while round < 64
        invariant
            0 <= round <= 64,
            n == num_tokens,
            num_tokens == balances.len(),
            1 <= num_tokens <= MAX_TOKENS,
            num_tokens_u256.value() == n,
            n_plus_1.value() == n + 1,
            amp_precision.value() == AMP_PRECISION,
            zero.value() == 0,
            am == amp_minus.value(),
            nc == numerator_const.value(),
            threshold == th,
            balances_times_u256@.len() == num_tokens,
            forall|k: int| 0 <= k < num_tokens ==> #[trigger] balances_times_u256@[k].value() == divisors[k],
            divisors.len() == num_tokens,
            current.value() <= u64::MAX,
            invariant_iteration(amplification, bs, th) == invariant_newton(
                am,
                nc,
                n,
                divisors,
                th,
                current.value(),
                (64 - round) as nat,
            ),
            invariant_newton_fits(am, nc, n, divisors, th, current.value(), (64 - round) as nat),
            invariant_solvable(amplification, bs),
            bs == balances@,
            th == threshold_of(inv_threshold),
            spec_calc_invariant(amplification, bs, th) == invariant_iteration(amplification, bs, th),
        decreases 64 - round,
    {
        let ghost d = current.value();
        let mut p = current;
        let mut k: usize = 0;
        while k < num_tokens
            invariant
                0 <= k <= num_tokens,
                num_tokens == balances.len(),
                n == num_tokens,
                zero.value() == 0,
                d == current.value(),
                balances_times_u256@.len() == num_tokens,
                forall|j: int| 0 <= j < num_tokens ==> #[trigger] balances_times_u256@[j].value() == divisors[j],
                invariant_p(d, divisors, k as nat) == Some(p.value()),
                invariant_p_fits(d, divisors, n),
                divisors.len() == num_tokens,
                round < 64,
                bs == balances@,
                th == threshold_of(inv_threshold),
                spec_calc_invariant(amplification, bs, th) == invariant_newton(
                    am,
                    nc,
                    n,
                    divisors,
                    th,
                    d,
                    (64 - round) as nat,
                ),
            decreases num_tokens - k,
        {
            proof {
                lemma_invariant_p_fits_prefix(d, divisors, (k + 1) as nat, n);
            }
            p = match mul_div_down(e, &p, &current, &balances_times_u256[k], &zero) {
                Some(v) => v,
                None => {
                    proof {
                        lemma_invariant_p_none_stays(d, divisors, (k + 1) as nat, n);
                        assert(invariant_step(am, nc, n, divisors, d) is None);
                        assert(invariant_newton(am, nc, n, divisors, th, d, (64 - round) as nat) is None);
                    }
                    return None;
                },
            };
            k = k + 1;
        }
        let prev_invariant = current;
        assert(invariant_p(d, divisors, n) == Some(p.value()));
        assert(invariant_step_fits(am, nc, n, divisors, d));
        let numerator = wide_add(e, &numerator_const, &wide_mul(e, &p, &num_tokens_u256));
        let scaled_prev = match mul_div_down(e, &amp_minus, &current, &amp_precision, &zero) {
            Some(v) => v,
            None => {
                return None;
            },
        };
        let denominator = wide_add(e, &scaled_prev, &wide_mul(e, &n_plus_1, &p));
        current = match mul_div_down(e, &numerator, &current, &denominator, &zero) {
            Some(v) => v,
            None => {
                return None;
            },
        };
        let invariant_u64 = match to_u64(e, &current) {
            Some(v) => v,
            None => {
                return None;
            },
        };
        let prev_invariant_u64 = match to_u64(e, &prev_invariant) {
            Some(v) => v,
            None => {
                return None;
            },
        };
        let diff = if invariant_u64 >= prev_invariant_u64 {
            invariant_u64 - prev_invariant_u64
        } else {
            prev_invariant_u64 - invariant_u64
        };
        if diff <= threshold {
            return Some(invariant_u64);
        }
        round = round + 1;
    }
    None
}


// ---------------------------------------------------------------------------
// The balance of one token given the invariant and all other balances.
// ---------------------------------------------------------------------------

/// `(p, S)` after the first `k >= 1` balances: `p` starts at
/// `balances[0] * n` and takes `p * (balances[i] * n) / D` (rounded down) for
/// each later balance; `S` is their running sum.
pub open spec fn balance_prefix(bs: Seq<u64>, n: nat, inv: nat, k: nat) -> Option<(nat, nat)>
    decreases k,
{
    if k <= 1 {
        if bs[0] * n > u64::MAX {
            None
        } else {
            Some(((bs[0] * n) as nat, bs[0] as nat))
        }
    } else {
        match balance_prefix(bs, n, inv, (k - 1) as nat) {
            None => None,
            Some((p, s)) => {
                let pi = bs[k - 1] * n;
                if pi > u64::MAX || inv == 0 {
                    None
                } else if s + bs[k - 1] > u64::MAX {
                    None
                } else {
                    Some((p * (pi as nat) / inv, (s + bs[k - 1]) as nat))
                }
            },
        }
    }
}

/// Every product formed by `balance_prefix` up to `k` fits in 256 bits.
pub open spec fn balance_prefix_fits(bs: Seq<u64>, n: nat, inv: nat, k: nat) -> bool
    decreases k,
{
    if k <= 1 {
        true
    } else {
        balance_prefix_fits(bs, n, inv, (k - 1) as nat) && match balance_prefix(
            bs,
            n,
            inv,
            (k - 1) as nat,
        ) {
            None => true,
            Some((p, s)) => (bs[k - 1] * n <= u64::MAX && inv != 0) ==> p * ((bs[k - 1]
                * n) as nat) < wide_modulus(),
        }
    }
}

/// The quadratic's coefficients `(b, c)`:
/// `c = ceil(D^2 AMP_PRECISION / (A n^n p)) * balance` and
/// `b = D AMP_PRECISION / (A n^n) + (S - balance)` (the difference floored at
/// zero).
pub open spec fn balance_coefficients(amp: u64, bs: Seq<u64>, inv: nat, balance: nat) -> Option<
    (nat, nat),
> {
    let n = bs.len();
    if amp * n > u64::MAX {
        None
    } else {
        let ann = (amp * n) as nat;
        match balance_prefix(bs, n, inv, n) {
            None => None,
            Some((p, s)) => {
                let rest: nat = if s >= balance {
                    (s - balance) as nat
                } else {
                    0
                };
                if ann * p == 0 {
                    None
                } else {
                    let c = (ceil_div(inv * inv * AMP_PRECISION, (ann * p) as int) * balance) as nat;
                    let b = ((inv * AMP_PRECISION) as nat / ann + rest) as nat;
                    Some((b, c))
                }
            },
        }
    }
}

/// Up to `fuel` Newton steps `y' = ceil((y^2 + c) / (2y + b - D))` from `y`
/// (with `2y` taken modulo `2^256`, as the host shifts): the first iterate
/// within `BALANCE_THRESHOLD` of its predecessor.
pub open spec fn balance_newton(b: nat, c: nat, inv: nat, tb: nat, fuel: nat) -> Option<u64>
    decreases fuel,
{
    if fuel == 0 {
        None
    } else {
        let t2 = (tb * 2) % wide_modulus();
        if t2 + b < inv {
            None
        } else {
            let den = (t2 + b - inv) as nat;
            if den == 0 {
                None
            } else {
                let tb1 = ceil_div((tb * tb + c) as int, den as int) as nat;
                if tb1 > u64::MAX || tb > u64::MAX {
                    None
                } else if dist(tb1 as int, tb as int) <= BALANCE_THRESHOLD {
                    Some(tb1 as u64)
                } else {
                    balance_newton(b, c, inv, tb1, (fuel - 1) as nat)
                }
            }
        }
    }
}

/// Every step that `balance_newton` takes stays within 256 bits.
pub open spec fn balance_newton_fits(b: nat, c: nat, inv: nat, tb: nat, fuel: nat) -> bool
    decreases fuel,
{
    if fuel == 0 {
        true
    } else {
        let t2 = (tb * 2) % wide_modulus();
        &&& t2 + b < wide_modulus()
        &&& t2 + b >= inv ==> {
            let den = (t2 + b - inv) as nat;
            let tb1 = ceil_div((tb * tb + c) as int, den as int) as nat;
            &&& tb * tb + c < wide_modulus()
            &&& (den != 0 && tb1 <= u64::MAX && tb <= u64::MAX && dist(tb1 as int, tb as int)
                > BALANCE_THRESHOLD) ==> balance_newton_fits(b, c, inv, tb1, (fuel - 1) as nat)
        }
    }
}

/// The balance of the token whose current balance is `balance`, given the
/// invariant and the other balances, as the solver computes it.
pub open spec fn spec_token_balance(amp: u64, bs: Seq<u64>, inv: u64, balance: u64) -> Option<u64> {
    match balance_coefficients(amp, bs, inv as nat, balance as nat) {
        None => None,
        Some((b, c)) => if inv + b == 0 {
            None
        } else {
            balance_newton(b, c, inv as nat, ceil_div(inv * inv + c, inv + b) as nat, 64)
        },
    }
}

/// One Newton step of the balance quadratic `y^2 + (b - D) y = c` from
/// `prev` lands on `y`: `y = (prev^2 + c) / (2 prev + b - D)` rounded up, i.e.
/// `(y - 1) * den < prev^2 + c <= y * den` with `den = 2 prev + b - D > 0`.
pub open spec fn balance_newton_lands(b: nat, c: nat, inv: nat, prev: nat, y: nat) -> bool {
    let den = 2 * prev + b - inv;
    &&& den > 0
    &&& (y - 1) * den < prev * prev + c
    &&& prev * prev + c <= y * den
}

proof fn lemma_balance_newton_result(b: nat, c: nat, inv: nat, tb: nat, fuel: nat, y: u64)
    requires
        balance_newton(b, c, inv, tb, fuel) == Some(y),
    ensures
        exists|prev: nat|
            prev <= u64::MAX && dist(y as int, prev as int) <= BALANCE_THRESHOLD
                && #[trigger] balance_newton_lands(b, c, inv, prev, y as nat),
    decreases fuel,
{
    let t2 = (tb * 2) % wide_modulus();
    let den = (t2 + b - inv) as nat;
    let tb1 = ceil_div((tb * tb + c) as int, den as int) as nat;
    if dist(tb1 as int, tb as int) <= BALANCE_THRESHOLD {
        assert(tb <= u64::MAX);
        vstd::arithmetic::div_mod::lemma_small_mod(tb * 2, wide_modulus());
        let x = (tb * tb + c) as int;
        let dd = den as int;
        vstd::arithmetic::div_mod::lemma_fundamental_div_mod(x + dd - 1, dd);
        vstd::arithmetic::div_mod::lemma_mod_bound(x + dd - 1, dd);
        assert(dd * tb1 == (tb1 as int) * dd) by (nonlinear_arith);
        assert(((tb1 - 1) as int) * dd == (tb1 as int) * dd - dd) by (nonlinear_arith);
        assert(balance_newton_lands(b, c, inv, tb, y as nat));
    } else {
        lemma_balance_newton_result(b, c, inv, tb1, (fuel - 1) as nat, y);
    }
}

/// Law: the balance the swap solver returns is a converged Newton iterate of
/// the StableSwap balance quadratic `y^2 + (b - D) y = c` (with `b` and `c`
/// the coefficients of the other balances): one Newton step from a point
/// within `BALANCE_THRESHOLD` of `y` lands exactly on `y`.
pub proof fn law_token_balance_is_newton_fixpoint(amp: u64, bs: Seq<u64>, inv: u64, balance: u64, y: u64)
    requires
        spec_token_balance(amp, bs, inv, balance) == Some(y),
    ensures
        ({
            let (b, c) = balance_coefficients(amp, bs, inv as nat, balance as nat)->0;
            exists|prev: nat|
                prev <= u64::MAX && dist(y as int, prev as int) <= BALANCE_THRESHOLD
                    && #[trigger] balance_newton_lands(b, c, inv as nat, prev, y as nat)
        }),
{
    let (b, c) = balance_coefficients(amp, bs, inv as nat, balance as nat)->0;
    lemma_balance_newton_result(
        b,
        c,
        inv as nat,
        ceil_div(inv * inv + c, inv + b) as nat,
        64,
        y,
    );
}

/// The host arithmetic of the balance solver stays within 256 bits.
pub open spec fn token_balance_fits(amp: u64, bs: Seq<u64>, inv: u64, balance: u64) -> bool {
    let n = bs.len();
    amp * n <= u64::MAX ==> {
        let ann = (amp * n) as nat;
        &&& balance_prefix_fits(bs, n, inv as nat, n)
        &&& match balance_prefix(bs, n, inv as nat, n) {
            None => true,
            Some((p, s)) => {
                &&& ann * p < wide_modulus()
                &&& match balance_coefficients(amp, bs, inv as nat, balance as nat) {
                    None => true,
                    Some((b, c)) => inv + b != 0 ==> balance_newton_fits(
                        b,
                        c,
                        inv as nat,
                        ceil_div(inv * inv + c, inv + b) as nat,
                        64,
                    ),
                }
            },
        }
    }
}

proof fn lemma_balance_prefix_none_stays(bs: Seq<u64>, n: nat, inv: nat, k: nat, m: nat)
    requires
        1 <= k <= m,
        balance_prefix(bs, n, inv, k) is None,
    ensures
        balance_prefix(bs, n, inv, m) is None,
    decreases m - k,
{
    if k < m {
        lemma_balance_prefix_none_stays(bs, n, inv, k + 1, m);
    }
}

proof fn lemma_balance_prefix_fits_prefix(bs: Seq<u64>, n: nat, inv: nat, k: nat, m: nat)
    requires
        k <= m,
        balance_prefix_fits(bs, n, inv, m),
    ensures
        balance_prefix_fits(bs, n, inv, k),
    decreases m - k,
{
    if k < m {
        lemma_balance_prefix_fits_prefix(bs, n, inv, k, (m - 1) as nat);
    }
}

/// A rounded-up quotient never exceeds its numerator.
pub proof fn lemma_ceil_div_le(x: int, d: int)
    requires
        x >= 0,
        d >= 1,
    ensures
        0 <= ceil_div(x, d) <= x || x == 0,
        ceil_div(x, d) >= 0,
        ceil_div(x, d) <= x + 1,
{
    assert(ceil_div(x, d) >= 0) by {
        vstd::arithmetic::div_mod::lemma_div_pos_is_pos(x + d - 1, d);
    }
    if x >= 1 {
        assert((x + d - 1) / d <= x) by {
            vstd::arithmetic::div_mod::lemma_div_is_ordered_by_denominator(x + d - 1, 1, d);
            vstd::arithmetic::div_mod::lemma_div_basics(x + d - 1);
            vstd::arithmetic::div_mod::lemma_fundamental_div_mod(x + d - 1, d);
            assert(d * ((x + d - 1) / d) <= x + d - 1) by {
                vstd::arithmetic::div_mod::lemma_mod_pos_bound(x + d - 1, d);
            }
            assert((x + d - 1) / d <= x) by (nonlinear_arith)
                requires
                    d * ((x + d - 1) / d) <= x + d - 1,
                    d >= 1,
                    x >= 1,
            ;
        }
    } else {
        vstd::arithmetic::div_mod::lemma_basic_div(d - 1, d);
    }
}

/// The balance of one token that keeps the invariant at `invariant`, given
/// the other balances (Balancer's `_getTokenBalanceGivenInvariantAndAllOtherBalances`);
/// `balance` is that token's current balance. Rounds up overall.
fn get_token_balance_given_invariant_n_all_other_balances(
    e: &Env,
    amplification: u64,
    balances: &[u64],
    target: u64,
    balance: u64,
) -> (r: Option<u64>)
    requires
        balances.len() >= 1,
        token_balance_fits(amplification, balances@, target, balance),
    ensures
        r == spec_token_balance(amplification, balances@, target, balance),
{
    let ghost bs = balances@;
    let num_tokens = balances.len() as u64;
    let ghost n = bs.len();
    let zero = u256(e, 0);
    let one = u256(e, 1);
    let amp_precision = u256(e, AMP_PRECISION);
    let amp_times_total = u256(e, amplification.checked_mul(num_tokens)?);
    let inv = u256(e, target);

    let mut sum = balances[0];
    let mut p = match balances[0].checked_mul(num_tokens) {
        Some(v) => u256(e, v),
        None => {
            proof {
                lemma_balance_prefix_none_stays(bs, n, target as nat, 1, n);
            }
            return None;
        },
    };
    assert(balance_prefix(bs, n, target as nat, 1) == Some((p.value(), sum as nat)));
    let mut k: usize = 1;
    while k < balances.len()
        invariant
            1 <= k <= balances.len(),
            bs == balances@,
            n == bs.len(),
            num_tokens == n,
            zero.value() == 0,
            inv.value() == target,
            balance_prefix(bs, n, target as nat, k as nat) == Some((p.value(), sum as nat)),
            balance_prefix_fits(bs, n, target as nat, n),
        decreases balances.len() - k,
    {
        proof {
            lemma_balance_prefix_fits_prefix(bs, n, target as nat, (k + 1) as nat, n);
        }
        let balance_k = balances[k];
        let p_i = match balance_k.checked_mul(num_tokens) {
            Some(v) => u256(e, v),
            None => {
                proof {
                    lemma_balance_prefix_none_stays(bs, n, target as nat, (k + 1) as nat, n);
                }
                return None;
            },
        };
        p = match mul_div_down(e, &p, &p_i, &inv, &zero) {
            Some(v) => v,
            None => {
                proof {
                    lemma_balance_prefix_none_stays(bs, n, target as nat, (k + 1) as nat, n);
                }
                return None;
            },
        };
        sum = match sum.checked_add(balance_k) {
            Some(v) => v,
            None => {
                proof {
                    lemma_balance_prefix_none_stays(bs, n, target as nat, (k + 1) as nat, n);
                }
                return None;
            },
        };
        k = k + 1;
    }
    let ghost s = sum;
    let ghost ann = amp_times_total.value();
    sum = sum.saturating_sub(balance);
    let sum = u256(e, sum);

    assert((target as int) * (target as int) <= u64::MAX * u64::MAX) by (nonlinear_arith);
    let invariant_2 = wide_mul(e, &inv, &inv);
    assert(invariant_2.value() * AMP_PRECISION <= u64::MAX * u64::MAX * 1000) by (nonlinear_arith)
        requires
            invariant_2.value() == target * target,
            target <= u64::MAX,
    ;
    let c_den = wide_mul(e, &amp_times_total, &p);
    let c_base = match mul_div_up(e, &invariant_2, &amp_precision, &c_den, &zero, &one) {
        Some(v) => v,
        None => {
            return None;
        },
    };
    proof {
        lemma_ceil_div_le((invariant_2.value() * AMP_PRECISION) as int, c_den.value() as int);
    }
    assert(amp_times_total.value() != 0) by (nonlinear_arith)
        requires
            c_den.value() == amp_times_total.value() * p.value(),
            c_den.value() != 0,
    ;
    assert(c_base.value() * balance <= (u64::MAX * u64::MAX * 1000 + 1) * u64::MAX) by (
    nonlinear_arith)
        requires
            c_base.value() <= u64::MAX * u64::MAX * 1000 + 1,
            balance <= u64::MAX,
    ;
    let c = wide_mul(e, &c_base, &u256(e, balance));
    let b_base = match mul_div_down(e, &inv, &amp_precision, &amp_times_total, &zero) {
        Some(v) => v,
        None => {
            return None;
        },
    };
    assert(b_base.value() <= target * AMP_PRECISION) by {
        vstd::arithmetic::div_mod::lemma_div_is_ordered_by_denominator(
            (target * AMP_PRECISION) as int,
            1,
            ann as int,
        );
    }
    let b = wide_add(e, &b_base, &sum);
    assert(balance_coefficients(amplification, bs, target as nat, balance as nat) == Some(
        (b.value(), c.value()),
    ));
    let mut token_balance = match div_up(
        e,
        &wide_add(e, &invariant_2, &c),
        &wide_add(e, &inv, &b),
        &zero,
        &one,
    ) {
        Some(v) => v,
        None => {
            return None;
        },
    };

    let mut round: usize = 0;
    while round < 64
        invariant
            0 <= round <= 64,
            zero.value() == 0,
            one.value() == 1,
            inv.value() == target,
            b.value() < wide_modulus(),
            spec_token_balance(amplification, bs, target, balance) == balance_newton(
                b.value(),
                c.value(),
                target as nat,
                token_balance.value(),
                (64 - round) as nat,
            ),
            balance_newton_fits(
                b.value(),
                c.value(),
                target as nat,
                token_balance.value(),
                (64 - round) as nat,
            ),
            bs == balances@,
        decreases 64 - round,
    {
        let ghost tb = token_balance.value();
        let prev_token_balance = token_balance;
        proof {
            vstd::arithmetic::power2::lemma2_to64();
        }
        let doubled = wide_shl(e, &token_balance, 1);
        let denominator = match checked_sub(e, &wide_add(e, &doubled, &b), &inv) {
            Some(v) => v,
            None => {
                return None;
            },
        };
        let squared = wide_mul(e, &token_balance, &token_balance);
        token_balance = match div_up(e, &wide_add(e, &squared, &c), &denominator, &zero, &one) {
            Some(v) => v,
            None => {
                return None;
            },
        };
        let token_balance_u64 = match to_u64(e, &token_balance) {
            Some(v) => v,
            None => {
                return None;
            },
        };
        let prev_token_balance_u64 = match to_u64(e, &prev_token_balance) {
            Some(v) => v,
            None => {
                return None;
            },
        };
        let diff = if token_balance_u64 >= prev_token_balance_u64 {
            token_balance_u64 - prev_token_balance_u64
        } else {
            prev_token_balance_u64 - token_balance_u64
        };
        if diff <= BALANCE_THRESHOLD {
            return Some(token_balance_u64);
        }
        round = round + 1;
    }
    None
}


// ---------------------------------------------------------------------------
// Swaps.
// ---------------------------------------------------------------------------

/// `bs` padded with zeros to `MAX_TOKENS` entries, with entry `index` set to
/// `value`.
pub open spec fn padded_with(bs: Seq<u64>, index: int, value: u64) -> Seq<u64> {
    Seq::new(
        MAX_TOKENS as nat,
        |k: int|
            if k == index {
                value
            } else if k < bs.len() {
                bs[k]
            } else {
                0
            },
    )
}

/// Copy `balances` into a fixed-capacity array with entry `index` set to
/// `value`: the post-trade balances for a single token.
pub fn balances_with(balances: &[u64], index: usize, value: u64) -> (r: [u64; 5])
    requires
        balances.len() <= MAX_TOKENS,
        index < MAX_TOKENS,
    ensures
        r@ == padded_with(balances@, index as int, value),
{
    let mut new_balances = [0u64; 5];
    let mut k: usize = 0;
    while k < balances.len()
        invariant
            0 <= k <= balances.len(),
            balances.len() <= MAX_TOKENS,
            forall|j: int| 0 <= j < k ==> new_balances@[j] == balances@[j],
            forall|j: int| k <= j < MAX_TOKENS ==> new_balances@[j] == 0,
        decreases balances.len() - k,
    {
        new_balances[k] = balances[k];
        k = k + 1;
    }
    new_balances[index] = value;
    assert(new_balances@ =~= padded_with(balances@, index as int, value));
    new_balances
}

/// Tokens paid out for `amount_in` of token `i`, as `calc_out_given_in`
/// computes it: the out-token balance falls to the solver's balance for the
/// unchanged invariant, and the payout is the drop less one unit.
pub open spec fn spec_calc_out_given_in(
    amp: u64,
    bs: Seq<u64>,
    i: int,
    j: int,
    amount_in: u64,
    inv: u64,
) -> Option<u64> {
    let n = bs.len();
    if n > MAX_TOKENS || i < 0 || i >= n || bs[i] + amount_in > u64::MAX || j < 0 || j >= n {
        None
    } else {
        match spec_token_balance(amp, bs.update(i, (bs[i] + amount_in) as u64), inv, bs[j]) {
            None => None,
            Some(f) => if bs[j] < f + 1 {
                None
            } else {
                Some((bs[j] - f - 1) as u64)
            },
        }
    }
}

pub open spec fn out_given_in_fits(
    amp: u64,
    bs: Seq<u64>,
    i: int,
    j: int,
    amount_in: u64,
    inv: u64,
) -> bool {
    let n = bs.len();
    (n <= MAX_TOKENS && 0 <= i < n && bs[i] + amount_in <= u64::MAX && 0 <= j < n)
        ==> token_balance_fits(amp, bs.update(i, (bs[i] + amount_in) as u64), inv, bs[j])
}

/// Tokens that must be paid in for `amount_out` of token `j`, as
/// `calc_in_given_out` computes it: the in-token balance rises to the
/// solver's balance for the unchanged invariant, and the charge is the rise
/// plus one unit.
pub open spec fn spec_calc_in_given_out(
    amp: u64,
    bs: Seq<u64>,
    i: int,
    j: int,
    amount_out: u64,
    inv: u64,
) -> Option<u64> {
    let n = bs.len();
    if n > MAX_TOKENS || j < 0 || j >= n || bs[j] < amount_out || i < 0 || i >= n {
        None
    } else {
        match spec_token_balance(amp, bs.update(j, (bs[j] - amount_out) as u64), inv, bs[i]) {
            None => None,
            Some(f) => if f < bs[i] {
                None
            } else {
                opt_u64(f - bs[i] + 1)
            },
        }
    }
}

pub open spec fn in_given_out_fits(
    amp: u64,
    bs: Seq<u64>,
    i: int,
    j: int,
    amount_out: u64,
    inv: u64,
) -> bool {
    let n = bs.len();
    (n <= MAX_TOKENS && 0 <= j < n && bs[j] >= amount_out && 0 <= i < n) ==> token_balance_fits(
        amp,
        bs.update(j, (bs[j] - amount_out) as u64),
        inv,
        bs[i],
    )
}

/// How many tokens `token_index_out` pays for `token_amount_in` of
/// `token_index_in`, at invariant `invariant`; rounded down. A swap never
/// pays out the whole reserve of the output token.
pub fn calc_out_given_in(
    e: &Env,
    amplification: u64,
    balances: &[u64],
    token_index_in: usize,
    token_index_out: usize,
    token_amount_in: u64,
    inv: u64,
) -> (r: Option<u64>)
    requires
        out_given_in_fits(
            amplification,
            balances@,
            token_index_in as int,
            token_index_out as int,
            token_amount_in,
            inv,
        ),
    ensures
        r == spec_calc_out_given_in(
            amplification,
            balances@,
            token_index_in as int,
            token_index_out as int,
            token_amount_in,
            inv,
        ),
        r matches Some(out) ==> out < balances@[token_index_out as int],
{
    let num_tokens = balances.len();
    if num_tokens > MAX_TOKENS {
        return None;
    }
    if token_index_in >= num_tokens {
        return None;
    }
    let balance_in_new = balances[token_index_in].checked_add(token_amount_in)?;
    let new_balances = balances_with(balances, token_index_in, balance_in_new);
    let new_balances = &new_balances[0..num_tokens];
    assert(new_balances@ =~= balances@.update(token_index_in as int, balance_in_new));

    if token_index_out >= num_tokens {
        return None;
    }
    let balance_out = balances[token_index_out];

    let final_balance_out = get_token_balance_given_invariant_n_all_other_balances(
        e,
        amplification,
        new_balances,
        inv,
        balance_out,
    )?;

    balance_out.checked_sub(final_balance_out)?.checked_sub(1)
}

/// How many tokens of `token_index_in` must be paid for `token_amount_out` of
/// `token_index_out`, at invariant `invariant`; rounded up.
pub fn calc_in_given_out(
    e: &Env,
    amplification: u64,
    balances: &[u64],
    token_index_in: usize,
    token_index_out: usize,
    token_amount_out: u64,
    inv: u64,
) -> (r: Option<u64>)
    requires
        in_given_out_fits(
            amplification,
            balances@,
            token_index_in as int,
            token_index_out as int,
            token_amount_out,
            inv,
        ),
    ensures
        r == spec_calc_in_given_out(
            amplification,
            balances@,
            token_index_in as int,
            token_index_out as int,
            token_amount_out,
            inv,
        ),
        r matches Some(amount) ==> amount >= 1,
{
    let num_tokens = balances.len();
    if num_tokens > MAX_TOKENS {
        return None;
    }
    if token_index_out >= num_tokens {
        return None;
    }
    let balance_out_new = balances[token_index_out].checked_sub(token_amount_out)?;
    let new_balances = balances_with(balances, token_index_out, balance_out_new);
    let new_balances = &new_balances[0..num_tokens];
    assert(new_balances@ =~= balances@.update(token_index_out as int, balance_out_new));

    if token_index_in >= num_tokens {
        return None;
    }
    let balance_in = balances[token_index_in];

    let final_balance_in = get_token_balance_given_invariant_n_all_other_balances(
        e,
        amplification,
        new_balances,
        inv,
        balance_in,
    )?;

    final_balance_in.checked_sub(balance_in)?.checked_add(1)
}


// ---------------------------------------------------------------------------
// Joins.
// ---------------------------------------------------------------------------

/// LP minted for an invariant that grew from `current` to `new`:
/// `supply * (new / current - 1)` in fixed point, rounded down; zero when the
/// invariant did not grow.
pub open spec fn spec_lp_from_invariant_ratio(supply: u64, new_inv: u64, current: u64) -> Option<
    u64,
> {
    match spec_div_down(new_inv, current) {
        None => None,
        Some(ratio) => if ratio > fixed_math::ONE {
            spec_mul_down(supply, (ratio - fixed_math::ONE) as u64)
        } else {
            Some(0)
        },
    }
}

/// LP shares to mint for a deposit that grew the invariant from `current` to
/// `new`, rounded down; none when the invariant did not grow.
pub fn lp_from_invariant_ratio(pool_token_supply: u64, new_invariant: u64, current_invariant: u64) -> (r:
    Option<u64>)
    ensures
        r == spec_lp_from_invariant_ratio(pool_token_supply, new_invariant, current_invariant),
        new_invariant <= current_invariant ==> (r matches Some(lp) ==> lp == 0),
{
    let invariant_ratio = new_invariant.div_down(current_invariant)?;
    if invariant_ratio > fixed_math::ONE {
        proof {
            if new_invariant <= current_invariant {
                vstd::arithmetic::div_mod::lemma_div_is_ordered(
                    new_invariant * fixed_math::ONE,
                    current_invariant * fixed_math::ONE,
                    current_invariant as int,
                );
                vstd::arithmetic::div_mod::lemma_div_by_multiple(
                    fixed_math::ONE as int,
                    current_invariant as int,
                );
                assert(current_invariant * fixed_math::ONE == fixed_math::ONE * current_invariant)
                    by (nonlinear_arith);
                assert((new_invariant as int) * (fixed_math::ONE as int) <= (current_invariant as int)
                    * (fixed_math::ONE as int)) by (nonlinear_arith)
                    requires
                        new_invariant <= current_invariant,
                ;
            }
        }
        pool_token_supply.mul_down(invariant_ratio.saturating_sub(fixed_math::ONE))
    } else {
        Some(0)
    }
}

/// Current weight of token `i`: `balance / sum` in fixed point, rounded down.
pub open spec fn join_weight(bs: Seq<u64>, sum: u64, i: int) -> Option<u64> {
    spec_div_down(bs[i], sum)
}

/// Growth ratio of token `i`: `(balance + amount) / balance` in fixed point,
/// rounded down.
pub open spec fn join_ratio(bs: Seq<u64>, a: Seq<u64>, i: int) -> Option<u64> {
    if bs[i] + a[i] > u64::MAX {
        None
    } else {
        spec_div_down((bs[i] + a[i]) as u64, bs[i])
    }
}

/// The weighted sum of the first `k` growth ratios (the ideal invariant
/// ratio), each product rounded down.
pub open spec fn join_ratio_sum(bs: Seq<u64>, a: Seq<u64>, sum: u64, k: nat) -> Option<u64>
    decreases k,
{
    if k == 0 {
        Some(0)
    } else {
        match join_ratio_sum(bs, a, sum, (k - 1) as nat) {
            None => None,
            Some(acc) => match join_weight(bs, sum, k - 1) {
                None => None,
                Some(w) => match join_ratio(bs, a, k - 1) {
                    None => None,
                    Some(r) => match spec_mul_down(r, w) {
                        None => None,
                        Some(m) => opt_u64(m + acc),
                    },
                },
            },
        }
    }
}

/// The amount of token `i` that joins after the fee: the part of the
/// deposit beyond the ideal ratio pays the swap fee, the rest joins fee-free.
pub open spec fn join_amount_after_fee(bs: Seq<u64>, a: Seq<u64>, irf: u64, fee: u64, i: int) -> Option<
    u64,
> {
    match join_ratio(bs, a, i) {
        None => None,
        Some(r) => if r > irf {
            if irf < fixed_math::ONE {
                None
            } else {
                match spec_mul_down(bs[i], (irf - fixed_math::ONE) as u64) {
                    None => None,
                    Some(non_taxable) => if a[i] < non_taxable {
                        None
                    } else {
                        match spec_mul_down((a[i] - non_taxable) as u64, spec_complement(fee)) {
                            None => None,
                            Some(taxed) => opt_u64(taxed + non_taxable),
                        }
                    },
                }
            }
        } else {
            Some(a[i])
        },
    }
}

/// The first `k` post-join balances.
pub open spec fn join_new_balances(bs: Seq<u64>, a: Seq<u64>, irf: u64, fee: u64, k: nat) -> Option<
    Seq<u64>,
>
    decreases k,
{
    if k == 0 {
        Some(Seq::empty())
    } else {
        match join_new_balances(bs, a, irf, fee, (k - 1) as nat) {
            None => None,
            Some(prefix) => match join_amount_after_fee(bs, a, irf, fee, k - 1) {
                None => None,
                Some(x) => if bs[k - 1] + x > u64::MAX {
                    None
                } else {
                    Some(prefix.push((bs[k - 1] + x) as u64))
                },
            },
        }
    }
}

/// The post-join balances for `amounts_in`, after the fee on the imbalanced
/// portion.
pub open spec fn join_balances(bs: Seq<u64>, a: Seq<u64>, fee: u64) -> Option<Seq<u64>> {
    match spec_checked_sum(bs) {
        None => None,
        Some(sum) => match join_ratio_sum(bs, a, sum, bs.len()) {
            None => None,
            Some(irf) => join_new_balances(bs, a, irf, fee, bs.len()),
        },
    }
}

proof fn lemma_join_amount_fee_monotone(bs: Seq<u64>, a: Seq<u64>, irf: u64, fee1: u64, fee2: u64, i: int)
    requires
        fee1 <= fee2,
        join_amount_after_fee(bs, a, irf, fee1, i) is Some,
    ensures
        join_amount_after_fee(bs, a, irf, fee2, i) is Some,
        join_amount_after_fee(bs, a, irf, fee2, i)->0 <= join_amount_after_fee(bs, a, irf, fee1, i)->0,
        join_amount_after_fee(bs, a, irf, fee1, i)->0 <= a[i],
{
    let r = join_ratio(bs, a, i)->0;
    if r > irf {
        let nt = spec_mul_down(bs[i], (irf - fixed_math::ONE) as u64)->0;
        let t = (a[i] - nt) as u64;
        let c1 = spec_complement(fee1);
        let c2 = spec_complement(fee2);
        let one = fixed_math::ONE as int;
        assert(c2 <= c1 <= fixed_math::ONE);
        assert((t as int) * (c2 as int) <= (t as int) * (c1 as int)) by (nonlinear_arith)
            requires
                c2 <= c1,
        ;
        assert((t as int) * (c1 as int) <= (t as int) * one) by (nonlinear_arith)
            requires
                c1 <= one,
        ;
        vstd::arithmetic::div_mod::lemma_div_is_ordered(t * c2, t * c1, one);
        vstd::arithmetic::div_mod::lemma_div_is_ordered(t * c1, t * one, one);
        vstd::arithmetic::div_mod::lemma_div_by_multiple(t as int, one);
    }
}

proof fn lemma_join_new_balances_fee_monotone(
    bs: Seq<u64>,
    a: Seq<u64>,
    irf: u64,
    fee1: u64,
    fee2: u64,
    k: nat,
)
    requires
        fee1 <= fee2,
        join_new_balances(bs, a, irf, fee1, k) is Some,
    ensures
        join_new_balances(bs, a, irf, fee2, k) is Some,
        join_new_balances(bs, a, irf, fee1, k)->0.len() == k,
        join_new_balances(bs, a, irf, fee2, k)->0.len() == k,
        forall|m: int|
            0 <= m < k ==> {
                &&& join_new_balances(bs, a, irf, fee2, k)->0[m] <= join_new_balances(
                    bs,
                    a,
                    irf,
                    fee1,
                    k,
                )->0[m]
                &&& #[trigger] join_new_balances(bs, a, irf, fee1, k)->0[m] <= bs[m] + a[m]
            },
    decreases k,
{
    if k > 0 {
        lemma_join_new_balances_fee_monotone(bs, a, irf, fee1, fee2, (k - 1) as nat);
        lemma_join_amount_fee_monotone(bs, a, irf, fee1, fee2, k - 1);
    }
}

/// Law: a higher swap fee never raises any balance a join feeds to the
/// invariant, and no fee raises one above the fee-free `balance + amount`.
/// (Tokens whose growth ratio is at most the weighted ideal ratio join in
/// full; only the excess of the others is charged.)
pub proof fn law_join_fee_lowers_balances(bs: Seq<u64>, a: Seq<u64>, fee1: u64, fee2: u64)
    requires
        fee1 <= fee2,
        join_balances(bs, a, fee1) is Some,
    ensures
        join_balances(bs, a, fee2) is Some,
        join_balances(bs, a, fee1)->0.len() == bs.len(),
        join_balances(bs, a, fee2)->0.len() == bs.len(),
        forall|m: int|
            0 <= m < bs.len() ==> {
                &&& join_balances(bs, a, fee2)->0[m] <= join_balances(bs, a, fee1)->0[m]
                &&& #[trigger] join_balances(bs, a, fee1)->0[m] <= bs[m] + a[m]
            },
{
    let sum = spec_checked_sum(bs)->0;
    let irf = join_ratio_sum(bs, a, sum, bs.len())->0;
    lemma_join_new_balances_fee_monotone(bs, a, irf, fee1, fee2, bs.len());
}

/// Law: the LP minted from an invariant's growth never falls as the new
/// invariant rises.
pub proof fn law_lp_from_invariant_ratio_monotone(supply: u64, new1: u64, new2: u64, current: u64)
    requires
        new1 <= new2,
        spec_lp_from_invariant_ratio(supply, new1, current) is Some,
        spec_lp_from_invariant_ratio(supply, new2, current) is Some,
    ensures
        spec_lp_from_invariant_ratio(supply, new1, current)->0 <= spec_lp_from_invariant_ratio(
            supply,
            new2,
            current,
        )->0,
{
    let one = fixed_math::ONE as int;
    if current != 0 {
        vstd::arithmetic::div_mod::lemma_div_is_ordered(new1 * one, new2 * one, current as int);
        let r1 = (new1 * one) / (current as int);
        let r2 = (new2 * one) / (current as int);
        if r1 > one {
            assert((supply as int) * (r1 - one) <= (supply as int) * (r2 - one)) by (nonlinear_arith)
                requires
                    r1 <= r2,
            ;
            vstd::arithmetic::div_mod::lemma_div_is_ordered(
                (supply as int) * (r1 - one),
                (supply as int) * (r2 - one),
                one,
            );
        }
    }
}

/// LP minted for depositing `amounts_in`, as
/// `calc_pool_token_out_given_exact_tokens_in` computes it.
pub open spec fn spec_pool_token_out_given_exact_tokens_in(
    amp: u64,
    bs: Seq<u64>,
    a: Seq<u64>,
    supply: u64,
    current: u64,
    fee: u64,
    th: nat,
) -> Option<u64> {
    if bs.len() > MAX_TOKENS {
        None
    } else {
        match join_balances(bs, a, fee) {
            None => None,
            Some(nb) => match spec_calc_invariant(amp, nb, th) {
                None => None,
                Some(new_inv) => spec_lp_from_invariant_ratio(supply, new_inv, current),
            },
        }
    }
}

pub open spec fn pool_token_out_fits(amp: u64, bs: Seq<u64>, a: Seq<u64>, fee: u64, th: nat) -> bool {
    bs.len() <= MAX_TOKENS ==> match join_balances(bs, a, fee) {
        None => true,
        Some(nb) => invariant_fits(amp, nb, th),
    }
}

/// The first `k` balances plus the deposited amounts, with no fee.
pub open spec fn join_balances_no_fee(bs: Seq<u64>, a: Seq<u64>, k: nat) -> Option<Seq<u64>>
    decreases k,
{
    if k == 0 {
        Some(Seq::empty())
    } else {
        match join_balances_no_fee(bs, a, (k - 1) as nat) {
            None => None,
            Some(prefix) => if bs[k - 1] + a[k - 1] > u64::MAX {
                None
            } else {
                Some(prefix.push((bs[k - 1] + a[k - 1]) as u64))
            },
        }
    }
}

/// LP minted for depositing `amounts_in` with no swap fee at all, as
/// `calc_pool_token_out_no_fee` computes it.
pub open spec fn spec_pool_token_out_no_fee(
    amp: u64,
    bs: Seq<u64>,
    a: Seq<u64>,
    supply: u64,
    current: u64,
    th: nat,
) -> Option<u64> {
    if bs.len() > MAX_TOKENS {
        None
    } else {
        match join_balances_no_fee(bs, a, bs.len()) {
            None => None,
            Some(nb) => match spec_calc_invariant(amp, nb, th) {
                None => None,
                Some(new_inv) => spec_lp_from_invariant_ratio(supply, new_inv, current),
            },
        }
    }
}

pub open spec fn pool_token_out_no_fee_fits(amp: u64, bs: Seq<u64>, a: Seq<u64>, th: nat) -> bool {
    bs.len() <= MAX_TOKENS ==> match join_balances_no_fee(bs, a, bs.len()) {
        None => true,
        Some(nb) => invariant_fits(amp, nb, th),
    }
}

proof fn lemma_join_ratio_sum_none_stays(bs: Seq<u64>, a: Seq<u64>, sum: u64, k: nat, m: nat)
    requires
        k <= m,
        join_ratio_sum(bs, a, sum, k) is None,
    ensures
        join_ratio_sum(bs, a, sum, m) is None,
    decreases m - k,
{
    if k < m {
        lemma_join_ratio_sum_none_stays(bs, a, sum, k + 1, m);
    }
}

proof fn lemma_join_new_balances_none_stays(
    bs: Seq<u64>,
    a: Seq<u64>,
    irf: u64,
    fee: u64,
    k: nat,
    m: nat,
)
    requires
        k <= m,
        join_new_balances(bs, a, irf, fee, k) is None,
    ensures
        join_new_balances(bs, a, irf, fee, m) is None,
    decreases m - k,
{
    if k < m {
        lemma_join_new_balances_none_stays(bs, a, irf, fee, k + 1, m);
    }
}

proof fn lemma_join_balances_no_fee_none_stays(bs: Seq<u64>, a: Seq<u64>, k: nat, m: nat)
    requires
        k <= m,
        join_balances_no_fee(bs, a, k) is None,
    ensures
        join_balances_no_fee(bs, a, m) is None,
    decreases m - k,
{
    if k < m {
        lemma_join_balances_no_fee_none_stays(bs, a, k + 1, m);
    }
}

/// LP shares minted for depositing exactly `amounts_in` (Balancer's
/// `_calcBptOutGivenExactTokensIn`): the part of each deposit beyond the
/// ideal (weighted-average) growth ratio pays the swap fee, the rest joins
/// fee-free; rounded down.
#[verifier::rlimit(40)]
pub fn calc_pool_token_out_given_exact_tokens_in(
    e: &Env,
    amplification: u64,
    balances: &[u64],
    amounts_in: &[u64],
    pool_token_supply: u64,
    current_invariant: u64,
    swap_fee: u64,
    inverse_threshold: Option<u64>,
) -> (r: Option<u64>)
    requires
        amounts_in.len() >= balances.len(),
        pool_token_out_fits(
            amplification,
            balances@,
            amounts_in@,
            swap_fee,
            threshold_of(inverse_threshold),
        ),
    ensures
        r == spec_pool_token_out_given_exact_tokens_in(
            amplification,
            balances@,
            amounts_in@,
            pool_token_supply,
            current_invariant,
            swap_fee,
            threshold_of(inverse_threshold),
        ),
{
    let ghost bs = balances@;
    let ghost a = amounts_in@;
    let num_tokens = balances.len();
    if num_tokens > MAX_TOKENS {
        return None;
    }

    let sum = checked_sum(balances)?;

    let mut balance_ratios_with_fee = [0u64; 5];
    let mut invariant_ratio_with_fees: u64 = 0;
    let mut i: usize = 0;
    while i < num_tokens
        invariant
            0 <= i <= num_tokens,
            num_tokens == balances.len(),
            num_tokens <= MAX_TOKENS,
            amounts_in.len() >= num_tokens,
            bs == balances@,
            a == amounts_in@,
            join_ratio_sum(bs, a, sum, i as nat) == Some(invariant_ratio_with_fees),
            spec_checked_sum(bs) == Some(sum),
            forall|j: int| 0 <= j < i ==> join_ratio(bs, a, j) == Some(
                #[trigger] balance_ratios_with_fee@[j],
            ),
        decreases num_tokens - i,
    {
        let current_weight = match balances[i].div_down(sum) {
            Some(v) => v,
            None => {
                proof {
                    lemma_join_ratio_sum_none_stays(bs, a, sum, (i + 1) as nat, num_tokens as nat);
                }
                return None;
            },
        };
        let grown = match balances[i].checked_add(amounts_in[i]) {
            Some(v) => v,
            None => {
                proof {
                    lemma_join_ratio_sum_none_stays(bs, a, sum, (i + 1) as nat, num_tokens as nat);
                }
                return None;
            },
        };
        let ratio = match grown.div_down(balances[i]) {
            Some(v) => v,
            None => {
                proof {
                    lemma_join_ratio_sum_none_stays(bs, a, sum, (i + 1) as nat, num_tokens as nat);
                }
                return None;
            },
        };
        balance_ratios_with_fee[i] = ratio;
        let weighted = match ratio.mul_down(current_weight) {
            Some(v) => v,
            None => {
                proof {
                    lemma_join_ratio_sum_none_stays(bs, a, sum, (i + 1) as nat, num_tokens as nat);
                }
                return None;
            },
        };
        invariant_ratio_with_fees = match weighted.checked_add(invariant_ratio_with_fees) {
            Some(v) => v,
            None => {
                proof {
                    lemma_join_ratio_sum_none_stays(bs, a, sum, (i + 1) as nat, num_tokens as nat);
                }
                return None;
            },
        };
        i = i + 1;
    }
    let ghost irf = invariant_ratio_with_fees;

    let mut new_balances = [0u64; 5];
    let mut i: usize = 0;
    while i < num_tokens
        invariant
            0 <= i <= num_tokens,
            num_tokens == balances.len(),
            num_tokens <= MAX_TOKENS,
            amounts_in.len() >= num_tokens,
            bs == balances@,
            a == amounts_in@,
            irf == invariant_ratio_with_fees,
            spec_checked_sum(bs) == Some(sum),
            join_ratio_sum(bs, a, sum, num_tokens as nat) == Some(irf),
            forall|j: int| 0 <= j < num_tokens ==> join_ratio(bs, a, j) == Some(
                #[trigger] balance_ratios_with_fee@[j],
            ),
            join_new_balances(bs, a, irf, swap_fee, i as nat) == Some(
                new_balances@.subrange(0, i as int),
            ),
        decreases num_tokens - i,
    {
        let amount_in_without_fee = if balance_ratios_with_fee[i] > invariant_ratio_with_fees {
            let excess_ratio = match invariant_ratio_with_fees.checked_sub(fixed_math::ONE) {
                Some(v) => v,
                None => {
                    proof {
                        lemma_join_new_balances_none_stays(
                            bs,
                            a,
                            irf,
                            swap_fee,
                            (i + 1) as nat,
                            num_tokens as nat,
                        );
                    }
                    return None;
                },
            };
            let non_taxable_amount = match balances[i].mul_down(excess_ratio) {
                Some(v) => v,
                None => {
                    proof {
                        lemma_join_new_balances_none_stays(
                            bs,
                            a,
                            irf,
                            swap_fee,
                            (i + 1) as nat,
                            num_tokens as nat,
                        );
                    }
                    return None;
                },
            };
            let taxable_amount = match amounts_in[i].checked_sub(non_taxable_amount) {
                Some(v) => v,
                None => {
                    proof {
                        lemma_join_new_balances_none_stays(
                            bs,
                            a,
                            irf,
                            swap_fee,
                            (i + 1) as nat,
                            num_tokens as nat,
                        );
                    }
                    return None;
                },
            };
            let taxed = match taxable_amount.mul_down(swap_fee.complement()) {
                Some(v) => v,
                None => {
                    proof {
                        lemma_join_new_balances_none_stays(
                            bs,
                            a,
                            irf,
                            swap_fee,
                            (i + 1) as nat,
                            num_tokens as nat,
                        );
                    }
                    return None;
                },
            };
            match taxed.checked_add(non_taxable_amount) {
                Some(v) => v,
                None => {
                    proof {
                        lemma_join_new_balances_none_stays(
                            bs,
                            a,
                            irf,
                            swap_fee,
                            (i + 1) as nat,
                            num_tokens as nat,
                        );
                    }
                    return None;
                },
            }
        } else {
            amounts_in[i]
        };
        assert(join_amount_after_fee(bs, a, irf, swap_fee, i as int) == Some(amount_in_without_fee));
        let new_balance = match balances[i].checked_add(amount_in_without_fee) {
            Some(v) => v,
            None => {
                proof {
                    lemma_join_new_balances_none_stays(
                        bs,
                        a,
                        irf,
                        swap_fee,
                        (i + 1) as nat,
                        num_tokens as nat,
                    );
                }
                return None;
            },
        };
        new_balances[i] = new_balance;
        assert(new_balances@.subrange(0, i + 1) =~= new_balances@.subrange(0, i as int).push(
            new_balance,
        ));
        i = i + 1;
    }
    let new_balances = &new_balances[0..num_tokens];
    assert(join_balances(bs, a, swap_fee) == Some(new_balances@));

    let new_invariant = calc_invariant(e, amplification, new_balances, inverse_threshold)?;
    lp_from_invariant_ratio(pool_token_supply, new_invariant, current_invariant)
}

/// LP that a deposit of `amounts_in` would mint with no swap fee on the
/// imbalanced portion: the deposit's whole invariant growth.
pub fn calc_pool_token_out_no_fee(
    e: &Env,
    amplification: u64,
    balances: &[u64],
    amounts_in: &[u64],
    pool_token_supply: u64,
    current_invariant: u64,
    inverse_threshold: Option<u64>,
) -> (r: Option<u64>)
    requires
        amounts_in.len() >= balances.len(),
        pool_token_out_no_fee_fits(
            amplification,
            balances@,
            amounts_in@,
            threshold_of(inverse_threshold),
        ),
    ensures
        r == spec_pool_token_out_no_fee(
            amplification,
            balances@,
            amounts_in@,
            pool_token_supply,
            current_invariant,
            threshold_of(inverse_threshold),
        ),
{
    let ghost bs = balances@;
    let ghost a = amounts_in@;
    let num_tokens = balances.len();
    if num_tokens > MAX_TOKENS {
        return None;
    }

    let mut new_balances = [0u64; 5];
    let mut i: usize = 0;
    while i < num_tokens
        invariant
            0 <= i <= num_tokens,
            num_tokens == balances.len(),
            num_tokens <= MAX_TOKENS,
            amounts_in.len() >= num_tokens,
            bs == balances@,
            a == amounts_in@,
            join_balances_no_fee(bs, a, i as nat) == Some(new_balances@.subrange(0, i as int)),
        decreases num_tokens - i,
    {
        let new_balance = match balances[i].checked_add(amounts_in[i]) {
            Some(v) => v,
            None => {
                proof {
                    lemma_join_balances_no_fee_none_stays(
                        bs,
                        a,
                        (i + 1) as nat,
                        num_tokens as nat,
                    );
                }
                return None;
            },
        };
        new_balances[i] = new_balance;
        assert(new_balances@.subrange(0, i + 1) =~= new_balances@.subrange(0, i as int).push(
            new_balance,
        ));
        i = i + 1;
    }
    let new_balances = &new_balances[0..num_tokens];

    let new_invariant = calc_invariant(e, amplification, new_balances, inverse_threshold)?;
    lp_from_invariant_ratio(pool_token_supply, new_invariant, current_invariant)
}


// ---------------------------------------------------------------------------
// Single-token exits.
// ---------------------------------------------------------------------------

/// The invariant left after burning `amount_in` of `supply` LP shares:
/// `(supply - amount_in) * current / supply`, rounded up.
pub open spec fn exit_invariant(amount_in: u64, supply: u64, current: u64) -> Option<u64> {
    if supply < amount_in {
        None
    } else {
        spec_mul_div_up_u64((supply - amount_in) as u64, current, supply)
    }
}

/// `(net_out, fee)` for burning `amount_in` LP shares into token `index`, as
/// `calc_token_out_given_exact_pool_token_in` computes it: the token's
/// balance falls to the solver's balance for the reduced invariant; of that
/// drop, the share beyond the token's weight (rounded up) pays the swap fee.
pub open spec fn spec_token_out_given_exact_pool_token_in(
    amp: u64,
    bs: Seq<u64>,
    index: int,
    amount_in: u64,
    supply: u64,
    current: u64,
    fee: u64,
) -> Option<(u64, u64)> {
    match exit_invariant(amount_in, supply, current) {
        None => None,
        Some(new_inv) => if index < 0 || index >= bs.len() {
            None
        } else {
            let balance = bs[index];
            match spec_token_balance(amp, bs, new_inv, balance) {
                None => None,
                Some(new_balance) => if balance < new_balance {
                    None
                } else {
                    let out = (balance - new_balance) as u64;
                    match spec_checked_sum(bs) {
                        None => None,
                        Some(sum) => match spec_div_down(balance, sum) {
                            None => None,
                            Some(weight) => match spec_mul_up(out, spec_complement(weight)) {
                                None => None,
                                Some(taxable) => {
                                    let non_taxable = if out >= taxable {
                                        (out - taxable) as u64
                                    } else {
                                        0u64
                                    };
                                    match spec_mul_down(taxable, spec_complement(fee)) {
                                        None => None,
                                        Some(taxed) => if taxed + non_taxable > u64::MAX {
                                            None
                                        } else if out < taxed + non_taxable {
                                            None
                                        } else {
                                            Some(
                                                (
                                                    (taxed + non_taxable) as u64,
                                                    (out - taxed - non_taxable) as u64,
                                                ),
                                            )
                                        },
                                    }
                                },
                            },
                        },
                    }
                },
            }
        },
    }
}

pub open spec fn token_out_given_exact_pool_token_in_fits(
    amp: u64,
    bs: Seq<u64>,
    index: int,
    amount_in: u64,
    supply: u64,
    current: u64,
) -> bool {
    match exit_invariant(amount_in, supply, current) {
        None => true,
        Some(new_inv) => (0 <= index < bs.len()) ==> token_balance_fits(
            amp,
            bs,
            new_inv,
            bs[index],
        ),
    }
}

/// `(net_out, fee)` for burning `amount_in` LP shares and withdrawing the
/// single token `token_index`: the amount paid after the swap fee on the
/// imbalanced (virtual-swap) portion, and the fee withheld. The two add up
/// to the token's balance drop.
pub fn calc_token_out_given_exact_pool_token_in(
    e: &Env,
    amplification: u64,
    balances: &[u64],
    token_index: usize,
    amount_in: u64,
    pool_token_supply: u64,
    current_invariant: u64,
    swap_fee: u64,
) -> (r: Option<(u64, u64)>)
    requires
        token_out_given_exact_pool_token_in_fits(
            amplification,
            balances@,
            token_index as int,
            amount_in,
            pool_token_supply,
            current_invariant,
        ),
    ensures
        r == spec_token_out_given_exact_pool_token_in(
            amplification,
            balances@,
            token_index as int,
            amount_in,
            pool_token_supply,
            current_invariant,
            swap_fee,
        ),
        r matches Some((net, fee)) ==> net + fee <= balances@[token_index as int],
{
    let remaining = pool_token_supply.checked_sub(amount_in)?;
    let new_invariant = mul_div_up_u64(remaining, current_invariant, pool_token_supply)?;

    if token_index >= balances.len() {
        return None;
    }
    let balance = balances[token_index];

    let new_balance = get_token_balance_given_invariant_n_all_other_balances(
        e,
        amplification,
        balances,
        new_invariant,
        balance,
    )?;
    let amount_out_without_fee = balance.checked_sub(new_balance)?;

    let sum = checked_sum(balances)?;

    let current_weight = balance.div_down(sum)?;
    let taxable_percentage = current_weight.complement();

    let taxable_amount = amount_out_without_fee.mul_up(taxable_percentage)?;
    let non_taxable_amount = amount_out_without_fee.saturating_sub(taxable_amount);

    let net_out = taxable_amount.mul_down(swap_fee.complement())?.checked_add(non_taxable_amount)?;
    let fee = amount_out_without_fee.checked_sub(net_out)?;
    Some((net_out, fee))
}


/// Law: an exact-input swap leaves the output token's balance exactly one
/// unit above the balance the solver finds for keeping the invariant at `d`
/// after the input arrives, and that balance is a converged Newton iterate
/// of the StableSwap balance quadratic. So the pool keeps the solver's
/// round-up plus one unit; the output never drains the reserve.
pub proof fn law_swap_out_keeps_solved_balance_plus_one(
    amp: u64,
    bs: Seq<u64>,
    i: int,
    j: int,
    amount_in: u64,
    d: u64,
)
    requires
        spec_calc_out_given_in(amp, bs, i, j, amount_in, d) is Some,
    ensures
        ({
            let out = spec_calc_out_given_in(amp, bs, i, j, amount_in, d)->0;
            let after_in = bs.update(i, (bs[i] + amount_in) as u64);
            &&& out < bs[j]
            &&& spec_token_balance(amp, after_in, d, bs[j]) is Some
            &&& bs[j] - out == spec_token_balance(amp, after_in, d, bs[j])->0 + 1
            &&& ({
                let (b, c) = balance_coefficients(amp, after_in, d as nat, bs[j] as nat)->0;
                exists|prev: nat|
                    prev <= u64::MAX && dist(
                        spec_token_balance(amp, after_in, d, bs[j])->0 as int,
                        prev as int,
                    ) <= BALANCE_THRESHOLD && #[trigger] balance_newton_lands(
                        b,
                        c,
                        d as nat,
                        prev,
                        spec_token_balance(amp, after_in, d, bs[j])->0 as nat,
                    )
            })
        }),
{
    let after_in = bs.update(i, (bs[i] + amount_in) as u64);
    let y = spec_token_balance(amp, after_in, d, bs[j])->0;
    law_token_balance_is_newton_fixpoint(amp, after_in, d, bs[j], y);
}

/// Law: an exact-output swap charges an input that leaves the input token's
/// balance exactly one unit above the balance the solver finds for keeping
/// the invariant at `d` after the output leaves, and that balance is a
/// converged Newton iterate of the StableSwap balance quadratic.
pub proof fn law_swap_in_keeps_solved_balance_plus_one(
    amp: u64,
    bs: Seq<u64>,
    i: int,
    j: int,
    amount_out: u64,
    d: u64,
)
    requires
        spec_calc_in_given_out(amp, bs, i, j, amount_out, d) is Some,
    ensures
        ({
            let ain = spec_calc_in_given_out(amp, bs, i, j, amount_out, d)->0;
            let after_out = bs.update(j, (bs[j] - amount_out) as u64);
            &&& ain >= 1
            &&& spec_token_balance(amp, after_out, d, bs[i]) is Some
            &&& bs[i] + ain == spec_token_balance(amp, after_out, d, bs[i])->0 + 1
            &&& ({
                let (b, c) = balance_coefficients(amp, after_out, d as nat, bs[i] as nat)->0;
                exists|prev: nat|
                    prev <= u64::MAX && dist(
                        spec_token_balance(amp, after_out, d, bs[i])->0 as int,
                        prev as int,
                    ) <= BALANCE_THRESHOLD && #[trigger] balance_newton_lands(
                        b,
                        c,
                        d as nat,
                        prev,
                        spec_token_balance(amp, after_out, d, bs[i])->0 as nat,
                    )
            })
        }),
{
    let after_out = bs.update(j, (bs[j] - amount_out) as u64);
    let y = spec_token_balance(amp, after_out, d, bs[i])->0;
    law_token_balance_is_newton_fixpoint(amp, after_out, d, bs[i], y);
}

/// Law: a single-token exit burning `amount` of `supply` LP shares lowers the
/// invariant it solves for by the burned share of the invariant, rounded
/// down: `current - floor(amount * current / supply)`.
pub proof fn law_exit_lowers_invariant(amount: u64, supply: u64, current: u64)
    requires
        exit_invariant(amount, supply, current) is Some,
    ensures
        exit_invariant(amount, supply, current)->0 == current - (amount * current) / (supply as int),
        exit_invariant(amount, supply, current)->0 <= current,
{
    let (a, sp, c) = (amount as int, supply as int, current as int);
    let q = (a * c) / sp;
    let r = (a * c) % sp;
    vstd::arithmetic::div_mod::lemma_fundamental_div_mod(a * c, sp);
    vstd::arithmetic::div_mod::lemma_mod_bound(a * c, sp);
    assert(sp * q == q * sp) by (nonlinear_arith);
    assert((sp - a) * c + sp - 1 == (c - q) * sp + (sp - 1 - r)) by (nonlinear_arith)
        requires
            a * c == q * sp + r,
    ;
    vstd::arithmetic::div_mod::lemma_fundamental_div_mod_converse(
        (sp - a) * c + sp - 1,
        sp,
        c - q,
        sp - 1 - r,
    );
    assert(q >= 0) by {
        vstd::arithmetic::div_mod::lemma_div_pos_is_pos(a * c, sp);
    }
}

/// Law: a join charges the swap fee only on the part of a deposit beyond the
/// ideal (weighted-average) growth: a token that grows by at most the ideal
/// ratio joins in full, and any other joins at least its ideal share
/// `balance * (ideal - 1)` untaxed, so the fee withheld never exceeds the
/// excess `amount - balance * (ideal - 1)`.
pub proof fn law_join_charges_only_the_excess(bs: Seq<u64>, a: Seq<u64>, irf: u64, fee: u64, i: int)
    requires
        join_amount_after_fee(bs, a, irf, fee, i) is Some,
    ensures
        ({
            let x = join_amount_after_fee(bs, a, irf, fee, i)->0;
            &&& x <= a[i]
            &&& join_ratio(bs, a, i)->0 <= irf ==> x == a[i]
            &&& join_ratio(bs, a, i)->0 > irf ==> x >= spec_mul_down(
                bs[i],
                (irf - fixed_math::ONE) as u64,
            )->0
        }),
{
    lemma_join_amount_fee_monotone(bs, a, irf, fee, fee, i);
}


/// `ceil(x * c / ONE) <= x` for a rate `c` of at most 100%.
proof fn lemma_ceil_share_le(x: int, c: int)
    requires
        x >= 0,
        0 <= c <= fixed_math::ONE,
    ensures
        0 <= ceil_div(x * c, fixed_math::ONE as int) <= x,
{
    let one = fixed_math::ONE as int;
    assert(x * c <= x * one) by (nonlinear_arith)
        requires
            x >= 0,
            c <= one,
    ;
    assert(0 <= x * c) by (nonlinear_arith)
        requires
            x >= 0,
            c >= 0,
    ;
    vstd::arithmetic::div_mod::lemma_div_is_ordered(x * c + one - 1, x * one + one - 1, one);
    vstd::arithmetic::div_mod::lemma_fundamental_div_mod_converse(x * one + one - 1, one, x, one - 1);
    vstd::arithmetic::div_mod::lemma_div_pos_is_pos(x * c + one - 1, one);
}

/// Law: a single-token exit pays the token's balance drop less the swap fee
/// on its taxable part only. With `drop` the fall of the token's balance to
/// the solver's balance for the reduced invariant, `w = balance / sum` the
/// token's weight and `taxable = ceil(drop * (1 - w))`, the payout is
/// `floor(taxable * (1 - fee)) + (drop - taxable)` and the rest of `drop`
/// is withheld. So the fee withheld is at most `ceil(drop * fee)`: the payout
/// is never below `drop * (1 - fee) - 1`.
pub proof fn law_exit_charges_fee_on_taxable_part_only(
    amp: u64,
    bs: Seq<u64>,
    index: int,
    amount_in: u64,
    supply: u64,
    current: u64,
    fee: u64,
)
    requires
        fee <= fixed_math::ONE,
        spec_token_out_given_exact_pool_token_in(amp, bs, index, amount_in, supply, current, fee)
            is Some,
    ensures
        ({
            let one = fixed_math::ONE as int;
            let (net, withheld) = spec_token_out_given_exact_pool_token_in(
                amp,
                bs,
                index,
                amount_in,
                supply,
                current,
                fee,
            )->0;
            let new_inv = exit_invariant(amount_in, supply, current)->0;
            let drop = bs[index] - spec_token_balance(amp, bs, new_inv, bs[index])->0;
            let w = (bs[index] * one) / seq_sum(bs);
            let c = if w >= one {
                0
            } else {
                one - w
            };
            let taxable = (drop * c + one - 1) / one;
            &&& 0 <= taxable <= drop
            &&& net + withheld == drop
            &&& net == (taxable * (one - fee)) / one + (drop - taxable)
            &&& withheld * one < drop * fee + one
            &&& net * one + one > drop * (one - fee)
        }),
{
    let one = fixed_math::ONE as int;
    let new_inv = exit_invariant(amount_in, supply, current)->0;
    let y = spec_token_balance(amp, bs, new_inv, bs[index])->0;
    let drop = bs[index] - y;
    let sum = spec_checked_sum(bs)->0;
    let w = spec_div_down(bs[index], sum)->0;
    let c = spec_complement(w);
    let taxable = spec_mul_up(drop as u64, c)->0;
    lemma_ceil_share_le(drop, c as int);
    assert(taxable as int == (drop * c + one - 1) / one);
    let cf = spec_complement(fee);
    assert(cf as int == one - fee);
    let t = taxable as int;
    let q = (t * cf) / one;
    let r = (t * cf) % one;
    vstd::arithmetic::div_mod::lemma_fundamental_div_mod(t * cf, one);
    vstd::arithmetic::div_mod::lemma_mod_bound(t * cf, one);
    let withheld = t - q;
    assert(withheld * one == t * fee + r) by (nonlinear_arith)
        requires
            t * cf == one * q + r,
            cf == one - fee,
            withheld == t - q,
    ;
    assert(t * fee <= drop * fee) by (nonlinear_arith)
        requires
            0 <= t <= drop,
            fee >= 0,
    ;
    assert((drop - withheld) * one + one > drop * (one - fee)) by (nonlinear_arith)
        requires
            withheld * one < drop * fee + one,
    ;
}


/// Law: a join mints the supply's share of the invariant's growth: with
/// `ratio = floor(new * ONE / current)`, the LP is
/// `floor(supply * (ratio - ONE) / ONE)` when the invariant grew past one
/// unit of ratio, and none otherwise.
pub proof fn law_lp_is_supply_share_of_invariant_growth(supply: u64, new_inv: u64, current: u64)
    requires
        spec_lp_from_invariant_ratio(supply, new_inv, current) is Some,
    ensures
        ({
            let one = fixed_math::ONE as int;
            let ratio = (new_inv * one) / (current as int);
            &&& current > 0
            &&& spec_lp_from_invariant_ratio(supply, new_inv, current)->0 as int == if ratio > one {
                (supply * (ratio - one)) / one
            } else {
                0
            }
        }),
{
}

} // verus!
