//! The liquidity pool's entrypoint decisions. Each function here is one
//! decision step of an entrypoint, between the steps that read storage, move
//! tokens or write storage: configuration checks, deposit and swap plans, the
//! per-token withdrawal step, the checks on observed balance deltas, and the
//! reserve updates that follow the transfers.
use soroban_sdk::Env;
use vstd::prelude::*;

use super::error::Error;
use crate::math::arithmetic::{mul_div_down_u64, spec_mul_div_down_u64};
use crate::math::fixed_math::{
    self, spec_complement, spec_div_up, spec_mul_down, FixedComplement, FixedDiv, FixedMul,
};
use crate::math::stable::{
    self, in_given_out_fits, invariant_fits, out_given_in_fits, pool_token_out_fits,
    spec_calc_in_given_out, spec_calc_invariant, spec_calc_out_given_in,
    spec_pool_token_out_given_exact_tokens_in,
};
use crate::math::{AMP_PRECISION, MAX_AMP, MAX_SAFE_BALANCE, MAX_SWAP_FEE, MAX_TOKENS, MIN_AMP, MIN_SWAP_FEE, MIN_TOKENS};
use crate::pool::amp::{current_amp, is_valid_amp_factor, spec_ramp_amp};
use crate::pool::fee::{self, spec_protocol_cut};
use crate::math::lp_exit::single_token_amount_out_fits;
use crate::pool::quote::{
    self, default_threshold, deposit_fits, law_protocol_fee_leaves_depositor_lp, pool_amp,
    spec_deposit_quote, spec_withdraw_one_token_quote, with_protocol_fee,
};
use crate::pool::scaling::{
    from_internal_defined, scaling_for, spec_from_internal, spec_from_internal_up,
    spec_scaling_for, spec_to_internal, to_internal,
};
use crate::pool::state::{reserves, Pool, PoolToken};

verus! {

/// The liquidity pool: simultaneously the AMM and its own LP-share token.
pub struct LiquidityPool;

/// The deposit an entrypoint goes on to execute: the LP to mint to the
/// depositor and to the beneficiary, the
/// normalized amount credited per token, and the raw amount pulled per token
/// (zero where nothing is deposited).
pub struct DepositPlan {
    pub lp_out: u64,
    /// LP minted to the beneficiary: the protocol's cut of the fee on the
    /// imbalanced portion.
    pub protocol_lp: u64,
    pub amounts: [u64; 5],
    pub transfers: [i128; 5],
}

/// A swap an entrypoint goes on to execute: the raw input pulled, the
/// normalized output paid to the trader and to the protocol, and the raw
/// amount the entrypoint returns (the output for exact-input swaps, the
/// input for exact-output swaps).
pub struct SwapPlan {
    pub in_raw: i128,
    pub net_out: u64,
    pub protocol: u64,
    pub returned: i128,
}

/// A single-token exit an entrypoint goes on to execute: the token paid out,
/// the LP burned, the normalized payout to the caller and to the protocol,
/// and the raw payout the entrypoint returns.
pub struct ExitPlan {
    pub index: usize,
    pub lp: u64,
    pub net_out: u64,
    pub protocol: u64,
    pub returned: i128,
}

/// `(index, lp, net_out, protocol, returned)` of burning `lp_amount` LP shares
/// for the single token `token`, out of `total_supply`, with at least
/// `min_out` raw units paid; or the error the entrypoint reverts with before
/// burning anything.
pub open spec fn spec_plan_withdraw_one_token(
    pool: Pool,
    now: u64,
    token: Option<usize>,
    lp_amount: i128,
    total_supply: i128,
    min_out: i128,
) -> Result<(usize, u64, u64, u64, i128), Error> {
    match token {
        None => Err(Error::UnknownToken),
        Some(k) => if lp_amount <= 0 {
            Err(Error::InvalidAmount)
        } else if total_supply <= 0 || total_supply > u64::MAX {
            Err(Error::MathError)
        } else if lp_amount > u64::MAX {
            Err(Error::BalanceTooLarge)
        } else {
            match spec_withdraw_one_token_quote(
                pool,
                now,
                k as int,
                lp_amount as u64,
                total_supply as u64,
            ) {
                None => Err(Error::MathError),
                Some((net, protocol)) => {
                    let t = pool.tokens@[k as int];
                    let out = spec_from_internal(net, t.scaling_factor, t.scaling_up) as i128;
                    if out < min_out {
                        Err(Error::SlippageExceeded)
                    } else {
                        Ok((k, lp_amount as u64, net, protocol, out))
                    }
                },
            }
        },
    }
}

/// The host arithmetic of a single-token exit plan stays within 256 bits.
pub open spec fn withdraw_one_token_fits(
    pool: Pool,
    now: u64,
    token: Option<usize>,
    lp_amount: i128,
    total_supply: i128,
) -> bool {
    match token {
        None => true,
        Some(k) => (0 < lp_amount <= u64::MAX && 0 < total_supply <= u64::MAX)
            ==> single_token_amount_out_fits(
            pool_amp(pool, now),
            pool.reserves_view(),
            k as int,
            lp_amount as u64,
            total_supply as u64,
        ),
    }
}

/// The checks of the constructor's arguments, in its order.
pub open spec fn spec_check_config(
    token_count: usize,
    caps_count: usize,
    amp_factor: u32,
    swap_fee: u64,
    protocol_fee: u64,
) -> Result<(), Error> {
    if token_count < MIN_TOKENS || token_count > MAX_TOKENS {
        Err(Error::InvalidTokenCount)
    } else if caps_count != token_count {
        Err(Error::CapsLengthMismatch)
    } else if !(MIN_AMP <= amp_factor <= MAX_AMP) {
        Err(Error::InvalidAmpFactor)
    } else if !(MIN_SWAP_FEE <= swap_fee <= MAX_SWAP_FEE) {
        Err(Error::InvalidSwapFee)
    } else if protocol_fee > fixed_math::ONE {
        Err(Error::InvalidProtocolFee)
    } else {
        Ok(())
    }
}

/// The token a pool starts with: unordered tokens, unscalable decimals and
/// caps outside the math's range are refused.
pub open spec fn spec_init_token(ordered: bool, decimals: u32, max_cap: i128) -> Result<
    PoolToken,
    Error,
> {
    if !ordered {
        Err(Error::TokensNotSorted)
    } else {
        match spec_scaling_for(decimals) {
            None => Err(Error::InvalidDecimals),
            Some((factor, up)) => match spec_to_internal(max_cap, factor, up) {
                None => Err(Error::InvalidCap),
                Some(cap) => Ok(
                    PoolToken {
                        decimals,
                        scaling_factor: factor,
                        scaling_up: up,
                        reserve: 0,
                        max_cap: cap,
                    },
                ),
            },
        }
    }
}

/// The normalized amounts of the first `k` raw amounts, `None` when one
/// cannot be normalized.
pub open spec fn normalized_amounts(tokens: Seq<PoolToken>, raw: Seq<i128>, k: nat) -> Option<
    Seq<u64>,
>
    decreases k,
{
    if k == 0 {
        Some(Seq::empty())
    } else {
        match normalized_amounts(tokens, raw, (k - 1) as nat) {
            None => None,
            Some(prefix) => match spec_to_internal(
                raw[k - 1],
                tokens[k - 1].scaling_factor,
                tokens[k - 1].scaling_up,
            ) {
                None => None,
                Some(v) => Some(prefix.push(v)),
            },
        }
    }
}

/// `(lp_out, protocol_lp)` a deposit of normalized `amounts` mints, before
/// the slippage check: the deposit quote of `amounts`, after the checks the
/// entrypoint makes first (every token funded on a first deposit; the
/// current invariant, then a supply within `u64`, on a later one).
pub open spec fn spec_deposit_lp(pool: Pool, now: u64, amounts: Seq<u64>, total_supply: i128) -> Result<
    (u64, u64),
    Error,
> {
    let amp = pool_amp(pool, now);
    let th = default_threshold();
    if total_supply == 0 {
        if exists|k: int| 0 <= k < amounts.len() && amounts[k] == 0 {
            Err(Error::FirstDepositNotFull)
        } else {
            match spec_deposit_quote(pool, now, amounts, 0) {
                Some(q) => Ok(q),
                None => Err(Error::MathError),
            }
        }
    } else if spec_calc_invariant(amp, pool.reserves_view(), th) is None {
        Err(Error::MathError)
    } else if total_supply < 0 || total_supply > u64::MAX {
        Err(Error::BalanceTooLarge)
    } else {
        match spec_deposit_quote(pool, now, amounts, total_supply as u64) {
            Some(q) => Ok(q),
            None => Err(Error::MathError),
        }
    }
}

/// `(lp_out, protocol_lp, amounts)` of a deposit of raw `amounts_in`, or the
/// error the deposit entrypoint reverts with before moving any token.
pub open spec fn spec_plan_deposit(
    pool: Pool,
    now: u64,
    amounts_in: Seq<i128>,
    total_supply: i128,
    min_lp_out: i128,
) -> Result<(u64, u64, Seq<u64>), Error> {
    let n = pool.tokens@.len();
    if amounts_in.len() != n {
        Err(Error::AmountsLengthMismatch)
    } else {
        match normalized_amounts(pool.tokens@, amounts_in, n) {
            None => Err(Error::InvalidAmount),
            Some(amounts) => if forall|k: int| 0 <= k < n ==> amounts[k] == 0 {
                Err(Error::ZeroDeposit)
            } else {
                match spec_deposit_lp(pool, now, amounts, total_supply) {
                    Err(e) => Err(e),
                    Ok((lp, protocol_lp)) => if lp == 0 || lp < min_lp_out {
                        Err(Error::SlippageExceeded)
                    } else {
                        Ok((lp, protocol_lp, amounts))
                    },
                }
            },
        }
    }
}

/// The host arithmetic of a deposit plan stays within 256 bits.
pub open spec fn deposit_plan_fits(pool: Pool, now: u64, amounts_in: Seq<i128>, total_supply: i128) -> bool {
    let n = pool.tokens@.len();
    let amp = pool_amp(pool, now);
    let th = default_threshold();
    (amounts_in.len() == n) ==> match normalized_amounts(pool.tokens@, amounts_in, n) {
        None => true,
        Some(amounts) => if total_supply == 0 {
            deposit_fits(pool, now, amounts, 0)
        } else {
            &&& invariant_fits(amp, pool.reserves_view(), th)
            &&& 0 < total_supply <= u64::MAX ==> deposit_fits(pool, now, amounts, total_supply as u64)
        },
    }
}

/// `pool` and `after` differ only in token `index`'s reserve, which is
/// `reserve` in `after`.
pub open spec fn reserve_updated(pool: Pool, after: Pool, index: int, reserve: u64) -> bool {
    &&& after.tokens@ == pool.tokens@.update(index, PoolToken { reserve, ..pool.tokens@[index] })
    &&& after.amp_initial_factor == pool.amp_initial_factor
    &&& after.amp_target_factor == pool.amp_target_factor
    &&& after.ramp_start_ts == pool.ramp_start_ts
    &&& after.ramp_stop_ts == pool.ramp_stop_ts
    &&& after.swap_fee == pool.swap_fee
    &&& after.protocol_fee == pool.protocol_fee
}

/// The exact-input swap of `amount_in` raw units of token `i` for token `j`,
/// or the error the entrypoint reverts with before moving any token.
pub open spec fn spec_plan_swap_exact_in(
    pool: Pool,
    now: u64,
    i: int,
    j: int,
    amount_in: i128,
    min_out: i128,
) -> Result<(i128, u64, u64, i128), Error> {
    let t_in = pool.tokens@[i];
    let t_out = pool.tokens@[j];
    let amp = pool_amp(pool, now);
    let rs = pool.reserves_view();
    match spec_to_internal(amount_in, t_in.scaling_factor, t_in.scaling_up) {
        None => Err(Error::InvalidAmount),
        Some(a) => if a == 0 {
            Err(Error::InvalidAmount)
        } else {
            let in_raw = spec_from_internal(a, t_in.scaling_factor, t_in.scaling_up) as i128;
            match spec_calc_invariant(amp, rs, default_threshold()) {
                None => Err(Error::MathError),
                Some(d) => match spec_calc_out_given_in(amp, rs, i, j, a, d) {
                    None => Err(Error::MathError),
                    Some(gross) => match spec_mul_down(gross, spec_complement(pool.swap_fee)) {
                        None => Err(Error::MathError),
                        Some(net) => match spec_protocol_cut(pool.protocol_fee, gross, net) {
                            None => Err(Error::MathError),
                            Some(protocol) => {
                                let out = spec_from_internal(
                                    net,
                                    t_out.scaling_factor,
                                    t_out.scaling_up,
                                ) as i128;
                                if out < min_out {
                                    Err(Error::SlippageExceeded)
                                } else {
                                    Ok((in_raw, net, protocol, out))
                                }
                            },
                        },
                    },
                },
            }
        },
    }
}

pub open spec fn plan_swap_exact_in_fits(pool: Pool, now: u64, i: int, j: int, amount_in: i128) -> bool {
    let t_in = pool.tokens@[i];
    let amp = pool_amp(pool, now);
    let rs = pool.reserves_view();
    match spec_to_internal(amount_in, t_in.scaling_factor, t_in.scaling_up) {
        None => true,
        Some(a) => a != 0 ==> {
            &&& invariant_fits(amp, rs, default_threshold())
            &&& match spec_calc_invariant(amp, rs, default_threshold()) {
                None => true,
                Some(d) => out_given_in_fits(amp, rs, i, j, a, d),
            }
        },
    }
}

/// The exact-output swap paying `amount_out` raw units of token `j` for
/// token `i`, or the error the entrypoint reverts with before moving any
/// token.
pub open spec fn spec_plan_swap_exact_out(
    pool: Pool,
    now: u64,
    i: int,
    j: int,
    amount_out: i128,
    max_in: i128,
) -> Result<(i128, u64, u64, i128), Error> {
    let t_in = pool.tokens@[i];
    let t_out = pool.tokens@[j];
    let amp = pool_amp(pool, now);
    let rs = pool.reserves_view();
    match spec_to_internal(amount_out, t_out.scaling_factor, t_out.scaling_up) {
        None => Err(Error::InvalidAmount),
        Some(net) => if net == 0 {
            Err(Error::InvalidAmount)
        } else {
            match spec_div_up(net, spec_complement(pool.swap_fee)) {
                None => Err(Error::MathError),
                Some(gross) => match spec_calc_invariant(amp, rs, default_threshold()) {
                    None => Err(Error::MathError),
                    Some(d) => match spec_calc_in_given_out(amp, rs, i, j, gross, d) {
                        None => Err(Error::MathError),
                        Some(a) => {
                            let in_raw = spec_from_internal_up(
                                a,
                                t_in.scaling_factor,
                                t_in.scaling_up,
                            ) as i128;
                            if in_raw > max_in {
                                Err(Error::SlippageExceeded)
                            } else {
                                match spec_protocol_cut(pool.protocol_fee, gross, net) {
                                    None => Err(Error::MathError),
                                    Some(protocol) => Ok((in_raw, net, protocol, in_raw)),
                                }
                            }
                        },
                    },
                },
            }
        },
    }
}

pub open spec fn plan_swap_exact_out_fits(pool: Pool, now: u64, i: int, j: int, amount_out: i128) -> bool {
    let t_out = pool.tokens@[j];
    let t_in = pool.tokens@[i];
    let amp = pool_amp(pool, now);
    let rs = pool.reserves_view();
    match spec_to_internal(amount_out, t_out.scaling_factor, t_out.scaling_up) {
        None => true,
        Some(net) => match spec_div_up(net, spec_complement(pool.swap_fee)) {
            None => true,
            Some(gross) => net != 0 ==> {
                &&& invariant_fits(amp, rs, default_threshold())
                &&& match spec_calc_invariant(amp, rs, default_threshold()) {
                    None => true,
                    Some(d) => {
                        &&& in_given_out_fits(amp, rs, i, j, gross, d)
                        &&& spec_calc_in_given_out(amp, rs, i, j, gross, d) matches Some(a)
                            ==> from_internal_defined(a, t_in.scaling_factor, t_in.scaling_up)
                    },
                }
            },
        },
    }
}

/// An internal amount at or below `MAX_SAFE_BALANCE` converts back to raw
/// units without overflow.
proof fn lemma_safe_amount_converts(internal: u64, factor: u64, up: bool)
    requires
        internal <= MAX_SAFE_BALANCE,
        factor != 0,
    ensures
        from_internal_defined(internal, factor, up),
{
    assert((internal as int) * (factor as int) <= MAX_SAFE_BALANCE * u64::MAX) by (nonlinear_arith)
        requires
            internal <= MAX_SAFE_BALANCE,
    ;
}

impl LiquidityPool {
    /// Check the constructor's arguments: the token count, the caps' count,
    /// the amplification factor, the swap fee and the protocol fee, in that
    /// order.
    pub fn check_config(
        token_count: usize,
        caps_count: usize,
        amp_factor: u32,
        swap_fee: u64,
        protocol_fee: u64,
    ) -> (r: Result<(), Error>)
        ensures
            r == spec_check_config(token_count, caps_count, amp_factor, swap_fee, protocol_fee),
    {
        if token_count < MIN_TOKENS || token_count > MAX_TOKENS {
            return Err(Error::InvalidTokenCount);
        }
        if caps_count != token_count {
            return Err(Error::CapsLengthMismatch);
        }
        if !is_valid_amp_factor(amp_factor) {
            return Err(Error::InvalidAmpFactor);
        }
        if swap_fee < MIN_SWAP_FEE || swap_fee > MAX_SWAP_FEE {
            return Err(Error::InvalidSwapFee);
        }
        if protocol_fee > fixed_math::ONE {
            return Err(Error::InvalidProtocolFee);
        }
        Ok(())
    }

    /// One of the pool's tokens at creation: `ordered` says whether it sorts
    /// strictly after the previous token (always true for the first),
    /// `decimals` is its decimals and `max_cap` its cap in raw units. The
    /// reserve starts empty.
    pub fn init_token(ordered: bool, decimals: u32, max_cap: i128) -> (r: Result<PoolToken, Error>)
        ensures
            r == spec_init_token(ordered, decimals, max_cap),
            r matches Ok(t) ==> t.wf(),
    {
        if !ordered {
            return Err(Error::TokensNotSorted);
        }
        let (scaling_factor, scaling_up) = match scaling_for(decimals) {
            Some(s) => s,
            None => {
                return Err(Error::InvalidDecimals);
            },
        };
        proof {
            let k = if decimals <= 9 {
                (9 - decimals) as nat
            } else {
                (decimals - 9) as nat
            };
            vstd::arithmetic::power::lemma_pow_positive(10, k);
        }
        let max_cap_int = match to_internal(max_cap, scaling_factor, scaling_up) {
            Some(c) => c,
            None => {
                return Err(Error::InvalidCap);
            },
        };
        Ok(PoolToken { decimals, scaling_factor, scaling_up, reserve: 0, max_cap: max_cap_int })
    }

    /// The pool created with `tokens`: a static amplification ramp at
    /// `amp_factor` and the given fees.
    pub fn new_pool(tokens: Vec<PoolToken>, amp_factor: u32, swap_fee: u64, protocol_fee: u64) -> (r:
        Pool)
        ensures
            r.tokens@ == tokens@,
            r.amp_initial_factor == amp_factor,
            r.amp_target_factor == amp_factor,
            r.ramp_start_ts == 0,
            r.ramp_stop_ts == 0,
            r.swap_fee == swap_fee,
            r.protocol_fee == protocol_fee,
    {
        Pool {
            tokens,
            amp_initial_factor: amp_factor,
            amp_target_factor: amp_factor,
            ramp_start_ts: 0,
            ramp_stop_ts: 0,
            swap_fee,
            protocol_fee,
        }
    }

    /// Plan a deposit of the raw `amounts_in` (one per token, in token order)
    /// with `total_supply` LP shares outstanding: normalize every amount,
    /// require one positive amount (and all of them on the first deposit),
    /// size the LP to mint, and check it against `min_lp_out`.
    pub fn plan_deposit(
        e: &Env,
        pool: &Pool,
        now: u64,
        amounts_in: &[i128],
        total_supply: i128,
        min_lp_out: i128,
    ) -> (r: Result<DepositPlan, Error>)
        requires
            pool.wf(),
            deposit_plan_fits(*pool, now, amounts_in@, total_supply),
        ensures
            match r {
                Err(e) => spec_plan_deposit(*pool, now, amounts_in@, total_supply, min_lp_out)
                    == Err::<(u64, u64, Seq<u64>), Error>(e),
                Ok(plan) => {
                    &&& spec_plan_deposit(*pool, now, amounts_in@, total_supply, min_lp_out) == Ok::<
                        (u64, u64, Seq<u64>),
                        Error,
                    >(
                        (
                            plan.lp_out,
                            plan.protocol_lp,
                            plan.amounts@.subrange(0, pool.tokens@.len() as int),
                        ),
                    )
                    &&& spec_deposit_quote(
                        *pool,
                        now,
                        plan.amounts@.subrange(0, pool.tokens@.len() as int),
                        total_supply as u64,
                    ) == Some((plan.lp_out, plan.protocol_lp))
                    &&& forall|k: int|
                        0 <= k < pool.tokens@.len() ==> #[trigger] plan.transfers@[k] == (if plan.amounts@[k]
                            > 0 {
                            spec_from_internal(
                                plan.amounts@[k],
                                pool.tokens@[k].scaling_factor,
                                pool.tokens@[k].scaling_up,
                            )
                        } else {
                            0
                        })
                },
            },
    {
        let ghost tokens = pool.tokens@;
        let n = pool.tokens.len();
        if amounts_in.len() != n {
            return Err(Error::AmountsLengthMismatch);
        }

        let mut amounts = [0u64; 5];
        let mut transfers = [0i128; 5];
        let mut any_positive = false;
        let mut i: usize = 0;
        while i < n
            invariant
                0 <= i <= n,
                n == pool.tokens@.len(),
                n <= MAX_TOKENS,
                tokens == pool.tokens@,
                pool.wf(),
                amounts_in@.len() == n,
                normalized_amounts(tokens, amounts_in@, i as nat) == Some(
                    amounts@.subrange(0, i as int),
                ),
                any_positive == (exists|k: int| 0 <= k < i && #[trigger] amounts@[k] > 0),
                forall|k: int| i <= k < MAX_TOKENS ==> #[trigger] amounts@[k] == 0,
                forall|k: int| i <= k < MAX_TOKENS ==> #[trigger] transfers@[k] == 0,
                forall|k: int|
                    0 <= k < i ==> #[trigger] transfers@[k] == (if amounts@[k] > 0 {
                        spec_from_internal(
                            amounts@[k],
                            tokens[k].scaling_factor,
                            tokens[k].scaling_up,
                        )
                    } else {
                        0
                    }),
            decreases n - i,
        {
            let token = pool.tokens[i];
            assert(token.wf());
            let amount = match token.to_internal(amounts_in[i]) {
                Some(a) => a,
                None => {
                    proof {
                        lemma_normalized_none_stays(tokens, amounts_in@, (i + 1) as nat, n as nat);
                    }
                    return Err(Error::InvalidAmount);
                },
            };
            let ghost prev = amounts@;
            amounts[i] = amount;
            assert(forall|k: int| 0 <= k < i ==> amounts@[k] == prev[k]);
            if amount > 0 {
                assert(amounts@[i as int] > 0);
                any_positive = true;
                proof {
                    lemma_safe_amount_converts(amount, token.scaling_factor, token.scaling_up);
                }
                transfers[i] = token.to_raw(amount);
            }
            assert(amounts@.subrange(0, i + 1) =~= amounts@.subrange(0, i as int).push(amount));
            i = i + 1;
        }
        let ghost norm = amounts@.subrange(0, n as int);
        assert(normalized_amounts(tokens, amounts_in@, n as nat) == Some(norm));
        if !any_positive {
            assert(forall|k: int| 0 <= k < n ==> norm[k] == 0);
            return Err(Error::ZeroDeposit);
        }
        proof {
            let w = choose|k: int| 0 <= k < n && #[trigger] amounts@[k] > 0;
            assert(norm[w] > 0);
        }

        let amp = current_amp(pool, now);
        let (reserve_arr, _) = reserves(pool);
        let rs = &reserve_arr[0..n];
        let amounts_slice = &amounts[0..n];
        assert(amounts_slice@ == norm);

        let (lp_out, protocol_lp): (u64, u64) = if total_supply == 0 {
            let mut all_funded = true;
            let mut k: usize = 0;
            while k < n
                invariant
                    0 <= k <= n,
                    n <= MAX_TOKENS,
                    amounts_slice@.len() == n,
                    all_funded == (forall|m: int| 0 <= m < k ==> amounts_slice@[m] != 0),
                decreases n - k,
            {
                if amounts_slice[k] == 0 {
                    all_funded = false;
                }
                k = k + 1;
            }
            if !all_funded {
                return Err(Error::FirstDepositNotFull);
            }
            match stable::calc_invariant(e, amp, amounts_slice, None) {
                Some(d) => if d > 0 {
                    (d, 0)
                } else {
                    return Err(Error::MathError);
                },
                None => {
                    return Err(Error::MathError);
                },
            }
        } else {
            let current_invariant = match stable::calc_invariant(e, amp, rs, None) {
                Some(d) => d,
                None => {
                    return Err(Error::MathError);
                },
            };
            let supply_u64 = match Self::unwrap_u64(total_supply) {
                Ok(s) => s,
                Err(err) => {
                    return Err(err);
                },
            };
            match stable::calc_pool_token_out_given_exact_tokens_in(
                e,
                amp,
                rs,
                amounts_slice,
                supply_u64,
                current_invariant,
                pool.swap_fee,
                None,
            ) {
                Some(l) => if pool.protocol_fee > 0 {
                    match stable::calc_pool_token_out_no_fee(
                        e,
                        amp,
                        rs,
                        amounts_slice,
                        supply_u64,
                        current_invariant,
                        None,
                    ) {
                        Some(lp_no_fee) => match fee::protocol_share(
                            lp_no_fee.saturating_sub(l),
                            pool.protocol_fee,
                        ) {
                            Some(p) => (l, p),
                            None => {
                                return Err(Error::MathError);
                            },
                        },
                        None => {
                            return Err(Error::MathError);
                        },
                    }
                } else {
                    (l, 0)
                },
                None => {
                    return Err(Error::MathError);
                },
            }
        };

        if lp_out == 0 || (lp_out as i128) < min_lp_out {
            return Err(Error::SlippageExceeded);
        }
        Ok(DepositPlan { lp_out, protocol_lp, amounts, transfers })
    }

    /// Credit `received` (normalized) to token `index`'s reserve; the reserve
    /// may not pass its cap.
    pub fn credit_reserve(pool: &mut Pool, index: usize, received: u64) -> (r: Result<(), Error>)
        requires
            old(pool).wf(),
            index < old(pool).tokens@.len(),
        ensures
            match r {
                Err(e) => e == Error::CapExceeded && old(pool).tokens@[index as int].reserve
                    + received > old(pool).tokens@[index as int].max_cap && *final(pool) == *old(
                    pool,
                ),
                Ok(()) => old(pool).tokens@[index as int].reserve + received <= old(
                    pool,
                ).tokens@[index as int].max_cap && reserve_updated(
                    *old(pool),
                    *final(pool),
                    index as int,
                    (old(pool).tokens@[index as int].reserve + received) as u64,
                ),
            },
            final(pool).wf(),
    {
        let mut t = pool.tokens[index];
        let new_reserve = match t.reserve.checked_add(received) {
            Some(r) => if r <= t.max_cap {
                r
            } else {
                return Err(Error::CapExceeded);
            },
            None => {
                return Err(Error::CapExceeded);
            },
        };
        t.reserve = new_reserve;
        pool.tokens.set(index, t);
        Ok(())
    }

    /// Debit `sent` (normalized) from token `index`'s reserve.
    pub fn debit_reserve(pool: &mut Pool, index: usize, sent: u64) -> (r: Result<(), Error>)
        requires
            old(pool).wf(),
            index < old(pool).tokens@.len(),
        ensures
            match r {
                Err(e) => e == Error::MathError && old(pool).tokens@[index as int].reserve < sent
                    && *final(pool) == *old(pool),
                Ok(()) => sent <= old(pool).tokens@[index as int].reserve && reserve_updated(
                    *old(pool),
                    *final(pool),
                    index as int,
                    (old(pool).tokens@[index as int].reserve - sent) as u64,
                ),
            },
            final(pool).wf(),
    {
        let mut t = pool.tokens[index];
        t.reserve = match t.reserve.checked_sub(sent) {
            Some(r) => r,
            None => {
                return Err(Error::MathError);
            },
        };
        pool.tokens.set(index, t);
        Ok(())
    }

    /// The checks of a proportional withdrawal before any share is burned:
    /// one minimum per token, a positive LP amount, a positive supply within
    /// `u64`, and an LP amount within `u64`. Returns `(supply, lp_amount)`.
    pub fn check_withdraw(
        token_count: usize,
        mins_count: usize,
        lp_amount: i128,
        total_supply: i128,
    ) -> (r: Result<(u64, u64), Error>)
        ensures
            r == (if mins_count != token_count {
                Err(Error::AmountsLengthMismatch)
            } else if lp_amount <= 0 {
                Err(Error::InvalidAmount)
            } else if total_supply <= 0 || total_supply > u64::MAX {
                Err(Error::MathError)
            } else if lp_amount > u64::MAX {
                Err(Error::BalanceTooLarge)
            } else {
                Ok((total_supply as u64, lp_amount as u64))
            }),
    {
        if mins_count != token_count {
            return Err(Error::AmountsLengthMismatch);
        }
        if lp_amount <= 0 {
            return Err(Error::InvalidAmount);
        }
        let supply = match u64::try_from(total_supply) {
            Ok(s) => if s > 0 {
                s
            } else {
                return Err(Error::MathError);
            },
            Err(_) => {
                return Err(Error::MathError);
            },
        };
        let lp = Self::unwrap_u64(lp_amount)?;
        Ok((supply, lp))
    }

    /// One token's payout of a proportional withdrawal: its reserve's share
    /// of `lp` out of `supply`, rounded down, as `(normalized, raw)`; the raw
    /// payout may not fall below `min_out`.
    pub fn withdraw_output(token: &PoolToken, lp: u64, supply: u64, min_out: i128) -> (r: Result<
        (u64, i128),
        Error,
    >)
        requires
            token.wf(),
            spec_mul_div_down_u64(token.reserve, lp, supply) matches Some(out)
                ==> from_internal_defined(out, token.scaling_factor, token.scaling_up),
        ensures
            match spec_mul_div_down_u64(token.reserve, lp, supply) {
                None => r == Err::<(u64, i128), Error>(Error::MathError),
                Some(out) => {
                    let raw = spec_from_internal(out, token.scaling_factor, token.scaling_up);
                    if raw < min_out {
                        r == Err::<(u64, i128), Error>(Error::SlippageExceeded)
                    } else {
                        r == Ok::<(u64, i128), Error>((out, raw as i128))
                    }
                },
            },
            r matches Ok((out, raw)) ==> (lp <= supply ==> out <= token.reserve),
    {
        let out_int = match mul_div_down_u64(token.reserve, lp, supply) {
            Some(o) => o,
            None => {
                return Err(Error::MathError);
            },
        };
        proof {
            if lp <= supply {
                crate::math::lp_exit::lemma_share_down_le_balance(token.reserve, lp, supply);
            }
        }
        let out_raw = token.to_raw(out_int);
        if out_raw < min_out {
            return Err(Error::SlippageExceeded);
        }
        Ok((out_int, out_raw))
    }

    /// The normalized amount of a raw balance change; `InvalidAmount` when it
    /// cannot be normalized.
    pub fn raw_delta_to_internal(token: &PoolToken, delta: i128) -> (r: Result<u64, Error>)
        requires
            token.wf(),
        ensures
            match spec_to_internal(delta, token.scaling_factor, token.scaling_up) {
                None => r == Err::<u64, Error>(Error::InvalidAmount),
                Some(v) => r == Ok::<u64, Error>(v),
            },
    {
        match token.to_internal(delta) {
            Some(v) => Ok(v),
            None => Err(Error::InvalidAmount),
        }
    }

    /// After pulling `amount` raw units in, the pool's balance went from
    /// `before` to `after`: the increase must equal `amount` (rejecting
    /// fee-on-transfer tokens); returns it normalized.
    pub fn inbound_delta(token: &PoolToken, before: i128, after: i128, amount: i128) -> (r: Result<
        u64,
        Error,
    >)
        requires
            token.wf(),
        ensures
            if after - before == amount && i128::MIN <= after - before <= i128::MAX {
                match spec_to_internal(amount, token.scaling_factor, token.scaling_up) {
                    None => r == Err::<u64, Error>(Error::InvalidAmount),
                    Some(v) => r == Ok::<u64, Error>(v),
                }
            } else {
                r == Err::<u64, Error>(Error::TransferAmountMismatch)
            },
    {
        match after.checked_sub(before) {
            Some(delta) => if delta == amount {
                Self::raw_delta_to_internal(token, delta)
            } else {
                Err(Error::TransferAmountMismatch)
            },
            None => Err(Error::TransferAmountMismatch),
        }
    }

    /// After sending `amount` raw units out, the pool's balance went from
    /// `before` to `after`: the decrease must equal `amount`; returns it
    /// normalized.
    pub fn outbound_delta(token: &PoolToken, before: i128, after: i128, amount: i128) -> (r: Result<
        u64,
        Error,
    >)
        requires
            token.wf(),
        ensures
            if before - after == amount && i128::MIN <= before - after <= i128::MAX {
                match spec_to_internal(amount, token.scaling_factor, token.scaling_up) {
                    None => r == Err::<u64, Error>(Error::InvalidAmount),
                    Some(v) => r == Ok::<u64, Error>(v),
                }
            } else {
                r == Err::<u64, Error>(Error::TransferAmountMismatch)
            },
    {
        match before.checked_sub(after) {
            Some(delta) => if delta == amount {
                Self::raw_delta_to_internal(token, delta)
            } else {
                Err(Error::TransferAmountMismatch)
            },
            None => Err(Error::TransferAmountMismatch),
        }
    }

    /// An `i128` (such as an LP balance) as the `u64` the math works in.
    pub fn unwrap_u64(value: i128) -> (r: Result<u64, Error>)
        ensures
            r == (if 0 <= value <= u64::MAX {
                Ok::<u64, Error>(value as u64)
            } else {
                Err::<u64, Error>(Error::BalanceTooLarge)
            }),
    {
        match u64::try_from(value) {
            Ok(v) => Ok(v),
            Err(_) => Err(Error::BalanceTooLarge),
        }
    }

    /// Resolve looked-up token indices to a distinct `(in, out)` pair.
    pub fn swap_indices(token_in: Option<usize>, token_out: Option<usize>) -> (r: Result<
        (usize, usize),
        Error,
    >)
        ensures
            r == (match (token_in, token_out) {
                (Some(i), Some(j)) => if i == j {
                    Err(Error::SameToken)
                } else {
                    Ok((i, j))
                },
                _ => Err(Error::UnknownToken),
            }),
    {
        let i = match token_in {
            Some(i) => i,
            None => {
                return Err(Error::UnknownToken);
            },
        };
        let j = match token_out {
            Some(j) => j,
            None => {
                return Err(Error::UnknownToken);
            },
        };
        if i == j {
            return Err(Error::SameToken);
        }
        Ok((i, j))
    }
}


impl LiquidityPool {
    /// Plan swapping exactly `amount_in` raw units of token `i` for token
    /// `j`, requiring at least `min_out` raw units back. The swap fee is
    /// charged on the output; the plan's `returned` is the raw output paid.
    pub fn plan_swap_exact_in(
        e: &Env,
        pool: &Pool,
        now: u64,
        i: usize,
        j: usize,
        amount_in: i128,
        min_out: i128,
    ) -> (r: Result<SwapPlan, Error>)
        requires
            pool.wf(),
            i < pool.tokens@.len(),
            j < pool.tokens@.len(),
            plan_swap_exact_in_fits(*pool, now, i as int, j as int, amount_in),
        ensures
            match r {
                Err(e) => spec_plan_swap_exact_in(*pool, now, i as int, j as int, amount_in, min_out)
                    == Err::<(i128, u64, u64, i128), Error>(e),
                Ok(p) => spec_plan_swap_exact_in(*pool, now, i as int, j as int, amount_in, min_out)
                    == Ok::<(i128, u64, u64, i128), Error>((p.in_raw, p.net_out, p.protocol, p.returned)),
            },
            r matches Ok(p) ==> (pool.protocol_fee <= fixed_math::ONE ==> p.net_out + p.protocol
                < pool.reserves_view()[j as int]),
    {
        let t_in = pool.tokens[i];
        let t_out = pool.tokens[j];
        assert(t_in.wf() && t_out.wf());
        let amount_in_int = match t_in.to_internal(amount_in) {
            Some(a) => if a > 0 {
                a
            } else {
                return Err(Error::InvalidAmount);
            },
            None => {
                return Err(Error::InvalidAmount);
            },
        };
        proof {
            lemma_safe_amount_converts(amount_in_int, t_in.scaling_factor, t_in.scaling_up);
        }
        let in_raw = t_in.to_raw(amount_in_int);

        let amp = current_amp(pool, now);
        let (reserve_arr, n) = reserves(pool);
        let rs = &reserve_arr[0..n];
        let inv = match stable::calc_invariant(e, amp, rs, None) {
            Some(d) => d,
            None => {
                return Err(Error::MathError);
            },
        };
        let out_without_fee = match stable::calc_out_given_in(e, amp, rs, i, j, amount_in_int, inv) {
            Some(o) => o,
            None => {
                return Err(Error::MathError);
            },
        };

        let net_out = Self::net_out_after_fee(pool.swap_fee, out_without_fee)?;
        let protocol = Self::protocol_cut(pool.protocol_fee, out_without_fee, net_out)?;
        proof {
            crate::pool::fee::lemma_share_le_amount(out_without_fee, spec_complement(pool.swap_fee));
            if pool.protocol_fee <= fixed_math::ONE {
                crate::pool::fee::lemma_share_le_amount(
                    (out_without_fee - net_out) as u64,
                    pool.protocol_fee,
                );
            }
            assert(net_out < t_out.reserve);
            lemma_safe_amount_converts(net_out, t_out.scaling_factor, t_out.scaling_up);
        }

        let amount_out = t_out.to_raw(net_out);
        if amount_out < min_out {
            return Err(Error::SlippageExceeded);
        }
        Ok(SwapPlan { in_raw, net_out, protocol, returned: amount_out })
    }

    /// Plan paying exactly `amount_out` raw units of token `j` for token `i`,
    /// spending at most `max_in` raw units. The requested output is grossed
    /// up for the swap fee; the input is charged rounded up. The plan's
    /// `returned` is the raw input charged.
    pub fn plan_swap_exact_out(
        e: &Env,
        pool: &Pool,
        now: u64,
        i: usize,
        j: usize,
        amount_out: i128,
        max_in: i128,
    ) -> (r: Result<SwapPlan, Error>)
        requires
            pool.wf(),
            i < pool.tokens@.len(),
            j < pool.tokens@.len(),
            plan_swap_exact_out_fits(*pool, now, i as int, j as int, amount_out),
        ensures
            match r {
                Err(e) => spec_plan_swap_exact_out(*pool, now, i as int, j as int, amount_out, max_in)
                    == Err::<(i128, u64, u64, i128), Error>(e),
                Ok(p) => spec_plan_swap_exact_out(*pool, now, i as int, j as int, amount_out, max_in)
                    == Ok::<(i128, u64, u64, i128), Error>((p.in_raw, p.net_out, p.protocol, p.returned)),
            },
    {
        let t_in = pool.tokens[i];
        let t_out = pool.tokens[j];
        assert(t_in.wf() && t_out.wf());
        let net_out = match t_out.to_internal(amount_out) {
            Some(a) => if a > 0 {
                a
            } else {
                return Err(Error::InvalidAmount);
            },
            None => {
                return Err(Error::InvalidAmount);
            },
        };

        let out_without_fee = match net_out.div_up(pool.swap_fee.complement()) {
            Some(g) => g,
            None => {
                return Err(Error::MathError);
            },
        };

        let amp = current_amp(pool, now);
        let (reserve_arr, n) = reserves(pool);
        let rs = &reserve_arr[0..n];
        let inv = match stable::calc_invariant(e, amp, rs, None) {
            Some(d) => d,
            None => {
                return Err(Error::MathError);
            },
        };
        let amount_in_int = match stable::calc_in_given_out(
            e,
            amp,
            rs,
            i,
            j,
            out_without_fee,
            inv,
        ) {
            Some(a) => a,
            None => {
                return Err(Error::MathError);
            },
        };

        let in_raw = t_in.to_raw_up(amount_in_int);
        if in_raw > max_in {
            return Err(Error::SlippageExceeded);
        }

        let protocol = Self::protocol_cut(pool.protocol_fee, out_without_fee, net_out)?;
        Ok(SwapPlan { in_raw, net_out, protocol, returned: in_raw })
    }

    /// Net output to the trader after the swap fee (charged on the output).
    pub fn net_out_after_fee(swap_fee: u64, out_without_fee: u64) -> (r: Result<u64, Error>)
        ensures
            r == (match spec_mul_down(out_without_fee, spec_complement(swap_fee)) {
                Some(v) => Ok::<u64, Error>(v),
                None => Err::<u64, Error>(Error::MathError),
            }),
    {
        match out_without_fee.mul_down(swap_fee.complement()) {
            Some(v) => Ok(v),
            None => Err(Error::MathError),
        }
    }

    /// The protocol's cut of the swap fee (in the output token), given the
    /// gross output and the net paid to the trader; the rest of the fee stays
    /// in the pool for LPs.
    pub fn protocol_cut(protocol_fee: u64, out_without_fee: u64, net_out: u64) -> (r: Result<
        u64,
        Error,
    >)
        ensures
            r == (match spec_protocol_cut(protocol_fee, out_without_fee, net_out) {
                Some(v) => Ok::<u64, Error>(v),
                None => Err::<u64, Error>(Error::MathError),
            }),
    {
        match out_without_fee.saturating_sub(net_out).mul_down(protocol_fee) {
            Some(v) => Ok(v),
            None => Err(Error::MathError),
        }
    }

    /// Before a swap pays out: the output reserve must cover the trader's
    /// output plus the protocol's cut. Returns both in raw units.
    pub fn prepare_payout(pool: &Pool, j: usize, net_out: u64, protocol: u64) -> (r: Result<
        (i128, i128),
        Error,
    >)
        requires
            pool.wf(),
            j < pool.tokens@.len(),
        ensures
            ({
                let t = pool.tokens@[j as int];
                if net_out + protocol > t.reserve {
                    r == Err::<(i128, i128), Error>(Error::MathError)
                } else {
                    r == Ok::<(i128, i128), Error>(
                        (
                            spec_from_internal(net_out, t.scaling_factor, t.scaling_up) as i128,
                            spec_from_internal(protocol, t.scaling_factor, t.scaling_up) as i128,
                        ),
                    )
                }
            }),
    {
        let t_out = pool.tokens[j];
        assert(t_out.wf());
        let total = match net_out.checked_add(protocol) {
            Some(v) => v,
            None => {
                return Err(Error::MathError);
            },
        };
        if t_out.reserve.checked_sub(total).is_none() {
            return Err(Error::MathError);
        }
        proof {
            lemma_safe_amount_converts(net_out, t_out.scaling_factor, t_out.scaling_up);
            lemma_safe_amount_converts(protocol, t_out.scaling_factor, t_out.scaling_up);
        }
        let out_raw = t_out.to_raw(net_out);
        let protocol_raw = t_out.to_raw(protocol);
        Ok((out_raw, protocol_raw))
    }

    /// After a swap's transfers: credit the input actually received to token
    /// `i` (within its cap) and debit the output actually sent (to the trader
    /// and to the beneficiary) from token `j`.
    pub fn settle_swap(
        pool: &mut Pool,
        i: usize,
        j: usize,
        received_in: u64,
        sent_out: u64,
        sent_protocol: u64,
    ) -> (r: Result<(), Error>)
        requires
            old(pool).wf(),
            i < old(pool).tokens@.len(),
            j < old(pool).tokens@.len(),
            i != j,
        ensures
            ({
                let t_in = old(pool).tokens@[i as int];
                let t_out = old(pool).tokens@[j as int];
                if t_in.reserve + received_in > t_in.max_cap {
                    r == Err::<(), Error>(Error::CapExceeded) && *final(pool) == *old(pool)
                } else if sent_out + sent_protocol > u64::MAX || sent_out + sent_protocol
                    > t_out.reserve {
                    r == Err::<(), Error>(Error::MathError) && *final(pool) == *old(pool)
                } else {
                    &&& r == Ok::<(), Error>(())
                    &&& final(pool).tokens@ == old(pool).tokens@.update(
                        i as int,
                        PoolToken { reserve: (t_in.reserve + received_in) as u64, ..t_in },
                    ).update(
                        j as int,
                        PoolToken { reserve: (t_out.reserve - sent_out - sent_protocol) as u64, ..t_out },
                    )
                    &&& final(pool).swap_fee == old(pool).swap_fee
                    &&& final(pool).protocol_fee == old(pool).protocol_fee
                    &&& final(pool).amp_initial_factor == old(pool).amp_initial_factor
                    &&& final(pool).amp_target_factor == old(pool).amp_target_factor
                    &&& final(pool).ramp_start_ts == old(pool).ramp_start_ts
                    &&& final(pool).ramp_stop_ts == old(pool).ramp_stop_ts
                }
            }),
            final(pool).wf(),
    {
        let mut t_in = pool.tokens[i];
        let mut t_out = pool.tokens[j];
        t_in.reserve = match t_in.reserve.checked_add(received_in) {
            Some(r) => if r <= t_in.max_cap {
                r
            } else {
                return Err(Error::CapExceeded);
            },
            None => {
                return Err(Error::CapExceeded);
            },
        };
        let sent = match sent_out.checked_add(sent_protocol) {
            Some(v) => v,
            None => {
                return Err(Error::MathError);
            },
        };
        t_out.reserve = match t_out.reserve.checked_sub(sent) {
            Some(r) => r,
            None => {
                return Err(Error::MathError);
            },
        };
        pool.tokens.set(i, t_in);
        pool.tokens.set(j, t_out);
        Ok(())
    }

    /// The reserves in raw units, in token order.
    pub fn reserves_raw(pool: &Pool) -> (r: Vec<i128>)
        requires
            pool.wf(),
        ensures
            r@.len() == pool.tokens@.len(),
            forall|k: int|
                0 <= k < r@.len() ==> #[trigger] r@[k] == spec_from_internal(
                    pool.tokens@[k].reserve,
                    pool.tokens@[k].scaling_factor,
                    pool.tokens@[k].scaling_up,
                ),
    {
        let mut out: Vec<i128> = Vec::new();
        let mut k: usize = 0;
        while k < pool.tokens.len()
            invariant
                0 <= k <= pool.tokens@.len(),
                pool.wf(),
                out@.len() == k,
                forall|m: int|
                    0 <= m < k ==> #[trigger] out@[m] == spec_from_internal(
                        pool.tokens@[m].reserve,
                        pool.tokens@[m].scaling_factor,
                        pool.tokens@[m].scaling_up,
                    ),
            decreases pool.tokens@.len() - k,
        {
            let t = pool.tokens[k];
            assert(t.wf());
            proof {
                lemma_safe_amount_converts(t.reserve, t.scaling_factor, t.scaling_up);
            }
            out.push(t.to_raw(t.reserve));
            k = k + 1;
        }
        out
    }

    /// The current amplification factor (effective A), reflecting any ramp in
    /// progress at `now`.
    pub fn get_amp(pool: &Pool, now: u64) -> (r: u32)
        ensures
            r == pool_amp(*pool, now) / AMP_PRECISION,
    {
        let amp = current_amp(pool, now);
        proof {
            let a0 = pool.amp_initial_factor * AMP_PRECISION;
            let a1 = pool.amp_target_factor * AMP_PRECISION;
            vstd::arithmetic::div_mod::lemma_div_is_ordered(
                amp as int,
                crate::pool::amp::max_int(a0, a1),
                AMP_PRECISION as int,
            );
            vstd::arithmetic::div_mod::lemma_div_by_multiple(
                pool.amp_initial_factor as int,
                AMP_PRECISION as int,
            );
            vstd::arithmetic::div_mod::lemma_div_by_multiple(
                pool.amp_target_factor as int,
                AMP_PRECISION as int,
            );
        }
        (amp / AMP_PRECISION) as u32
    }

    /// Start (or replace) a linear ramp toward `target_factor` over
    /// `duration` seconds from `now`, beginning at the current interpolated
    /// factor so the amplification does not jump.
    pub fn set_amp_ramp(pool: &mut Pool, target_factor: u32, duration: u64, now: u64) -> (r: Result<
        (),
        Error,
    >)
        requires
            now + duration <= u64::MAX,
        ensures
            !(MIN_AMP <= target_factor <= MAX_AMP) ==> r == Err::<(), Error>(Error::InvalidAmpFactor)
                && *final(pool) == *old(pool),
            (MIN_AMP <= target_factor <= MAX_AMP) ==> {
                &&& r == Ok::<(), Error>(())
                &&& final(pool).amp_initial_factor == pool_amp(*old(pool), now) / AMP_PRECISION
                &&& final(pool).amp_target_factor == target_factor
                &&& final(pool).ramp_start_ts == now
                &&& final(pool).ramp_stop_ts == now + duration
                &&& final(pool).tokens@ == old(pool).tokens@
                &&& final(pool).swap_fee == old(pool).swap_fee
                &&& final(pool).protocol_fee == old(pool).protocol_fee
            },
    {
        if !is_valid_amp_factor(target_factor) {
            return Err(Error::InvalidAmpFactor);
        }
        let current_factor = Self::get_amp(pool, now);
        pool.amp_initial_factor = current_factor;
        pool.amp_target_factor = target_factor;
        pool.ramp_start_ts = now;
        pool.ramp_stop_ts = now + duration;
        Ok(())
    }

    /// Set the swap fee, within `[MIN_SWAP_FEE, MAX_SWAP_FEE]`.
    pub fn set_swap_fee(pool: &mut Pool, swap_fee: u64) -> (r: Result<(), Error>)
        ensures
            !(MIN_SWAP_FEE <= swap_fee <= MAX_SWAP_FEE) ==> r == Err::<(), Error>(
                Error::InvalidSwapFee,
            ) && *final(pool) == *old(pool),
            (MIN_SWAP_FEE <= swap_fee <= MAX_SWAP_FEE) ==> r == Ok::<(), Error>(()) && *final(pool)
                == (Pool { swap_fee, ..*old(pool) }),
    {
        if swap_fee < MIN_SWAP_FEE || swap_fee > MAX_SWAP_FEE {
            return Err(Error::InvalidSwapFee);
        }
        pool.swap_fee = swap_fee;
        Ok(())
    }

    /// Set the protocol's cut of the swap fee, at most 100%.
    pub fn set_protocol_fee(pool: &mut Pool, protocol_fee: u64) -> (r: Result<(), Error>)
        ensures
            protocol_fee > fixed_math::ONE ==> r == Err::<(), Error>(Error::InvalidProtocolFee)
                && *final(pool) == *old(pool),
            protocol_fee <= fixed_math::ONE ==> r == Ok::<(), Error>(()) && *final(pool) == (Pool {
                protocol_fee,
                ..*old(pool)
            }),
    {
        if protocol_fee > fixed_math::ONE {
            return Err(Error::InvalidProtocolFee);
        }
        pool.protocol_fee = protocol_fee;
        Ok(())
    }

    /// Set token `index`'s reserve cap to `max_cap` raw units; `index` is
    /// `None` for an address that is not a pool token. The cap must be
    /// representable and at least the current reserve.
    pub fn set_token_cap(pool: &mut Pool, index: Option<usize>, max_cap: i128) -> (r: Result<
        (),
        Error,
    >)
        requires
            old(pool).wf(),
            index matches Some(i) ==> i < old(pool).tokens@.len(),
        ensures
            final(pool).wf(),
            match index {
                None => r == Err::<(), Error>(Error::UnknownToken) && *final(pool) == *old(pool),
                Some(i) => {
                    let t = old(pool).tokens@[i as int];
                    match spec_to_internal(max_cap, t.scaling_factor, t.scaling_up) {
                        Some(cap) => if cap >= t.reserve {
                            &&& r == Ok::<(), Error>(())
                            &&& final(pool).tokens@ == old(pool).tokens@.update(
                                i as int,
                                PoolToken { max_cap: cap, ..t },
                            )
                            &&& final(pool).swap_fee == old(pool).swap_fee
                            &&& final(pool).protocol_fee == old(pool).protocol_fee
                            &&& final(pool).amp_initial_factor == old(pool).amp_initial_factor
                            &&& final(pool).amp_target_factor == old(pool).amp_target_factor
                            &&& final(pool).ramp_start_ts == old(pool).ramp_start_ts
                            &&& final(pool).ramp_stop_ts == old(pool).ramp_stop_ts
                        } else {
                            r == Err::<(), Error>(Error::InvalidCap) && *final(pool) == *old(pool)
                        },
                        None => r == Err::<(), Error>(Error::InvalidCap) && *final(pool) == *old(
                            pool,
                        ),
                    }
                },
            },
    {
        let i = match index {
            Some(i) => i,
            None => {
                return Err(Error::UnknownToken);
            },
        };
        let mut t = pool.tokens[i];
        assert(t.wf());
        let cap_int = match to_internal(max_cap, t.scaling_factor, t.scaling_up) {
            Some(c) => if c >= t.reserve {
                c
            } else {
                return Err(Error::InvalidCap);
            },
            None => {
                return Err(Error::InvalidCap);
            },
        };
        t.max_cap = cap_int;
        pool.tokens.set(i, t);
        Ok(())
    }
}


/// The pool after `set_amp_ramp(target, duration)` at `now`.
pub open spec fn ramped(pool: Pool, target: u32, duration: u64, now: u64) -> Pool {
    Pool {
        amp_initial_factor: (pool_amp(pool, now) / AMP_PRECISION) as u32,
        amp_target_factor: target,
        ramp_start_ts: now,
        ramp_stop_ts: (now + duration) as u64,
        ..pool
    }
}

/// Law: after a new ramp is set at `now`, the amplification at every later
/// time `t` is the ramp from the factor current at `now` to `target` over
/// `[now, now + duration]`, and from `now + duration` on it is the target.
pub proof fn law_amp_ramp_follows_the_ramp(pool: Pool, target: u32, duration: u64, now: u64, t: u64)
    requires
        now + duration <= u64::MAX,
        now <= t,
        MIN_AMP <= target <= MAX_AMP,
    ensures
        pool_amp(ramped(pool, target, duration, now), t) == spec_ramp_amp(
            (pool_amp(pool, now) / AMP_PRECISION) as u32,
            target,
            now,
            (now + duration) as u64,
            t,
        ) as u64,
        t >= now + duration ==> pool_amp(ramped(pool, target, duration, now), t) / AMP_PRECISION
            == target,
{
    if t >= now + duration {
        vstd::arithmetic::div_mod::lemma_div_by_multiple(target as int, AMP_PRECISION as int);
    }
}

/// Law: a new amplification ramp starts from the current factor, so the
/// factor does not jump; a ramp of zero duration applies the target at once.
pub proof fn law_amp_ramp_starts_at_current_factor(pool: Pool, target: u32, duration: u64, now: u64)
    requires
        now + duration <= u64::MAX,
    ensures
        duration > 0 ==> pool_amp(ramped(pool, target, duration, now), now) / AMP_PRECISION
            == pool_amp(pool, now) / AMP_PRECISION,
        duration == 0 ==> pool_amp(ramped(pool, target, duration, now), now) / AMP_PRECISION
            == target,
{
    let a0 = pool.amp_initial_factor * AMP_PRECISION;
    let a1 = pool.amp_target_factor * AMP_PRECISION;
    crate::pool::amp::lemma_ramp_within_endpoints(
        pool.amp_initial_factor,
        pool.amp_target_factor,
        pool.ramp_start_ts,
        pool.ramp_stop_ts,
        now,
    );
    let amp = pool_amp(pool, now);
    vstd::arithmetic::div_mod::lemma_div_is_ordered(
        amp as int,
        crate::pool::amp::max_int(a0, a1),
        AMP_PRECISION as int,
    );
    vstd::arithmetic::div_mod::lemma_div_by_multiple(pool.amp_initial_factor as int, AMP_PRECISION as int);
    vstd::arithmetic::div_mod::lemma_div_by_multiple(pool.amp_target_factor as int, AMP_PRECISION as int);
    let f = (amp / AMP_PRECISION) as u32;
    vstd::arithmetic::div_mod::lemma_div_by_multiple(f as int, AMP_PRECISION as int);
    vstd::arithmetic::div_mod::lemma_div_by_multiple(target as int, AMP_PRECISION as int);
}

proof fn lemma_normalized_none_stays(tokens: Seq<PoolToken>, raw: Seq<i128>, k: nat, m: nat)
    requires
        k <= m,
        normalized_amounts(tokens, raw, k) is None,
    ensures
        normalized_amounts(tokens, raw, m) is None,
    decreases m - k,
{
    if k < m {
        lemma_normalized_none_stays(tokens, raw, k + 1, m);
    }
}


impl LiquidityPool {
    /// Plan burning `lp_amount` LP shares (out of `total_supply`) for the
    /// single token `token` (its index, `None` when the pool does not hold
    /// it), paying at least `min_out` raw units. The payout is the
    /// single-token exit quote: the fee on the imbalanced portion is
    /// withheld, and the protocol's cut of it goes to the beneficiary.
    pub fn plan_withdraw_one_token(
        e: &Env,
        pool: &Pool,
        now: u64,
        token: Option<usize>,
        lp_amount: i128,
        total_supply: i128,
        min_out: i128,
    ) -> (r: Result<ExitPlan, Error>)
        requires
            pool.wf(),
            token matches Some(k) ==> k < pool.tokens@.len(),
            withdraw_one_token_fits(*pool, now, token, lp_amount, total_supply),
        ensures
            match r {
                Err(e) => spec_plan_withdraw_one_token(
                    *pool,
                    now,
                    token,
                    lp_amount,
                    total_supply,
                    min_out,
                ) == Err::<(usize, u64, u64, u64, i128), Error>(e),
                Ok(p) => {
                    &&& spec_plan_withdraw_one_token(
                        *pool,
                        now,
                        token,
                        lp_amount,
                        total_supply,
                        min_out,
                    ) == Ok::<(usize, u64, u64, u64, i128), Error>(
                        (p.index, p.lp, p.net_out, p.protocol, p.returned),
                    )
                    &&& spec_withdraw_one_token_quote(
                        *pool,
                        now,
                        p.index as int,
                        p.lp,
                        total_supply as u64,
                    ) == Some((p.net_out, p.protocol))
                },
            },
    {
        let k = match token {
            Some(k) => k,
            None => {
                return Err(Error::UnknownToken);
            },
        };
        if lp_amount <= 0 {
            return Err(Error::InvalidAmount);
        }
        let supply = match u64::try_from(total_supply) {
            Ok(s) => if s > 0 {
                s
            } else {
                return Err(Error::MathError);
            },
            Err(_) => {
                return Err(Error::MathError);
            },
        };
        let lp = Self::unwrap_u64(lp_amount)?;
        let q = match quote::withdraw_one_token(e, pool, now, k, lp, supply) {
            Some(q) => q,
            None => {
                return Err(Error::MathError);
            },
        };
        let t = pool.tokens[k];
        assert(t.wf());
        proof {
            lemma_safe_amount_converts(q.amount_out, t.scaling_factor, t.scaling_up);
        }
        let out = t.to_raw(q.amount_out);
        if out < min_out {
            return Err(Error::SlippageExceeded);
        }
        Ok(ExitPlan { index: k, lp, net_out: q.amount_out, protocol: q.protocol, returned: out })
    }
}


/// Law: the protocol fee never changes the LP a deposit mints to the
/// depositor; the protocol's LP is minted on top of it.
pub proof fn law_deposit_lp_independent_of_protocol_fee(
    pool: Pool,
    now: u64,
    amounts_in: Seq<i128>,
    total_supply: i128,
    min_lp_out: i128,
    other_fee: u64,
)
    ensures
        ({
            let a = spec_plan_deposit(pool, now, amounts_in, total_supply, min_lp_out);
            let b = spec_plan_deposit(
                with_protocol_fee(pool, other_fee),
                now,
                amounts_in,
                total_supply,
                min_lp_out,
            );
            (a is Ok && b is Ok) ==> (a->Ok_0).0 == (b->Ok_0).0
        }),
{
    let other = with_protocol_fee(pool, other_fee);
    assert(other.reserves_view() =~= pool.reserves_view());
    let n = pool.tokens@.len();
    match normalized_amounts(pool.tokens@, amounts_in, n) {
        None => {},
        Some(amounts) => {
            law_protocol_fee_leaves_depositor_lp(pool, now, amounts, 0, other_fee);
            if 0 <= total_supply <= u64::MAX {
                law_protocol_fee_leaves_depositor_lp(
                    pool,
                    now,
                    amounts,
                    total_supply as u64,
                    other_fee,
                );
            }
        },
    }
}


/// Law: an exact-input swap takes the input in the input token's units and
/// pays the output in the output token's units. The internal input is the
/// raw input scaled by the input token (`raw * f` for tokens of at most 9
/// decimals, `raw / f` otherwise) and the raw amount pulled is that internal
/// amount scaled back; the trader's internal output is the solver's output
/// less the swap fee, rounded down; the protocol takes its share of the fee;
/// and the raw amount paid is the internal output in the output token's
/// units, at least `min_out`.
pub proof fn law_swap_exact_in_units_and_fee(
    pool: Pool,
    now: u64,
    i: int,
    j: int,
    amount_in: i128,
    min_out: i128,
)
    requires
        pool.wf(),
        0 <= i < pool.tokens@.len(),
        0 <= j < pool.tokens@.len(),
        pool.swap_fee <= fixed_math::ONE,
        spec_plan_swap_exact_in(pool, now, i, j, amount_in, min_out) is Ok,
    ensures
        ({
            let one = fixed_math::ONE as int;
            let (in_raw, net, protocol, returned) = spec_plan_swap_exact_in(
                pool,
                now,
                i,
                j,
                amount_in,
                min_out,
            )->Ok_0;
            let t_in = pool.tokens@[i];
            let t_out = pool.tokens@[j];
            let a: int = if t_in.scaling_up {
                amount_in * t_in.scaling_factor
            } else {
                (amount_in as int) / (t_in.scaling_factor as int)
            };
            let amp = pool_amp(pool, now);
            let rs = pool.reserves_view();
            let d = spec_calc_invariant(amp, rs, default_threshold())->0;
            let gross = spec_calc_out_given_in(amp, rs, i, j, a as u64, d)->0;
            &&& amount_in >= 0
            &&& 0 < a <= u64::MAX
            &&& in_raw == (if t_in.scaling_up {
                a / (t_in.scaling_factor as int)
            } else {
                a * t_in.scaling_factor
            }) as i128
            &&& net == (gross * (one - pool.swap_fee)) / one
            &&& protocol == ((gross - net) * pool.protocol_fee) / one
            &&& returned == (if t_out.scaling_up {
                (net as int) / (t_out.scaling_factor as int)
            } else {
                net * t_out.scaling_factor
            }) as i128
            &&& returned >= min_out
        }),
{
    let t_in = pool.tokens@[i];
    assert(t_in.wf());
    let amp = pool_amp(pool, now);
    let rs = pool.reserves_view();
    let a = spec_to_internal(amount_in, t_in.scaling_factor, t_in.scaling_up)->0;
    let d = spec_calc_invariant(amp, rs, default_threshold())->0;
    let gross = spec_calc_out_given_in(amp, rs, i, j, a, d)->0;
    crate::pool::fee::lemma_share_le_amount(gross, spec_complement(pool.swap_fee));
    if !t_in.scaling_up {
        vstd::arithmetic::div_mod::lemma_div_pos_is_pos(amount_in as int, t_in.scaling_factor as int);
    }
}

/// Law: the slippage bound of an exact-input swap only decides whether the
/// swap goes through: with any `min_out`, the swap is the one quoted with no
/// bound when it pays at least `min_out`, and fails with `SlippageExceeded`
/// otherwise.
pub proof fn law_swap_exact_in_slippage(
    pool: Pool,
    now: u64,
    i: int,
    j: int,
    amount_in: i128,
    min_out: i128,
)
    requires
        spec_plan_swap_exact_in(pool, now, i, j, amount_in, i128::MIN) is Ok,
    ensures
        ({
            let p = spec_plan_swap_exact_in(pool, now, i, j, amount_in, i128::MIN)->Ok_0;
            spec_plan_swap_exact_in(pool, now, i, j, amount_in, min_out) == if p.3 < min_out {
                Err::<(i128, u64, u64, i128), Error>(Error::SlippageExceeded)
            } else {
                Ok::<(i128, u64, u64, i128), Error>(p)
            }
        }),
{
}

/// Law: an exact-output swap pays exactly the requested output and charges
/// the input in the input token's units. The internal output is the raw
/// output scaled by the output token; it is grossed up for the swap fee
/// (`ceil(net / (1 - fee))`); the solver prices that gross output in the
/// input token; and the raw input charged, which the swap returns, is that
/// internal input scaled back rounded up (`ceil(a / f)` for tokens of at
/// most 9 decimals, `a * f` otherwise), at most `max_in`. The protocol takes
/// its share of the fee `gross - net`.
pub proof fn law_swap_exact_out_units_and_fee(
    pool: Pool,
    now: u64,
    i: int,
    j: int,
    amount_out: i128,
    max_in: i128,
)
    requires
        pool.wf(),
        0 <= i < pool.tokens@.len(),
        0 <= j < pool.tokens@.len(),
        pool.swap_fee < fixed_math::ONE,
        spec_plan_swap_exact_out(pool, now, i, j, amount_out, max_in) is Ok,
    ensures
        ({
            let one = fixed_math::ONE as int;
            let (in_raw, net, protocol, returned) = spec_plan_swap_exact_out(
                pool,
                now,
                i,
                j,
                amount_out,
                max_in,
            )->Ok_0;
            let t_in = pool.tokens@[i];
            let t_out = pool.tokens@[j];
            let gross = (net * one + (one - pool.swap_fee) - 1) / (one - pool.swap_fee);
            let amp = pool_amp(pool, now);
            let rs = pool.reserves_view();
            let d = spec_calc_invariant(amp, rs, default_threshold())->0;
            let a = spec_calc_in_given_out(amp, rs, i, j, gross as u64, d)->0;
            &&& amount_out >= 0
            &&& net as int == (if t_out.scaling_up {
                amount_out * t_out.scaling_factor
            } else {
                (amount_out as int) / (t_out.scaling_factor as int)
            })
            &&& net > 0
            &&& gross <= u64::MAX
            &&& in_raw == (if t_in.scaling_up {
                (a + t_in.scaling_factor - 1) / (t_in.scaling_factor as int)
            } else {
                a * t_in.scaling_factor
            }) as i128
            &&& returned == in_raw
            &&& in_raw <= max_in
            &&& protocol == ((gross - net) * pool.protocol_fee) / one
        }),
{
    let t_out = pool.tokens@[j];
    assert(t_out.wf());
    let net = spec_to_internal(amount_out, t_out.scaling_factor, t_out.scaling_up)->0;
    let gross = spec_div_up(net, spec_complement(pool.swap_fee))->0;
    crate::pool::fee::lemma_gross_covers_net(net, spec_complement(pool.swap_fee));
    if !t_out.scaling_up {
        vstd::arithmetic::div_mod::lemma_div_pos_is_pos(amount_out as int, t_out.scaling_factor as int);
    }
}

/// Law: the input bound of an exact-output swap only decides whether the
/// swap goes through: with any `max_in`, the swap is the one quoted with no
/// bound when the raw input it charges is at most `max_in`, and fails with
/// `SlippageExceeded` otherwise.
pub proof fn law_swap_exact_out_slippage(
    pool: Pool,
    now: u64,
    i: int,
    j: int,
    amount_out: i128,
    max_in: i128,
)
    requires
        spec_plan_swap_exact_out(pool, now, i, j, amount_out, i128::MAX) is Ok,
    ensures
        ({
            let p = spec_plan_swap_exact_out(pool, now, i, j, amount_out, i128::MAX)->Ok_0;
            spec_plan_swap_exact_out(pool, now, i, j, amount_out, max_in) == if p.0 > max_in {
                Err::<(i128, u64, u64, i128), Error>(Error::SlippageExceeded)
            } else {
                Ok::<(i128, u64, u64, i128), Error>(p)
            }
        }),
{
}


/// Law: a single-token exit pays the caller, in that token's raw units, the
/// exit quote's net payout scaled back (`net / f` for tokens of at most 9
/// decimals, `net * f` otherwise), at least `min_out`, and burns exactly the
/// LP asked for.
pub proof fn law_exit_pays_in_token_units(
    pool: Pool,
    now: u64,
    token: Option<usize>,
    lp_amount: i128,
    total_supply: i128,
    min_out: i128,
)
    requires
        spec_plan_withdraw_one_token(pool, now, token, lp_amount, total_supply, min_out) is Ok,
    ensures
        ({
            let (k, lp, net, protocol, returned) = spec_plan_withdraw_one_token(
                pool,
                now,
                token,
                lp_amount,
                total_supply,
                min_out,
            )->Ok_0;
            let t = pool.tokens@[k as int];
            &&& token == Some(k)
            &&& lp as int == lp_amount
            &&& spec_withdraw_one_token_quote(pool, now, k as int, lp, total_supply as u64) == Some(
                (net, protocol),
            )
            &&& returned == (if t.scaling_up {
                (net as int) / (t.scaling_factor as int)
            } else {
                net * t.scaling_factor
            }) as i128
            &&& returned >= min_out
        }),
{
}

} // verus!
