//! Quotes for pool operations that depend on the stable math. This module
//! owns the order of work: current amplification, normalized reserves,
//! invariant, formula, then swap-fee accounting.
use soroban_sdk::Env;
use vstd::prelude::*;

use super::amp::{current_amp, spec_ramp_amp};
use super::fee::{self, spec_protocol_cut, spec_protocol_share};
use super::normalized::NormalizedAmounts;
use super::state::{reserves, Pool};
use crate::math::fixed_math::{spec_complement, spec_div_up, spec_mul_down};
use crate::math::lp_exit::{
    self, is_proportional_split_down, proportional_split_down_fails,
    single_token_amount_out_fits, spec_single_token_amount_out,
};
use crate::math::stable::{
    self, in_given_out_fits, invariant_fits, out_given_in_fits, pool_token_out_fits,
    pool_token_out_no_fee_fits, spec_calc_in_given_out, spec_calc_invariant,
    spec_calc_out_given_in, spec_pool_token_out_given_exact_tokens_in,
    spec_pool_token_out_no_fee,
};
use crate::math::{DEFAULT_INV_THRESHOLD, MAX_TOKENS};

verus! {

pub struct DepositQuote {
    /// LP shares minted to the depositor.
    pub lp_out: u64,
    /// LP shares minted to the beneficiary as the protocol's cut of the swap
    /// fee on the imbalanced portion (zero for balanced and first deposits).
    pub protocol_lp: u64,
}

pub struct ProportionalWithdrawQuote {
    pub amounts_out: [u64; 5],
}

pub struct SingleTokenWithdrawQuote {
    /// Output-token amount paid to the caller (net of the swap fee).
    pub amount_out: u64,
    /// Output-token amount paid to the beneficiary as the protocol's cut of
    /// the swap fee on the imbalanced (virtual-swap) portion.
    pub protocol: u64,
}

pub struct SwapExactInQuote {
    pub net_out: u64,
    pub protocol: u64,
}

pub struct SwapExactOutQuote {
    pub amount_in: u64,
    pub protocol: u64,
}

/// The pool's amplification at `now`, as the math takes it.
pub open spec fn pool_amp(pool: Pool, now: u64) -> u64 {
    spec_ramp_amp(
        pool.amp_initial_factor,
        pool.amp_target_factor,
        pool.ramp_start_ts,
        pool.ramp_stop_ts,
        now,
    ) as u64
}

pub open spec fn default_threshold() -> nat {
    DEFAULT_INV_THRESHOLD as nat
}

/// `(lp_out, protocol_lp)` for depositing `amounts`: the first deposit
/// mints the invariant of the deposit (which must be positive) with no
/// protocol cut; a later one mints by the invariant's growth after the fee on
/// the imbalanced portion, and the protocol's share is taken from the LP
/// that fee suppressed.
pub open spec fn spec_deposit_quote(pool: Pool, now: u64, amounts: Seq<u64>, supply: u64) -> Option<
    (u64, u64),
> {
    let amp = pool_amp(pool, now);
    let rs = pool.reserves_view();
    let th = default_threshold();
    if amounts.len() != pool.tokens@.len() {
        None
    } else if supply == 0 {
        match spec_calc_invariant(amp, amounts, th) {
            Some(d) => if d > 0 {
                Some((d, 0))
            } else {
                None
            },
            None => None,
        }
    } else {
        match spec_calc_invariant(amp, rs, th) {
            None => None,
            Some(current) => match spec_pool_token_out_given_exact_tokens_in(
                amp,
                rs,
                amounts,
                supply,
                current,
                pool.swap_fee,
                th,
            ) {
                None => None,
                Some(lp_out) => if pool.protocol_fee > 0 {
                    match spec_pool_token_out_no_fee(amp, rs, amounts, supply, current, th) {
                        None => None,
                        Some(lp_no_fee) => match spec_protocol_share(
                            if lp_no_fee >= lp_out {
                                (lp_no_fee - lp_out) as u64
                            } else {
                                0u64
                            },
                            pool.protocol_fee,
                        ) {
                            None => None,
                            Some(protocol_lp) => Some((lp_out, protocol_lp)),
                        },
                    }
                } else {
                    Some((lp_out, 0))
                },
            },
        }
    }
}

/// The host arithmetic of a deposit quote stays within 256 bits.
pub open spec fn deposit_fits(pool: Pool, now: u64, amounts: Seq<u64>, supply: u64) -> bool {
    let amp = pool_amp(pool, now);
    let rs = pool.reserves_view();
    let th = default_threshold();
    amounts.len() == pool.tokens@.len() ==> if supply == 0 {
        invariant_fits(amp, amounts, th)
    } else {
        &&& invariant_fits(amp, rs, th)
        &&& match spec_calc_invariant(amp, rs, th) {
            None => true,
            Some(current) => {
                &&& pool_token_out_fits(amp, rs, amounts, pool.swap_fee, th)
                &&& (pool.protocol_fee > 0 && spec_pool_token_out_given_exact_tokens_in(
                    amp,
                    rs,
                    amounts,
                    supply,
                    current,
                    pool.swap_fee,
                    th,
                ) is Some) ==> pool_token_out_no_fee_fits(amp, rs, amounts, th)
            },
        }
    }
}

/// Quote a deposit of `amounts_in` (normalized, in token order) into `pool`
/// with `pool_token_supply` LP shares outstanding.
pub fn deposit_exact_tokens_in(
    e: &Env,
    pool: &Pool,
    now: u64,
    amounts_in: &NormalizedAmounts,
    pool_token_supply: u64,
) -> (r: Option<DepositQuote>)
    requires
        pool.wf(),
        deposit_fits(*pool, now, amounts_in@, pool_token_supply),
    ensures
        match r {
            None => spec_deposit_quote(*pool, now, amounts_in@, pool_token_supply) is None,
            Some(q) => spec_deposit_quote(*pool, now, amounts_in@, pool_token_supply) == Some(
                (q.lp_out, q.protocol_lp),
            ),
        },
        pool_token_supply == 0 ==> (r matches Some(q) ==> q.protocol_lp == 0 && q.lp_out > 0),
{
    let amp = current_amp(pool, now);
    if amounts_in.len() != pool.tokens.len() {
        return None;
    }

    if pool_token_supply == 0 {
        let lp_out = match stable::calc_invariant(e, amp, amounts_in.as_slice(), None) {
            Some(d) => if d > 0 {
                d
            } else {
                return None;
            },
            None => {
                return None;
            },
        };
        return Some(DepositQuote { lp_out, protocol_lp: 0 });
    }

    let (reserve_arr, n) = reserves(pool);
    let rs = &reserve_arr[0..n];
    let current_invariant = stable::calc_invariant(e, amp, rs, None)?;
    let lp_out = stable::calc_pool_token_out_given_exact_tokens_in(
        e,
        amp,
        rs,
        amounts_in.as_slice(),
        pool_token_supply,
        current_invariant,
        pool.swap_fee,
        None,
    )?;

    let protocol_lp = if pool.protocol_fee > 0 {
        let lp_no_fee = stable::calc_pool_token_out_no_fee(
            e,
            amp,
            rs,
            amounts_in.as_slice(),
            pool_token_supply,
            current_invariant,
            None,
        )?;
        fee::protocol_share(lp_no_fee.saturating_sub(lp_out), pool.protocol_fee)?
    } else {
        0
    };

    Some(DepositQuote { lp_out, protocol_lp })
}

/// Quote a proportional withdrawal of `pool_token_amount` LP shares: each
/// reserve's share, rounded down.
pub fn withdraw_proportional(pool: &Pool, pool_token_supply: u64, pool_token_amount: u64) -> (r:
    Option<ProportionalWithdrawQuote>)
    requires
        pool.wf(),
    ensures
        match r {
            None => proportional_split_down_fails(
                pool.reserves_view(),
                pool_token_supply,
                pool_token_amount,
            ),
            Some(q) => is_proportional_split_down(
                pool.reserves_view(),
                pool_token_supply,
                pool_token_amount,
                q.amounts_out@,
            ),
        },
        r matches Some(q) ==> (pool_token_amount <= pool_token_supply ==> forall|k: int|
            0 <= k < pool.tokens@.len() ==> #[trigger] q.amounts_out@[k]
                <= pool.reserves_view()[k]),
{
    let (reserve_arr, n) = reserves(pool);
    let rs = &reserve_arr[0..n];
    let amounts_out = lp_exit::proportional_amounts_out(rs, pool_token_supply, pool_token_amount)?;

    Some(ProportionalWithdrawQuote { amounts_out })
}

/// `(amount_out, protocol)` for burning `amount` LP shares into the single
/// token `index`: the exit's net payout and the protocol's share of its fee.
pub open spec fn spec_withdraw_one_token_quote(
    pool: Pool,
    now: u64,
    index: int,
    amount: u64,
    supply: u64,
) -> Option<(u64, u64)> {
    match spec_single_token_amount_out(
        pool_amp(pool, now),
        pool.reserves_view(),
        index,
        amount,
        supply,
        pool.swap_fee,
    ) {
        None => None,
        Some((net_out, fee_amount)) => match spec_protocol_share(fee_amount, pool.protocol_fee) {
            None => None,
            Some(protocol) => Some((net_out, protocol)),
        },
    }
}

/// Quote burning `pool_token_amount` LP shares for the single token
/// `token_index`.
pub fn withdraw_one_token(
    e: &Env,
    pool: &Pool,
    now: u64,
    token_index: usize,
    pool_token_amount: u64,
    pool_token_supply: u64,
) -> (r: Option<SingleTokenWithdrawQuote>)
    requires
        pool.wf(),
        single_token_amount_out_fits(
            pool_amp(*pool, now),
            pool.reserves_view(),
            token_index as int,
            pool_token_amount,
            pool_token_supply,
        ),
    ensures
        match r {
            None => spec_withdraw_one_token_quote(
                *pool,
                now,
                token_index as int,
                pool_token_amount,
                pool_token_supply,
            ) is None,
            Some(q) => spec_withdraw_one_token_quote(
                *pool,
                now,
                token_index as int,
                pool_token_amount,
                pool_token_supply,
            ) == Some((q.amount_out, q.protocol)),
        },
        r matches Some(q) ==> (pool.protocol_fee <= crate::math::fixed_math::ONE ==> q.amount_out
            + q.protocol <= pool.reserves_view()[token_index as int]),
{
    let amp = current_amp(pool, now);
    let (reserve_arr, n) = reserves(pool);
    let rs = &reserve_arr[0..n];
    let (net_out, fee_amount) = lp_exit::single_token_amount_out(
        e,
        amp,
        rs,
        token_index,
        pool_token_amount,
        pool_token_supply,
        pool.swap_fee,
    )?;
    let protocol = fee::protocol_share(fee_amount, pool.protocol_fee)?;

    Some(SingleTokenWithdrawQuote { amount_out: net_out, protocol })
}

/// Whether an exact-input swap quote stays within 256 bits.
pub open spec fn swap_exact_in_fits(pool: Pool, now: u64, i: int, j: int, amount_in: u64) -> bool {
    let amp = pool_amp(pool, now);
    let rs = pool.reserves_view();
    &&& invariant_fits(amp, rs, default_threshold())
    &&& match spec_calc_invariant(amp, rs, default_threshold()) {
        None => true,
        Some(d) => out_given_in_fits(amp, rs, i, j, amount_in, d),
    }
}

/// `(net_out, protocol)` of an exact-input swap: the curve's output less the
/// swap fee, and the protocol's share of that fee.
pub open spec fn spec_swap_exact_in_quote(pool: Pool, now: u64, i: int, j: int, amount_in: u64) -> Option<
    (u64, u64),
> {
    let amp = pool_amp(pool, now);
    let rs = pool.reserves_view();
    match spec_calc_invariant(amp, rs, default_threshold()) {
        None => None,
        Some(d) => match spec_calc_out_given_in(amp, rs, i, j, amount_in, d) {
            None => None,
            Some(gross) => match spec_mul_down(gross, spec_complement(pool.swap_fee)) {
                None => None,
                Some(net) => match spec_protocol_cut(pool.protocol_fee, gross, net) {
                    None => None,
                    Some(protocol) => Some((net, protocol)),
                },
            },
        },
    }
}

/// Quote swapping exactly `amount_in` of token `token_index_in` for token
/// `token_index_out`. The trader and the protocol together never receive
/// the whole output reserve.
pub fn swap_exact_in(
    e: &Env,
    pool: &Pool,
    now: u64,
    token_index_in: usize,
    token_index_out: usize,
    amount_in: u64,
) -> (r: Option<SwapExactInQuote>)
    requires
        pool.wf(),
        swap_exact_in_fits(*pool, now, token_index_in as int, token_index_out as int, amount_in),
    ensures
        match r {
            None => spec_swap_exact_in_quote(
                *pool,
                now,
                token_index_in as int,
                token_index_out as int,
                amount_in,
            ) is None,
            Some(q) => spec_swap_exact_in_quote(
                *pool,
                now,
                token_index_in as int,
                token_index_out as int,
                amount_in,
            ) == Some((q.net_out, q.protocol)),
        },
        r matches Some(q) ==> (pool.protocol_fee <= crate::math::fixed_math::ONE ==> q.net_out
            + q.protocol < pool.reserves_view()[token_index_out as int]),
{
    let amp = current_amp(pool, now);
    let (reserve_arr, n) = reserves(pool);
    let rs = &reserve_arr[0..n];
    let inv = stable::calc_invariant(e, amp, rs, None)?;
    let out_without_fee = stable::calc_out_given_in(
        e,
        amp,
        rs,
        token_index_in,
        token_index_out,
        amount_in,
        inv,
    )?;
    let output_fee = fee::output_from_gross(pool.swap_fee, pool.protocol_fee, out_without_fee)?;

    Some(SwapExactInQuote { net_out: output_fee.net_out, protocol: output_fee.protocol })
}

/// Whether an exact-output swap quote stays within 256 bits.
pub open spec fn swap_exact_out_fits(pool: Pool, now: u64, i: int, j: int, net_out: u64) -> bool {
    let amp = pool_amp(pool, now);
    let rs = pool.reserves_view();
    match spec_div_up(net_out, spec_complement(pool.swap_fee)) {
        None => true,
        Some(gross) => spec_protocol_cut(pool.protocol_fee, gross, net_out) is Some ==> {
            &&& invariant_fits(amp, rs, default_threshold())
            &&& match spec_calc_invariant(amp, rs, default_threshold()) {
                None => true,
                Some(d) => in_given_out_fits(amp, rs, i, j, gross, d),
            }
        },
    }
}

/// `(amount_in, protocol)` of an exact-output swap: the input the curve
/// needs for the output grossed up by the swap fee, and the protocol's share
/// of that fee.
pub open spec fn spec_swap_exact_out_quote(pool: Pool, now: u64, i: int, j: int, net_out: u64) -> Option<
    (u64, u64),
> {
    let amp = pool_amp(pool, now);
    let rs = pool.reserves_view();
    match spec_div_up(net_out, spec_complement(pool.swap_fee)) {
        None => None,
        Some(gross) => match spec_protocol_cut(pool.protocol_fee, gross, net_out) {
            None => None,
            Some(protocol) => match spec_calc_invariant(amp, rs, default_threshold()) {
                None => None,
                Some(d) => match spec_calc_in_given_out(amp, rs, i, j, gross, d) {
                    None => None,
                    Some(amount_in) => Some((amount_in, protocol)),
                },
            },
        },
    }
}

/// Quote the input of token `token_index_in` needed for the trader to
/// receive exactly `net_out` of token `token_index_out`.
pub fn swap_exact_out(
    e: &Env,
    pool: &Pool,
    now: u64,
    token_index_in: usize,
    token_index_out: usize,
    net_out: u64,
) -> (r: Option<SwapExactOutQuote>)
    requires
        pool.wf(),
        swap_exact_out_fits(*pool, now, token_index_in as int, token_index_out as int, net_out),
    ensures
        match r {
            None => spec_swap_exact_out_quote(
                *pool,
                now,
                token_index_in as int,
                token_index_out as int,
                net_out,
            ) is None,
            Some(q) => spec_swap_exact_out_quote(
                *pool,
                now,
                token_index_in as int,
                token_index_out as int,
                net_out,
            ) == Some((q.amount_in, q.protocol)),
        },
{
    let output_fee = fee::output_from_net(pool.swap_fee, pool.protocol_fee, net_out)?;

    let amp = current_amp(pool, now);
    let (reserve_arr, n) = reserves(pool);
    let rs = &reserve_arr[0..n];
    let inv = stable::calc_invariant(e, amp, rs, None)?;
    let amount_in = stable::calc_in_given_out(
        e,
        amp,
        rs,
        token_index_in,
        token_index_out,
        output_fee.gross_out,
        inv,
    )?;

    Some(SwapExactOutQuote { amount_in, protocol: output_fee.protocol })
}


/// The pool with its protocol fee replaced.
pub open spec fn with_protocol_fee(pool: Pool, protocol_fee: u64) -> Pool {
    Pool { protocol_fee, ..pool }
}

/// Law: the protocol fee never changes what a trader receives from an
/// exact-input swap; its cut comes out of the swap fee.
pub proof fn law_protocol_fee_leaves_swap_output(
    pool: Pool,
    now: u64,
    i: int,
    j: int,
    amount_in: u64,
    other_fee: u64,
)
    requires
        pool.protocol_fee <= crate::math::fixed_math::ONE,
        other_fee <= crate::math::fixed_math::ONE,
    ensures
        ({
            let a = spec_swap_exact_in_quote(pool, now, i, j, amount_in);
            let b = spec_swap_exact_in_quote(with_protocol_fee(pool, other_fee), now, i, j, amount_in);
            &&& (a is Some) == (b is Some)
            &&& a is Some ==> (a->0).0 == (b->0).0
        }),
{
    let other = with_protocol_fee(pool, other_fee);
    assert(other.reserves_view() =~= pool.reserves_view());
    let amp = pool_amp(pool, now);
    let rs = pool.reserves_view();
    match spec_calc_invariant(amp, rs, default_threshold()) {
        None => {},
        Some(d) => match spec_calc_out_given_in(amp, rs, i, j, amount_in, d) {
            None => {},
            Some(gross) => match spec_mul_down(gross, spec_complement(pool.swap_fee)) {
                None => {},
                Some(net) => {
                    let fee_amount = if gross >= net {
                        (gross - net) as u64
                    } else {
                        0u64
                    };
                    super::fee::lemma_share_le_amount(fee_amount, pool.protocol_fee);
                    super::fee::lemma_share_le_amount(fee_amount, other_fee);
                },
            },
        },
    }
}

/// Law: the protocol fee never changes what a single-token withdrawal pays
/// the caller; its cut comes out of the exit's swap fee.
pub proof fn law_protocol_fee_leaves_exit_output(
    pool: Pool,
    now: u64,
    index: int,
    amount: u64,
    supply: u64,
    other_fee: u64,
)
    requires
        pool.protocol_fee <= crate::math::fixed_math::ONE,
        other_fee <= crate::math::fixed_math::ONE,
    ensures
        ({
            let a = spec_withdraw_one_token_quote(pool, now, index, amount, supply);
            let b = spec_withdraw_one_token_quote(
                with_protocol_fee(pool, other_fee),
                now,
                index,
                amount,
                supply,
            );
            &&& (a is Some) == (b is Some)
            &&& a is Some ==> (a->0).0 == (b->0).0
        }),
{
    let other = with_protocol_fee(pool, other_fee);
    assert(other.reserves_view() =~= pool.reserves_view());
    match spec_single_token_amount_out(
        pool_amp(pool, now),
        pool.reserves_view(),
        index,
        amount,
        supply,
        pool.swap_fee,
    ) {
        None => {},
        Some((net_out, fee_amount)) => {
            super::fee::lemma_share_le_amount(fee_amount, pool.protocol_fee);
            super::fee::lemma_share_le_amount(fee_amount, other_fee);
        },
    }
}

/// Law: on a single-token exit that withholds a fee, the protocol's cut is
/// exactly `fee * protocol_fee` rounded down, and it is positive whenever
/// that product reaches one whole unit. The caller's payout is the same as
/// with no protocol fee (`law_protocol_fee_leaves_exit_output`).
pub proof fn law_exit_protocol_share(pool: Pool, now: u64, index: int, amount: u64, supply: u64)
    requires
        pool.protocol_fee <= crate::math::fixed_math::ONE,
        spec_single_token_amount_out(
            pool_amp(pool, now),
            pool.reserves_view(),
            index,
            amount,
            supply,
            pool.swap_fee,
        ) is Some,
    ensures
        ({
            let (net_out, fee_amount) = spec_single_token_amount_out(
                pool_amp(pool, now),
                pool.reserves_view(),
                index,
                amount,
                supply,
                pool.swap_fee,
            )->0;
            let protocol = (fee_amount * pool.protocol_fee) / (crate::math::fixed_math::ONE as int);
            &&& spec_withdraw_one_token_quote(pool, now, index, amount, supply) == Some(
                (net_out, protocol as u64),
            )
            &&& fee_amount * pool.protocol_fee >= crate::math::fixed_math::ONE ==> protocol > 0
        }),
{
    let (net_out, fee_amount) = spec_single_token_amount_out(
        pool_amp(pool, now),
        pool.reserves_view(),
        index,
        amount,
        supply,
        pool.swap_fee,
    )->0;
    super::fee::lemma_share_le_amount(fee_amount, pool.protocol_fee);
    let one = crate::math::fixed_math::ONE as int;
    if fee_amount * pool.protocol_fee >= one {
        vstd::arithmetic::div_mod::lemma_div_is_ordered(one, fee_amount * pool.protocol_fee, one);
        vstd::arithmetic::div_mod::lemma_div_by_multiple(1, one);
    }
}

/// Law: the protocol fee never changes the LP a depositor receives; its cut
/// is minted on top, to the beneficiary.
pub proof fn law_protocol_fee_leaves_depositor_lp(
    pool: Pool,
    now: u64,
    amounts: Seq<u64>,
    supply: u64,
    other_fee: u64,
)
    ensures
        ({
            let a = spec_deposit_quote(pool, now, amounts, supply);
            let b = spec_deposit_quote(with_protocol_fee(pool, other_fee), now, amounts, supply);
            (a is Some && b is Some) ==> (a->0).0 == (b->0).0
        }),
{
    let other = with_protocol_fee(pool, other_fee);
    assert(other.reserves_view() =~= pool.reserves_view());
}


/// Law: a deposit's protocol LP is the protocol fee's share of the LP that
/// the swap fee suppressed: `floor((lp_no_fee - lp_out) * protocol_fee)`,
/// where `lp_no_fee` is what the same deposit would mint with no swap fee at
/// all. A first deposit, or a pool with no protocol fee, mints none; and at
/// most the suppressed LP goes to the protocol.
pub proof fn law_deposit_protocol_lp_is_protocol_share_of_suppressed_lp(
    pool: Pool,
    now: u64,
    amounts: Seq<u64>,
    supply: u64,
)
    requires
        spec_deposit_quote(pool, now, amounts, supply) is Some,
    ensures
        ({
            let (lp_out, protocol_lp) = spec_deposit_quote(pool, now, amounts, supply)->0;
            let amp = pool_amp(pool, now);
            let rs = pool.reserves_view();
            let th = default_threshold();
            let current = spec_calc_invariant(amp, rs, th)->0;
            let lp_no_fee = spec_pool_token_out_no_fee(amp, rs, amounts, supply, current, th);
            &&& (supply == 0 || pool.protocol_fee == 0) ==> protocol_lp == 0
            &&& (supply > 0 && pool.protocol_fee > 0) ==> {
                &&& lp_no_fee is Some
                &&& lp_out == spec_pool_token_out_given_exact_tokens_in(
                    amp,
                    rs,
                    amounts,
                    supply,
                    current,
                    pool.swap_fee,
                    th,
                )->0
                &&& protocol_lp as int == ((if lp_no_fee->0 >= lp_out {
                    lp_no_fee->0 - lp_out
                } else {
                    0
                }) * pool.protocol_fee) / (crate::math::fixed_math::ONE as int)
                &&& pool.protocol_fee <= crate::math::fixed_math::ONE ==> protocol_lp as int <= (
                if lp_no_fee->0 >= lp_out {
                    lp_no_fee->0 - lp_out
                } else {
                    0
                })
            }
        }),
{
    if supply > 0 && pool.protocol_fee > 0 {
        let (lp_out, protocol_lp) = spec_deposit_quote(pool, now, amounts, supply)->0;
        let amp = pool_amp(pool, now);
        let rs = pool.reserves_view();
        let th = default_threshold();
        let current = spec_calc_invariant(amp, rs, th)->0;
        let nf = spec_pool_token_out_no_fee(amp, rs, amounts, supply, current, th)->0;
        let sup: u64 = if nf >= lp_out {
            (nf - lp_out) as u64
        } else {
            0u64
        };
        if pool.protocol_fee <= crate::math::fixed_math::ONE {
            super::fee::lemma_share_le_amount(sup, pool.protocol_fee);
        }
    }
}


/// Law: a first deposit (no LP outstanding) mints exactly the invariant of
/// the deposited amounts, with no protocol LP.
pub proof fn law_first_deposit_mints_the_invariant(pool: Pool, now: u64, amounts: Seq<u64>)
    requires
        spec_deposit_quote(pool, now, amounts, 0) is Some,
    ensures
        spec_calc_invariant(pool_amp(pool, now), amounts, default_threshold()) is Some,
        spec_deposit_quote(pool, now, amounts, 0) == Some(
            (spec_calc_invariant(pool_amp(pool, now), amounts, default_threshold())->0, 0u64),
        ),
        (spec_deposit_quote(pool, now, amounts, 0)->0).0 > 0,
{
}

} // verus!
