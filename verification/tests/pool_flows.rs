//! End-to-end pool flows, driven through the library's decisions in the
//! order the contract entrypoints take them: plan, move tokens, settle.
//! Token balances are simulated; a token may charge a transfer fee.

use soroban_sdk::Env;
use spreadless::liquidity_pool::contract::{DepositPlan, SwapPlan};
use spreadless::liquidity_pool::{Error, LiquidityPool};
use spreadless::pool::scaling::INTERNAL_DECIMALS;
use spreadless::pool::state::Pool;
use spreadless::router::{Error as RouterError, SpreadlessRouter};

const UNIT: i128 = 1_000_000_000_000; // 1e12 raw of a 7-decimal token

const USER: usize = 0;
const BENEFICIARY: usize = 1;
const OTHER: usize = 2;

struct Sim {
    e: Env,
    pool: Pool,
    now: u64,
    /// Raw token balances: `held[account][token]`.
    held: Vec<[i128; 2]>,
    /// The pool contract's own raw token balances.
    pool_held: [i128; 2],
    /// LP share balances per account.
    lp: Vec<i128>,
    supply: i128,
    /// Transfer fee of each token, in basis points of the amount sent.
    fee_bps: [i128; 2],
}

impl Sim {
    fn new(protocol_fee: u64, token_cap: i128) -> Sim {
        Sim::with_fees(100_000, protocol_fee, token_cap)
    }

    fn with_fees(swap_fee: u64, protocol_fee: u64, token_cap: i128) -> Sim {
        let t = LiquidityPool::init_token(true, 7, token_cap).unwrap();
        let pool = LiquidityPool::new_pool(vec![t, t], 100, swap_fee, protocol_fee);
        Sim {
            e: Env::default(),
            pool,
            now: 0,
            held: vec![[UNIT, UNIT], [0, 0], [0, 0]],
            pool_held: [0, 0],
            lp: vec![0, 0, 0],
            supply: 0,
            fee_bps: [0, 0],
        }
    }

    /// A copy of the whole state, for work that only lands if it all
    /// succeeds (a transaction).
    fn snapshot(&self) -> Sim {
        Sim {
            e: self.e.clone(),
            pool: Pool {
                tokens: self.pool.tokens.clone(),
                amp_initial_factor: self.pool.amp_initial_factor,
                amp_target_factor: self.pool.amp_target_factor,
                ramp_start_ts: self.pool.ramp_start_ts,
                ramp_stop_ts: self.pool.ramp_stop_ts,
                swap_fee: self.pool.swap_fee,
                protocol_fee: self.pool.protocol_fee,
            },
            now: self.now,
            held: self.held.clone(),
            pool_held: self.pool_held,
            lp: self.lp.clone(),
            supply: self.supply,
            fee_bps: self.fee_bps,
        }
    }

    /// The pool of the integration fixture: 0.3% swap fee, 10% protocol
    /// fee, caps of 1e10 raw, and 2e9 raw of each token held by the user.
    fn fixture() -> Sim {
        let mut s = Sim::with_fees(3_000_000, 100_000_000, 10_000_000_000);
        s.held[USER] = [2_000_000_000, 2_000_000_000];
        s
    }

    /// Deposit and everything after it, landing only when it all succeeds.
    fn atomically<T>(&mut self, f: impl FnOnce(&mut Sim) -> Result<T, ()>) -> Result<T, ()> {
        let mut stage = self.snapshot();
        let r = f(&mut stage)?;
        *self = stage;
        Ok(r)
    }

    fn setup(protocol_fee: u64) -> Sim {
        Sim::new(protocol_fee, 10_000_000_000_000_000)
    }

    /// Move `amount` of token `k` into the pool; the balance change the pool
    /// observes, checked by the library.
    fn pull(&mut self, k: usize, from: usize, amount: i128) -> Result<u64, Error> {
        if amount == 0 {
            return Ok(0);
        }
        let before = self.pool_held[k];
        let fee = amount * self.fee_bps[k] / 10_000;
        self.held[from][k] -= amount;
        self.pool_held[k] += amount - fee;
        LiquidityPool::inbound_delta(&self.pool.tokens[k], before, self.pool_held[k], amount)
    }

    /// Move `amount` of token `k` out of the pool.
    fn push(&mut self, k: usize, to: usize, amount: i128) -> Result<u64, Error> {
        if amount == 0 {
            return Ok(0);
        }
        let before = self.pool_held[k];
        let fee = amount * self.fee_bps[k] / 10_000;
        self.pool_held[k] -= amount;
        self.held[to][k] += amount - fee;
        LiquidityPool::outbound_delta(&self.pool.tokens[k], before, self.pool_held[k], amount)
    }

    fn deposit(&mut self, to: usize, amounts: &[i128], min_lp_out: i128) -> Result<i128, Error> {
        let plan: DepositPlan = LiquidityPool::plan_deposit(
            &self.e,
            &self.pool,
            self.now,
            amounts,
            self.supply,
            min_lp_out,
        )?;
        for k in 0..self.pool.tokens.len() {
            if plan.amounts[k] > 0 {
                let received = self.pull(k, to, plan.transfers[k])?;
                LiquidityPool::credit_reserve(&mut self.pool, k, received)?;
            }
        }
        self.lp[to] += plan.lp_out as i128;
        self.lp[BENEFICIARY] += plan.protocol_lp as i128;
        self.supply += plan.lp_out as i128 + plan.protocol_lp as i128;
        Ok(plan.lp_out as i128)
    }

    fn withdraw(&mut self, to: usize, lp_amount: i128, mins: &[i128]) -> Result<Vec<i128>, Error> {
        let (supply, lp) =
            LiquidityPool::check_withdraw(self.pool.tokens.len(), mins.len(), lp_amount, self.supply)?;
        self.lp[to] -= lp_amount;
        self.supply -= lp_amount;
        let mut outs = Vec::new();
        for k in 0..self.pool.tokens.len() {
            let (_, out_raw) = LiquidityPool::withdraw_output(&self.pool.tokens[k], lp, supply, mins[k])?;
            if out_raw > 0 {
                let sent = self.push(k, to, out_raw)?;
                LiquidityPool::debit_reserve(&mut self.pool, k, sent)?;
            }
            outs.push(out_raw);
        }
        Ok(outs)
    }

    fn withdraw_one_token(
        &mut self,
        to: usize,
        lp_amount: i128,
        token: Option<usize>,
        min_out: i128,
    ) -> Result<i128, Error> {
        let plan = LiquidityPool::plan_withdraw_one_token(
            &self.e,
            &self.pool,
            self.now,
            token,
            lp_amount,
            self.supply,
            min_out,
        )?;
        self.lp[to] -= lp_amount;
        self.supply -= lp_amount;
        let j = plan.index;
        let (out_raw, protocol_raw) =
            LiquidityPool::prepare_payout(&self.pool, j, plan.net_out, plan.protocol)?;
        let sent = self.push(j, to, out_raw)?;
        let sent_protocol = self.push(j, BENEFICIARY, protocol_raw)?;
        LiquidityPool::debit_reserve(&mut self.pool, j, sent)?;
        LiquidityPool::debit_reserve(&mut self.pool, j, sent_protocol)?;
        assert_eq!(out_raw, plan.returned);
        Ok(out_raw)
    }

    fn commit(&mut self, to: usize, i: usize, j: usize, plan: &SwapPlan) -> Result<(), Error> {
        let (out_raw, protocol_raw) =
            LiquidityPool::prepare_payout(&self.pool, j, plan.net_out, plan.protocol)?;
        let received = self.pull(i, to, plan.in_raw)?;
        let sent = self.push(j, to, out_raw)?;
        let sent_protocol = self.push(j, BENEFICIARY, protocol_raw)?;
        LiquidityPool::settle_swap(&mut self.pool, i, j, received, sent, sent_protocol)
    }

    fn swap_exact_in(
        &mut self,
        to: usize,
        token_in: Option<usize>,
        token_out: Option<usize>,
        amount_in: i128,
        min_out: i128,
    ) -> Result<i128, Error> {
        let (i, j) = LiquidityPool::swap_indices(token_in, token_out)?;
        let plan = LiquidityPool::plan_swap_exact_in(&self.e, &self.pool, self.now, i, j, amount_in, min_out)?;
        self.commit(to, i, j, &plan)?;
        Ok(plan.returned)
    }

    fn swap_exact_out(
        &mut self,
        to: usize,
        token_in: Option<usize>,
        token_out: Option<usize>,
        amount_out: i128,
        max_in: i128,
    ) -> Result<i128, Error> {
        let (i, j) = LiquidityPool::swap_indices(token_in, token_out)?;
        let plan =
            LiquidityPool::plan_swap_exact_out(&self.e, &self.pool, self.now, i, j, amount_out, max_in)?;
        self.commit(to, i, j, &plan)?;
        Ok(plan.returned)
    }

    fn reserves(&self) -> Vec<i128> {
        LiquidityPool::reserves_raw(&self.pool)
    }

    fn assert_pool_balances_match_reserves(&self) {
        let r = self.reserves();
        assert_eq!(self.pool_held[0], r[0]);
        assert_eq!(self.pool_held[1], r[1]);
    }
}

#[test]
fn deposit_then_full_withdraw_is_exact_roundtrip() {
    let mut s = Sim::setup(0);
    let lp = s.deposit(USER, &[UNIT, UNIT], 0).unwrap();
    assert!(lp > 0);
    assert_eq!(s.lp[USER], lp);
    assert_eq!(s.supply, lp);
    assert_eq!(s.reserves(), vec![UNIT, UNIT]);
    assert_eq!(s.pool_held[0], UNIT);
    assert_eq!(s.held[USER][0], 0);

    let out = s.withdraw(USER, lp, &[0, 0]).unwrap();
    assert_eq!(out, vec![UNIT, UNIT]);
    assert_eq!(s.supply, 0);
    assert_eq!(s.reserves(), vec![0, 0]);
    assert_eq!(s.held[USER][0], UNIT);
    assert_eq!(s.held[USER][1], UNIT);
}

#[test]
fn two_balanced_deposits_accumulate_then_full_withdraw() {
    let mut s = Sim::setup(0);
    let lp1 = s.deposit(USER, &[600_000_000_000, 600_000_000_000], 0).unwrap();
    s.held[USER][0] += 400_000_000_000;
    s.held[USER][1] += 400_000_000_000;
    let lp2 = s.deposit(USER, &[400_000_000_000, 400_000_000_000], 0).unwrap();

    assert!(lp2 > 0);
    assert_eq!(s.supply, lp1 + lp2);
    assert_eq!(s.lp[USER], lp1 + lp2);
    assert_eq!(s.reserves(), vec![UNIT, UNIT]);

    let out = s.withdraw(USER, lp1 + lp2, &[0, 0]).unwrap();
    assert_eq!(out, vec![UNIT, UNIT]);
    assert_eq!(s.supply, 0);
}

#[test]
fn single_sided_deposit_mints_lp() {
    let mut s = Sim::setup(0);
    s.deposit(USER, &[500_000_000_000, 500_000_000_000], 0).unwrap();
    let lp2 = s.deposit(USER, &[500_000_000_000, 0], 0).unwrap();
    assert!(lp2 > 0);
    assert_eq!(s.reserves(), vec![UNIT, 500_000_000_000]);
}

#[test]
#[should_panic]
fn deposit_below_min_lp_out_reverts() {
    let mut s = Sim::setup(0);
    s.deposit(USER, &[UNIT, UNIT], i128::MAX).unwrap();
}

#[test]
#[should_panic]
fn deposit_rejects_fee_on_transfer_token() {
    let mut s = Sim::setup(0);
    s.fee_bps[0] = 1_000;
    s.deposit(USER, &[UNIT, UNIT], 0).unwrap();
}

#[test]
#[should_panic]
fn swap_rejects_fee_on_transfer_input() {
    let mut s = Sim::setup(0);
    s.deposit(USER, &[UNIT, UNIT], 0).unwrap();
    s.held[USER][0] += 1_000_000_000;
    s.fee_bps[0] = 1_000;
    s.swap_exact_in(USER, Some(0), Some(1), 1_000_000_000, 0).unwrap();
}

#[test]
fn swap_exact_in_works() {
    let mut s = Sim::setup(0);
    s.deposit(USER, &[UNIT, UNIT], 0).unwrap();
    s.held[USER][0] += 1_000_000_000;
    let a_before = s.held[USER][0];
    let b_before = s.held[USER][1];

    let amount_in = 1_000_000_000i128;
    let out = s.swap_exact_in(USER, Some(0), Some(1), amount_in, 0).unwrap();

    assert!(out > 0);
    assert!(out < amount_in);
    assert!(out > amount_in * 99 / 100);
    assert_eq!(s.held[USER][0], a_before - amount_in);
    assert_eq!(s.held[USER][1], b_before + out);

    let r = s.reserves();
    assert_eq!(r[0], UNIT + amount_in);
    assert!(r[1] < UNIT);
    s.assert_pool_balances_match_reserves();
}

#[test]
fn swap_exact_out_works() {
    let mut s = Sim::setup(0);
    s.deposit(USER, &[UNIT, UNIT], 0).unwrap();
    s.held[USER][0] += 2_000_000_000;
    let a_before = s.held[USER][0];
    let b_before = s.held[USER][1];

    let amount_out = 1_000_000_000i128;
    let spent = s.swap_exact_out(USER, Some(0), Some(1), amount_out, i128::MAX).unwrap();

    assert_eq!(s.held[USER][1], b_before + amount_out);
    assert_eq!(s.held[USER][0], a_before - spent);
    assert!(spent > amount_out);
    assert!(spent < amount_out * 101 / 100);
    s.assert_pool_balances_match_reserves();
}

#[test]
#[should_panic]
fn swap_exact_out_respects_max_in() {
    let mut s = Sim::setup(0);
    s.deposit(USER, &[UNIT, UNIT], 0).unwrap();
    s.held[USER][0] += 1_000_000_000;
    s.swap_exact_out(USER, Some(0), Some(1), 1_000_000_000, 1_000_000_000).unwrap();
}

#[test]
#[should_panic]
fn swap_same_token_reverts() {
    let mut s = Sim::setup(0);
    s.deposit(USER, &[UNIT, UNIT], 0).unwrap();
    s.swap_exact_in(USER, Some(0), Some(0), 1_000_000, 0).unwrap();
}

#[test]
fn swap_routes_protocol_fee_to_beneficiary() {
    let mut s = Sim::setup(500_000_000);
    s.deposit(USER, &[UNIT, UNIT], 0).unwrap();
    s.held[USER][0] += 100_000_000_000;
    assert_eq!(s.held[BENEFICIARY][1], 0);
    s.swap_exact_in(USER, Some(0), Some(1), 100_000_000_000, 0).unwrap();
    assert!(s.held[BENEFICIARY][1] > 0);
    s.assert_pool_balances_match_reserves();
}

#[test]
fn amp_ramp_interpolates_over_time() {
    let mut s = Sim::setup(0);
    assert_eq!(LiquidityPool::get_amp(&s.pool, s.now), 100);
    let start = s.now;
    LiquidityPool::set_amp_ramp(&mut s.pool, 200, 1000, start).unwrap();
    assert_eq!(LiquidityPool::get_amp(&s.pool, start), 100);
    assert_eq!(LiquidityPool::get_amp(&s.pool, start + 500), 150);
    assert_eq!(LiquidityPool::get_amp(&s.pool, start + 1000), 200);
}

#[test]
#[should_panic]
fn set_amp_ramp_rejects_invalid_factor() {
    let mut s = Sim::setup(0);
    LiquidityPool::set_amp_ramp(&mut s.pool, 0, 0, s.now).unwrap();
}

#[test]
fn set_swap_fee_changes_output() {
    let mut s = Sim::setup(0);
    s.deposit(USER, &[UNIT, UNIT], 0).unwrap();
    s.held[USER][0] += 2_000_000_000;
    let out_low_fee = s.swap_exact_in(USER, Some(0), Some(1), 1_000_000_000, 0).unwrap();
    LiquidityPool::set_swap_fee(&mut s.pool, 10_000_000).unwrap();
    let out_high_fee = s.swap_exact_in(USER, Some(0), Some(1), 1_000_000_000, 0).unwrap();
    assert!(out_high_fee < out_low_fee);
}

#[test]
#[should_panic]
fn set_swap_fee_rejects_out_of_range() {
    let mut s = Sim::setup(0);
    LiquidityPool::set_swap_fee(&mut s.pool, 10_000_001).unwrap();
}

#[test]
#[should_panic]
fn first_deposit_must_be_balanced_reverts() {
    let mut s = Sim::setup(0);
    s.deposit(USER, &[UNIT, 0], 0).unwrap();
}

#[test]
#[should_panic]
fn zero_deposit_reverts() {
    let mut s = Sim::setup(0);
    s.deposit(USER, &[UNIT, UNIT], 0).unwrap();
    s.deposit(USER, &[0, 0], 0).unwrap();
}

#[test]
#[should_panic]
fn deposit_wrong_length_reverts() {
    let mut s = Sim::setup(0);
    s.deposit(USER, &[UNIT, UNIT, UNIT], 0).unwrap();
}

#[test]
#[should_panic]
fn deposit_over_token_cap_reverts() {
    let mut s = Sim::new(0, 500_000_000_000);
    s.deposit(USER, &[UNIT, UNIT], 0).unwrap();
}

#[test]
fn partial_withdraw_is_proportional() {
    let mut s = Sim::setup(0);
    let lp = s.deposit(USER, &[UNIT, UNIT], 0).unwrap();
    let half = lp / 2;
    let a_before = s.held[USER][0];
    let out = s.withdraw(USER, half, &[0, 0]).unwrap();

    let (out_a, out_b) = (out[0], out[1]);
    assert!(out_a > 0 && out_a == out_b);
    assert!(2 * out_a >= UNIT - 2 && 2 * out_a <= UNIT);
    assert_eq!(s.supply, lp - half);
    assert_eq!(s.reserves(), vec![UNIT - out_a, UNIT - out_b]);
    assert_eq!(s.held[USER][0], a_before + out_a);
    s.assert_pool_balances_match_reserves();
}

#[test]
fn withdraw_after_swap_keeps_reserves_matched_to_balances() {
    let mut s = Sim::setup(0);
    s.deposit(USER, &[UNIT, UNIT], 0).unwrap();
    s.held[USER][0] += 1_000_000_000;
    s.swap_exact_in(USER, Some(0), Some(1), 1_000_000_000, 0).unwrap();
    let lp = s.lp[USER];
    s.withdraw(USER, lp / 3, &[0, 0]).unwrap();
    s.assert_pool_balances_match_reserves();
}

#[test]
#[should_panic]
fn withdraw_below_min_out_reverts() {
    let mut s = Sim::setup(0);
    let lp = s.deposit(USER, &[UNIT, UNIT], 0).unwrap();
    s.withdraw(USER, lp, &[i128::MAX, i128::MAX]).unwrap();
}

#[test]
#[should_panic]
fn swap_exact_in_below_min_out_reverts() {
    let mut s = Sim::setup(0);
    s.deposit(USER, &[UNIT, UNIT], 0).unwrap();
    s.held[USER][0] += 1_000_000_000;
    s.swap_exact_in(USER, Some(0), Some(1), 1_000_000_000, i128::MAX).unwrap();
}

#[test]
#[should_panic]
fn swap_exact_in_zero_amount_reverts() {
    let mut s = Sim::setup(0);
    s.deposit(USER, &[UNIT, UNIT], 0).unwrap();
    s.swap_exact_in(USER, Some(0), Some(1), 0, 0).unwrap();
}

#[test]
#[should_panic]
fn swap_unknown_token_reverts() {
    let mut s = Sim::setup(0);
    s.deposit(USER, &[UNIT, UNIT], 0).unwrap();
    s.swap_exact_in(USER, None, Some(1), 1_000_000, 0).unwrap();
}

#[test]
fn no_protocol_fee_when_zero() {
    let mut s = Sim::setup(0);
    s.deposit(USER, &[UNIT, UNIT], 0).unwrap();
    s.held[USER][0] += 10_000_000_000;
    s.swap_exact_in(USER, Some(0), Some(1), 10_000_000_000, 0).unwrap();
    assert_eq!(s.held[BENEFICIARY][1], 0);
}

#[test]
#[should_panic]
fn set_protocol_fee_out_of_range_reverts() {
    let mut s = Sim::setup(0);
    LiquidityPool::set_protocol_fee(&mut s.pool, 1_000_000_001).unwrap();
}

#[test]
#[should_panic]
fn set_amp_ramp_rejects_too_large() {
    let mut s = Sim::setup(0);
    LiquidityPool::set_amp_ramp(&mut s.pool, 12_001, 0, s.now).unwrap();
}

#[test]
fn amp_ramp_down_after_up() {
    let mut s = Sim::setup(0);
    let start = s.now;
    LiquidityPool::set_amp_ramp(&mut s.pool, 200, 1000, start).unwrap();
    assert_eq!(LiquidityPool::get_amp(&s.pool, start + 1000), 200);

    let mid_start = start + 1000;
    LiquidityPool::set_amp_ramp(&mut s.pool, 150, 1000, mid_start).unwrap();
    assert_eq!(LiquidityPool::get_amp(&s.pool, mid_start), 200);
    assert_eq!(LiquidityPool::get_amp(&s.pool, mid_start + 500), 175);
    assert_eq!(LiquidityPool::get_amp(&s.pool, mid_start + 1000), 150);
}

#[test]
fn lp_token_decimals_is_nine() {
    assert_eq!(INTERNAL_DECIMALS, 9);
}

#[test]
fn proportional_withdraw_charges_no_protocol_fee() {
    let mut s = Sim::setup(500_000_000);
    let lp = s.deposit(USER, &[UNIT, UNIT], 0).unwrap();
    s.withdraw(USER, lp / 2, &[0, 0]).unwrap();
    assert_eq!(s.held[BENEFICIARY][0], 0);
    assert_eq!(s.held[BENEFICIARY][1], 0);
    assert_eq!(s.lp[BENEFICIARY], 0);
}

#[test]
fn existing_lp_keeps_principal_when_third_party_deposits() {
    fn recovered(protocol_fee: u64) -> i128 {
        let mut s = Sim::setup(protocol_fee);
        let lp_a = s.deposit(USER, &[UNIT, UNIT], 0).unwrap();
        s.held[OTHER][0] += 2 * UNIT;
        s.deposit(OTHER, &[2 * UNIT, 0], 0).unwrap();
        let out = s.withdraw(USER, lp_a, &[0, 0]).unwrap();
        out[0] + out[1]
    }

    let deposited = 2 * UNIT;
    let no_proto = recovered(0);
    let with_proto = recovered(500_000_000);
    assert!(no_proto > deposited);
    assert!(with_proto > deposited);
    assert!(with_proto <= no_proto);
}

#[test]
fn imbalanced_deposit_mints_protocol_lp_without_changing_user_lp() {
    let mut s0 = Sim::setup(0);
    s0.deposit(USER, &[500_000_000_000, 500_000_000_000], 0).unwrap();
    let user_lp_no_proto = s0.deposit(USER, &[500_000_000_000, 0], 0).unwrap();

    let mut s = Sim::setup(500_000_000);
    s.deposit(USER, &[500_000_000_000, 500_000_000_000], 0).unwrap();
    assert_eq!(s.lp[BENEFICIARY], 0);

    let user_lp = s.deposit(USER, &[500_000_000_000, 0], 0).unwrap();
    assert_eq!(user_lp, user_lp_no_proto);
    assert!(s.lp[BENEFICIARY] > 0);
}

#[test]
fn withdraw_one_token_reduces_only_selected_reserve() {
    let mut s = Sim::setup(0);
    let lp = s.deposit(USER, &[UNIT, UNIT], 0).unwrap();
    let burn = lp / 2;
    let out = s.withdraw_one_token(USER, burn, Some(0), 0).unwrap();

    assert!(out > 0);
    assert!(out < UNIT);
    assert_eq!(s.supply, lp - burn);
    assert_eq!(s.held[USER][0], out);
    assert_eq!(s.held[USER][1], 0);
    assert_eq!(s.reserves(), vec![UNIT - out, UNIT]);
    s.assert_pool_balances_match_reserves();
}

#[test]
fn withdraw_one_token_after_imbalance_uses_current_reserves() {
    let mut s = Sim::setup(0);
    let lp = s.deposit(USER, &[UNIT, UNIT], 0).unwrap();
    s.held[USER][0] += 100_000_000_000;
    s.swap_exact_in(USER, Some(0), Some(1), 100_000_000_000, 0).unwrap();

    let reserves_before = s.reserves();
    assert!(reserves_before[0] > UNIT);
    assert!(reserves_before[1] < UNIT);

    let burn = lp / 4;
    let user_a_before = s.held[USER][0];
    let user_b_before = s.held[USER][1];
    let out = s.withdraw_one_token(USER, burn, Some(1), 0).unwrap();
    let reserves_after = s.reserves();

    assert!(out > 0);
    assert_eq!(s.supply, lp - burn);
    assert_eq!(reserves_after[0], reserves_before[0]);
    assert_eq!(reserves_after[1], reserves_before[1] - out);
    assert_eq!(s.held[USER][0], user_a_before);
    assert_eq!(s.held[USER][1], user_b_before + out);
    s.assert_pool_balances_match_reserves();

    let mut balanced = Sim::setup(0);
    let balanced_lp = balanced.deposit(USER, &[UNIT, UNIT], 0).unwrap();
    let balanced_out = balanced.withdraw_one_token(USER, balanced_lp / 4, Some(1), 0).unwrap();
    assert!(out < balanced_out);
}

#[test]
#[should_panic]
fn withdraw_one_token_below_min_out_reverts() {
    let mut s = Sim::setup(0);
    let lp = s.deposit(USER, &[UNIT, UNIT], 0).unwrap();
    s.withdraw_one_token(USER, lp / 2, Some(0), i128::MAX).unwrap();
}

#[test]
#[should_panic]
fn withdraw_one_token_unknown_token_reverts() {
    let mut s = Sim::setup(0);
    let lp = s.deposit(USER, &[UNIT, UNIT], 0).unwrap();
    s.withdraw_one_token(USER, lp / 2, None, 0).unwrap();
}

#[test]
fn withdraw_one_token_routes_protocol_fee_to_beneficiary() {
    let mut s0 = Sim::setup(0);
    let lp0 = s0.deposit(USER, &[UNIT, UNIT], 0).unwrap();
    let out_no_proto = s0.withdraw_one_token(USER, lp0 / 2, Some(0), 0).unwrap();

    let mut s = Sim::setup(500_000_000);
    let lp = s.deposit(USER, &[UNIT, UNIT], 0).unwrap();
    assert_eq!(s.held[BENEFICIARY][0], 0);
    let out = s.withdraw_one_token(USER, lp / 2, Some(0), 0).unwrap();
    assert_eq!(out, out_no_proto);
    assert!(s.held[BENEFICIARY][0] > 0);
    s.assert_pool_balances_match_reserves();
}

// --- flows of the pool and router contracts ---

/// A routed exact-input swap over `hops` of `(pool_id, token_out)`: pool 0
/// is the only registered pool. Each hop's output is the next hop's input;
/// only the last hop applies `min_out`. It lands only if every hop does.
fn route(s: &mut Sim, token_in: usize, hops: &[(u32, usize)], amount_in: i128, min_out: i128)
    -> Result<i128, ()> {
    SpreadlessRouter::check_path(hops.len() as u32).map_err(|_: RouterError| ())?;
    s.atomically(|stage| {
        let mut token = token_in;
        let mut amount = amount_in;
        for (k, (pool_id, token_out)) in hops.iter().enumerate() {
            let registered = if *pool_id == 0 { Some(*pool_id) } else { None };
            SpreadlessRouter::registered_pool(registered).map_err(|_| ())?;
            let hop_min = SpreadlessRouter::hop_min_out(k as u32, hops.len() as u32, min_out);
            amount = stage
                .swap_exact_in(USER, Some(token), Some(*token_out), amount, hop_min)
                .map_err(|_| ())?;
            token = *token_out;
        }
        Ok(amount)
    })
}

#[test]
fn pool_constructor_exposes_configured_state() {
    assert_eq!(LiquidityPool::check_config(2, 2, 100, 3_000_000, 100_000_000), Ok(()));
    let s = Sim::fixture();
    assert_eq!(s.reserves(), vec![0, 0]);
    assert_eq!(LiquidityPool::get_amp(&s.pool, s.now), 100);
    assert_eq!(s.pool.swap_fee, 3_000_000);
    assert_eq!(s.pool.protocol_fee, 100_000_000);
    assert_eq!(INTERNAL_DECIMALS, 9);
}

#[test]
fn incomplete_first_deposit_is_rejected_atomically() {
    let mut s = Sim::fixture();
    let r = s.atomically(|st| st.deposit(USER, &[500_000_000, 0], 0).map_err(|_| ()));
    assert!(r.is_err());
    assert_eq!(s.reserves(), vec![0, 0]);
    assert_eq!(s.lp[USER], 0);
    assert_eq!(s.supply, 0);
}

#[test]
fn proportional_withdrawal_is_fee_free_and_rounds_down() {
    let mut s = Sim::fixture();
    let minted = s.deposit(USER, &[500_000_000, 500_000_000], 0).unwrap();
    let burn = minted / 3;
    let expected = 500_000_000i128 * burn / minted;

    let paid = s.withdraw(USER, burn, &[0, 0]).unwrap();

    assert_eq!(paid, vec![expected, expected]);
    assert_eq!(s.reserves(), vec![500_000_000 - expected; 2]);
    assert_eq!(s.lp[USER], minted - burn);
    assert_eq!(s.supply, minted - burn);
}

#[test]
fn exact_input_swap_updates_balances_and_reserves_by_returned_amount() {
    let mut s = Sim::fixture();
    s.deposit(USER, &[500_000_000, 500_000_000], 0).unwrap();
    let input_before = s.held[USER][0];
    let output_before = s.held[USER][1];
    let beneficiary_before = s.held[BENEFICIARY][1];

    let received = s.swap_exact_in(USER, Some(0), Some(1), 10_000_000, 0).unwrap();
    let reserves = s.reserves();

    assert!(received > 0);
    assert_eq!(s.held[USER][0], input_before - 10_000_000);
    assert_eq!(s.held[USER][1], output_before + received);
    assert_eq!(reserves[0], 510_000_000);
    assert_eq!(
        reserves[1] + s.held[USER][1] + s.held[BENEFICIARY][1],
        500_000_000 + output_before + beneficiary_before
    );
}

#[test]
fn swap_slippage_failure_is_atomic() {
    let mut s = Sim::fixture();
    s.deposit(USER, &[500_000_000, 500_000_000], 0).unwrap();
    let before = s.reserves();
    let r = s.atomically(|st| {
        st.swap_exact_in(USER, Some(0), Some(1), 10_000_000, i128::MAX).map_err(|_| ())
    });
    assert!(r.is_err());
    assert_eq!(s.reserves(), before);
}

#[test]
fn empty_route_is_rejected_without_spending_input() {
    let mut s = Sim::fixture();
    s.deposit(USER, &[500_000_000, 500_000_000], 0).unwrap();
    let before = s.held[USER][0];
    assert_eq!(SpreadlessRouter::check_path(0), Err(RouterError::EmptySwapPath));
    assert!(route(&mut s, 0, &[], 10_000_000, 0).is_err());
    assert_eq!(s.held[USER][0], before);
}

#[test]
fn unknown_later_pool_reverts_every_earlier_hop() {
    let mut s = Sim::fixture();
    s.deposit(USER, &[500_000_000, 500_000_000], 0).unwrap();
    let reserves_before = s.reserves();
    let input_before = s.held[USER][0];

    assert!(route(&mut s, 0, &[(0, 1), (999, 0)], 10_000_000, 0).is_err());
    assert_eq!(s.reserves(), reserves_before);
    assert_eq!(s.held[USER][0], input_before);

    // The same first hop alone goes through.
    assert!(route(&mut s, 0, &[(0, 1)], 10_000_000, 0).unwrap() > 0);
}

#[test]
fn router_rejects_unsorted_pool_tokens_without_consuming_an_id() {
    // Creating a pool checks its tokens before the router takes the next ID.
    fn create(next_pool_id: &mut u32, ordered: &[bool]) -> Result<u32, ()> {
        let mut tokens = Vec::new();
        for &o in ordered {
            tokens.push(LiquidityPool::init_token(o, 7, 10_000_000_000).map_err(|_| ())?);
        }
        let _pool = LiquidityPool::new_pool(tokens, 100, 3_000_000, 100_000_000);
        let id = *next_pool_id;
        *next_pool_id = SpreadlessRouter::next_id(id).map_err(|_| ())?;
        Ok(id)
    }
    let mut next_pool_id = 0u32;
    assert_eq!(
        LiquidityPool::init_token(false, 7, 10_000_000_000).err(),
        Some(Error::TokensNotSorted)
    );
    assert!(create(&mut next_pool_id, &[true, false]).is_err());
    assert_eq!(next_pool_id, 0);
    assert_eq!(create(&mut next_pool_id, &[true, true]), Ok(0));
    assert_eq!(next_pool_id, 1);
}
