use soroban_sdk::Env;
use spreadless::liquidity_pool::{Error, LiquidityPool};
use spreadless::math::MAX_SAFE_BALANCE;
use spreadless::pool::quote::{swap_exact_in, swap_exact_out};
use spreadless::pool::state::{Pool, PoolToken};

const ONE_MILLION_TOKENS: u64 = 1_000_000_000_000_000;

fn token(decimals: u32, scaling_factor: u64, scaling_up: bool, reserve: u64) -> PoolToken {
    PoolToken { decimals, scaling_factor, scaling_up, reserve, max_cap: MAX_SAFE_BALANCE }
}

fn pool(reserves: &[u64], swap_fee: u64, protocol_fee: u64) -> Pool {
    Pool {
        tokens: reserves.iter().map(|r| token(7, 100, true, *r)).collect(),
        amp_initial_factor: 100,
        amp_target_factor: 100,
        ramp_start_ts: 0,
        ramp_stop_ts: 0,
        swap_fee,
        protocol_fee,
    }
}

#[test]
fn constructor_checks_run_in_order() {
    assert_eq!(LiquidityPool::check_config(1, 1, 100, 100_000, 0), Err(Error::InvalidTokenCount));
    assert_eq!(LiquidityPool::check_config(6, 6, 100, 100_000, 0), Err(Error::InvalidTokenCount));
    assert_eq!(LiquidityPool::check_config(2, 3, 0, 100_000, 0), Err(Error::CapsLengthMismatch));
    assert_eq!(LiquidityPool::check_config(2, 2, 0, 100_000, 0), Err(Error::InvalidAmpFactor));
    assert_eq!(LiquidityPool::check_config(2, 2, 12_001, 100_000, 0), Err(Error::InvalidAmpFactor));
    assert_eq!(LiquidityPool::check_config(2, 2, 100, 9_999, 0), Err(Error::InvalidSwapFee));
    assert_eq!(LiquidityPool::check_config(2, 2, 100, 10_000_001, 0), Err(Error::InvalidSwapFee));
    assert_eq!(
        LiquidityPool::check_config(2, 2, 100, 100_000, 1_000_000_001),
        Err(Error::InvalidProtocolFee)
    );
    assert_eq!(LiquidityPool::check_config(5, 5, 12_000, 10_000_000, 1_000_000_000), Ok(()));
}

#[test]
fn init_token_scales_caps_and_rejects_bad_tokens() {
    assert!(matches!(LiquidityPool::init_token(false, 7, 1_000), Err(Error::TokensNotSorted)));
    assert!(matches!(LiquidityPool::init_token(true, 29, 1_000), Err(Error::InvalidDecimals)));
    assert!(matches!(LiquidityPool::init_token(true, 7, -1), Err(Error::InvalidCap)));
    let t = LiquidityPool::init_token(true, 7, 1_000).unwrap();
    assert_eq!((t.scaling_factor, t.scaling_up, t.reserve, t.max_cap), (100, true, 0, 100_000));
    let t = LiquidityPool::init_token(true, 18, 5_000_000_000_000_000_000).unwrap();
    assert_eq!((t.scaling_factor, t.scaling_up, t.max_cap), (1_000_000_000, false, 5_000_000_000));
}

#[test]
fn deposit_plan_errors() {
    let e = Env::default();
    let p = pool(&[0, 0], 100_000, 0);
    assert!(matches!(LiquidityPool::plan_deposit(&e, &p, 0, &[1], 0, 0), Err(Error::AmountsLengthMismatch)));
    assert!(matches!(LiquidityPool::plan_deposit(&e, &p, 0, &[1, -1], 0, 0), Err(Error::InvalidAmount)));
    assert!(matches!(LiquidityPool::plan_deposit(&e, &p, 0, &[0, 0], 0, 0), Err(Error::ZeroDeposit)));
    assert!(matches!(
        LiquidityPool::plan_deposit(&e, &p, 0, &[1_000_000, 0], 0, 0),
        Err(Error::FirstDepositNotFull)
    ));
    assert!(matches!(
        LiquidityPool::plan_deposit(&e, &p, 0, &[1_000_000, 1_000_000], 0, i128::MAX),
        Err(Error::SlippageExceeded)
    ));
}

#[test]
fn first_deposit_plan_mints_the_invariant() {
    let e = Env::default();
    let p = pool(&[0, 0], 100_000, 0);
    // 7-decimal tokens: 1e7 raw == 1 token == 1e9 internal.
    let plan = LiquidityPool::plan_deposit(&e, &p, 0, &[10_000_000, 10_000_000], 0, 0).unwrap();
    assert_eq!(plan.lp_out, 2_000_000_000);
    assert_eq!(&plan.amounts[..2], &[1_000_000_000, 1_000_000_000]);
    assert_eq!(&plan.transfers[..2], &[10_000_000, 10_000_000]);
}

#[test]
fn later_deposit_needs_a_u64_supply() {
    let e = Env::default();
    let p = pool(&[1_000_000_000, 1_000_000_000], 100_000, 0);
    assert!(matches!(
        LiquidityPool::plan_deposit(&e, &p, 0, &[10_000_000, 10_000_000], -5, 0),
        Err(Error::BalanceTooLarge)
    ));
    let plan = LiquidityPool::plan_deposit(&e, &p, 0, &[10_000_000, 10_000_000], 2_000_000_000, 0).unwrap();
    assert_eq!(plan.lp_out, 2_000_000_000);
}

#[test]
fn reserve_updates_respect_caps() {
    let mut p = pool(&[10, 20], 100_000, 0);
    p.tokens[0].max_cap = 15;
    assert_eq!(LiquidityPool::credit_reserve(&mut p, 0, 6), Err(Error::CapExceeded));
    assert_eq!(p.tokens[0].reserve, 10);
    assert_eq!(LiquidityPool::credit_reserve(&mut p, 0, 5), Ok(()));
    assert_eq!(p.tokens[0].reserve, 15);
    assert_eq!(LiquidityPool::debit_reserve(&mut p, 1, 21), Err(Error::MathError));
    assert_eq!(LiquidityPool::debit_reserve(&mut p, 1, 20), Ok(()));
    assert_eq!(p.tokens[1].reserve, 0);
}

#[test]
fn withdraw_checks_and_full_exit() {
    assert_eq!(LiquidityPool::check_withdraw(2, 3, 1, 1), Err(Error::AmountsLengthMismatch));
    assert_eq!(LiquidityPool::check_withdraw(2, 2, 0, 1), Err(Error::InvalidAmount));
    assert_eq!(LiquidityPool::check_withdraw(2, 2, 1, 0), Err(Error::MathError));
    assert_eq!(LiquidityPool::check_withdraw(2, 2, u64::MAX as i128 + 1, 10), Err(Error::BalanceTooLarge));
    assert_eq!(LiquidityPool::check_withdraw(2, 2, 5, 10), Ok((10, 5)));

    let t = token(7, 100, true, 1_234_567_899);
    // Burning the whole supply pays out the whole reserve (in raw units, rounded down).
    assert_eq!(LiquidityPool::withdraw_output(&t, 77, 77, 0), Ok((1_234_567_899, 12_345_678)));
    assert_eq!(LiquidityPool::withdraw_output(&t, 1, 3, 0), Ok((411_522_633, 4_115_226)));
    assert_eq!(LiquidityPool::withdraw_output(&t, 1, 3, 4_115_227), Err(Error::SlippageExceeded));
    assert_eq!(LiquidityPool::withdraw_output(&t, 1, 0, 0), Err(Error::MathError));
}

#[test]
fn balance_deltas_must_match_transfers() {
    let t = token(7, 100, true, 0);
    assert_eq!(LiquidityPool::inbound_delta(&t, 100, 150, 50), Ok(5_000));
    assert_eq!(LiquidityPool::inbound_delta(&t, 100, 149, 50), Err(Error::TransferAmountMismatch));
    assert_eq!(LiquidityPool::outbound_delta(&t, 150, 100, 50), Ok(5_000));
    assert_eq!(LiquidityPool::outbound_delta(&t, 150, 101, 50), Err(Error::TransferAmountMismatch));
    assert_eq!(LiquidityPool::inbound_delta(&t, i128::MIN, 1, 1), Err(Error::TransferAmountMismatch));
    assert_eq!(LiquidityPool::raw_delta_to_internal(&t, -1), Err(Error::InvalidAmount));
    assert_eq!(LiquidityPool::unwrap_u64(-1), Err(Error::BalanceTooLarge));
    assert_eq!(LiquidityPool::unwrap_u64(7), Ok(7));
}

#[test]
fn swap_index_resolution() {
    assert_eq!(LiquidityPool::swap_indices(None, Some(1)), Err(Error::UnknownToken));
    assert_eq!(LiquidityPool::swap_indices(Some(0), None), Err(Error::UnknownToken));
    assert_eq!(LiquidityPool::swap_indices(Some(1), Some(1)), Err(Error::SameToken));
    assert_eq!(LiquidityPool::swap_indices(Some(1), Some(0)), Ok((1, 0)));
}

#[test]
fn swap_plans_match_the_quotes_and_settle_reserves() {
    let e = Env::default();
    e.cost_estimate().budget().reset_unlimited();
    let mut p = pool(&[ONE_MILLION_TOKENS, ONE_MILLION_TOKENS], 3_000_000, 500_000_000);
    p.tokens[0].scaling_factor = 1;
    p.tokens[1].scaling_factor = 1;
    let amount_in = ONE_MILLION_TOKENS / 100;

    let quote = swap_exact_in(&e, &p, 0, 0, 1, amount_in).unwrap();
    let plan = LiquidityPool::plan_swap_exact_in(&e, &p, 0, 0, 1, amount_in as i128, 0).unwrap();
    assert_eq!((plan.net_out, plan.protocol), (quote.net_out, quote.protocol));
    assert_eq!(plan.in_raw, amount_in as i128);
    assert_eq!(plan.returned, quote.net_out as i128);
    assert!(matches!(
        LiquidityPool::plan_swap_exact_in(&e, &p, 0, 0, 1, amount_in as i128, plan.returned + 1),
        Err(Error::SlippageExceeded)
    ));
    assert!(matches!(LiquidityPool::plan_swap_exact_in(&e, &p, 0, 0, 1, 0, 0), Err(Error::InvalidAmount)));

    let out_quote = swap_exact_out(&e, &p, 0, 0, 1, quote.net_out).unwrap();
    let out_plan = LiquidityPool::plan_swap_exact_out(&e, &p, 0, 0, 1, quote.net_out as i128, i128::MAX).unwrap();
    assert_eq!((out_plan.in_raw as u64, out_plan.protocol), (out_quote.amount_in, out_quote.protocol));
    assert!(matches!(
        LiquidityPool::plan_swap_exact_out(&e, &p, 0, 0, 1, quote.net_out as i128, out_plan.in_raw - 1),
        Err(Error::SlippageExceeded)
    ));

    let (out_raw, protocol_raw) = LiquidityPool::prepare_payout(&p, 1, plan.net_out, plan.protocol).unwrap();
    assert_eq!((out_raw, protocol_raw), (plan.net_out as i128, plan.protocol as i128));
    assert_eq!(LiquidityPool::prepare_payout(&p, 1, ONE_MILLION_TOKENS, 1), Err(Error::MathError));

    assert_eq!(LiquidityPool::settle_swap(&mut p, 0, 1, amount_in, plan.net_out, plan.protocol), Ok(()));
    assert_eq!(p.tokens[0].reserve, ONE_MILLION_TOKENS + amount_in);
    assert_eq!(p.tokens[1].reserve, ONE_MILLION_TOKENS - plan.net_out - plan.protocol);
}

#[test]
fn admin_updates() {
    let mut p = pool(&[1_000_000_000, 2_000_000_000], 100_000, 0);
    assert_eq!(LiquidityPool::get_amp(&p, 50), 100);
    assert_eq!(LiquidityPool::set_amp_ramp(&mut p, 12_001, 100, 50), Err(Error::InvalidAmpFactor));
    assert_eq!(LiquidityPool::set_amp_ramp(&mut p, 200, 1_000, 500), Ok(()));
    // The ramp starts where the factor was, then interpolates.
    assert_eq!(LiquidityPool::get_amp(&p, 500), 100);
    assert_eq!(LiquidityPool::get_amp(&p, 1_000), 150);
    assert_eq!(LiquidityPool::get_amp(&p, 1_500), 200);
    // Ramping back down mid-way starts from the interpolated factor.
    assert_eq!(LiquidityPool::set_amp_ramp(&mut p, 150, 1_000, 1_000), Ok(()));
    assert_eq!(LiquidityPool::get_amp(&p, 1_000), 150);
    // A zero duration applies the target at once.
    assert_eq!(LiquidityPool::set_amp_ramp(&mut p, 175, 0, 2_000), Ok(()));
    assert_eq!(LiquidityPool::get_amp(&p, 2_000), 175);

    assert_eq!(LiquidityPool::set_swap_fee(&mut p, 10_000_001), Err(Error::InvalidSwapFee));
    assert_eq!(LiquidityPool::set_swap_fee(&mut p, 10_000_000), Ok(()));
    assert_eq!(p.swap_fee, 10_000_000);
    assert_eq!(LiquidityPool::set_protocol_fee(&mut p, 1_000_000_001), Err(Error::InvalidProtocolFee));
    assert_eq!(LiquidityPool::set_protocol_fee(&mut p, 1_000_000_000), Ok(()));
    assert_eq!(p.protocol_fee, 1_000_000_000);

    assert_eq!(LiquidityPool::set_token_cap(&mut p, None, 100), Err(Error::UnknownToken));
    assert_eq!(LiquidityPool::set_token_cap(&mut p, Some(1), 1), Err(Error::InvalidCap));
    assert_eq!(LiquidityPool::set_token_cap(&mut p, Some(1), 30_000_000), Ok(()));
    assert_eq!(p.tokens[1].max_cap, 3_000_000_000);

    assert_eq!(LiquidityPool::reserves_raw(&p), vec![10_000_000, 20_000_000]);
}
