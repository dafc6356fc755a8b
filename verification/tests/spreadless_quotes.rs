use soroban_sdk::Env;
use spreadless::math::MAX_SAFE_BALANCE;
use spreadless::pool::normalized::NormalizedAmounts;
use spreadless::pool::quote::{
    deposit_exact_tokens_in, swap_exact_in, swap_exact_out, withdraw_one_token,
    withdraw_proportional,
};
use spreadless::pool::state::{Pool, PoolToken};

const ONE_MILLION_TOKENS: u64 = 1_000_000_000_000_000;

fn pool_with(reserve_0: u64, reserve_1: u64, swap_fee: u64, protocol_fee: u64) -> Pool {
    let tokens = vec![
        PoolToken { decimals: 9, scaling_factor: 1, scaling_up: true, reserve: reserve_0, max_cap: MAX_SAFE_BALANCE },
        PoolToken { decimals: 9, scaling_factor: 1, scaling_up: true, reserve: reserve_1, max_cap: MAX_SAFE_BALANCE },
    ];
    Pool {
        tokens,
        amp_initial_factor: 100,
        amp_target_factor: 100,
        ramp_start_ts: 0,
        ramp_stop_ts: 0,
        swap_fee,
        protocol_fee,
    }
}

fn normalized(values: &[u64]) -> NormalizedAmounts {
    let mut fixed = [0_u64; 5];
    fixed[..values.len()].copy_from_slice(values);
    NormalizedAmounts::new(fixed, values.len()).unwrap()
}

#[test]
fn first_deposit_quote_mints_the_invariant_without_protocol_lp() {
    let e = Env::default();
    let pool = pool_with(0, 0, 3_000_000, 500_000_000);
    let deposit = normalized(&[ONE_MILLION_TOKENS, ONE_MILLION_TOKENS]);

    let quote = deposit_exact_tokens_in(&e, &pool, 0, &deposit, 0).unwrap();

    assert_eq!(quote.lp_out, 2 * ONE_MILLION_TOKENS);
    assert_eq!(quote.protocol_lp, 0);
}

#[test]
fn balanced_followup_deposit_has_no_protocol_lp_fee() {
    let e = Env::default();
    let pool = pool_with(ONE_MILLION_TOKENS, ONE_MILLION_TOKENS, 3_000_000, 500_000_000);
    let deposit = normalized(&[100_000_000_000_000, 100_000_000_000_000]);

    let quote = deposit_exact_tokens_in(&e, &pool, 0, &deposit, 2 * ONE_MILLION_TOKENS).unwrap();

    assert_eq!(quote.lp_out, 200_000_000_000_000);
    assert_eq!(quote.protocol_lp, 0);
}

#[test]
fn proportional_withdraw_quote_rounds_down() {
    let pool = pool_with(5_000_000_000, 3_000_000_000, 3_000_000, 0);

    let quote = withdraw_proportional(&pool, 1_000_000_000, 333_333_333).unwrap();

    assert_eq!(&quote.amounts_out[..2], &[1_666_666_665, 999_999_999]);
}

#[test]
fn exact_input_and_output_quotes_are_consistent_after_fees() {
    let e = Env::default();
    e.cost_estimate().budget().reset_unlimited();
    let pool = pool_with(ONE_MILLION_TOKENS, ONE_MILLION_TOKENS, 3_000_000, 500_000_000);
    let amount_in = ONE_MILLION_TOKENS / 100;

    let exact_in = swap_exact_in(&e, &pool, 0, 0, 1, amount_in).unwrap();
    let exact_out = swap_exact_out(&e, &pool, 0, 0, 1, exact_in.net_out).unwrap();

    assert!(exact_in.net_out < amount_in);
    assert!(exact_in.protocol > 0);
    assert_eq!(exact_out.protocol, exact_in.protocol);
    assert!(exact_out.amount_in.abs_diff(amount_in) <= 2);
}

#[test]
fn single_token_withdraw_quote_routes_only_the_protocol_fee_cut() {
    let e = Env::default();
    e.cost_estimate().budget().reset_unlimited();
    let pool = pool_with(ONE_MILLION_TOKENS, ONE_MILLION_TOKENS, 3_000_000, 500_000_000);

    let quote = withdraw_one_token(&e, &pool, 0, 0, ONE_MILLION_TOKENS / 2, 2 * ONE_MILLION_TOKENS).unwrap();

    assert!(quote.amount_out > 0);
    assert!(quote.amount_out < ONE_MILLION_TOKENS / 2);
    assert!(quote.protocol > 0);
}
