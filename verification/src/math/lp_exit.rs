//! LP exit math. Proportional exits do not depend on the invariant;
//! single-token exits use it and charge swap-style fees on the virtual
//! imbalance. This is the contract-facing seam for burning LP shares.
use soroban_sdk::Env;
use vstd::prelude::*;

use super::arithmetic::{mul_div_down_u64, spec_mul_div_down_u64};
use super::stable::{
    self, invariant_fits, spec_calc_invariant, spec_token_out_given_exact_pool_token_in,
    token_out_given_exact_pool_token_in_fits,
};
use super::{DEFAULT_INV_THRESHOLD, MAX_TOKENS};

verus! {

/// Entry `k` of a proportional split: `balances[k] * amount / supply`,
/// rounded down, and zero past the last balance.
pub open spec fn proportional_share_down(bs: Seq<u64>, supply: u64, amount: u64, k: int) -> Option<
    u64,
> {
    if k < bs.len() {
        spec_mul_div_down_u64(bs[k], amount, supply)
    } else {
        Some(0)
    }
}

/// Every entry of `out` is the proportional share (rounded down) of the
/// matching balance.
pub open spec fn is_proportional_split_down(
    bs: Seq<u64>,
    supply: u64,
    amount: u64,
    out: Seq<u64>,
) -> bool {
    &&& out.len() == MAX_TOKENS
    &&& forall|k: int| 0 <= k < MAX_TOKENS ==> proportional_share_down(bs, supply, amount, k) == Some(
        #[trigger] out[k],
    )
}

/// Some entry of the proportional split (rounded down) does not fit.
pub open spec fn proportional_split_down_fails(bs: Seq<u64>, supply: u64, amount: u64) -> bool {
    exists|k: int| 0 <= k < bs.len() && #[trigger] spec_mul_div_down_u64(bs[k], amount, supply) is None
}

/// A share rounded down never exceeds the balance when at most the whole
/// supply is burned.
pub proof fn lemma_share_down_le_balance(balance: u64, amount: u64, supply: u64)
    requires
        amount <= supply,
        supply > 0,
    ensures
        (balance * amount) / (supply as int) <= balance,
{
    assert((balance as int) * (amount as int) <= (balance as int) * (supply as int)) by (
    nonlinear_arith)
        requires
            amount <= supply,
    ;
    vstd::arithmetic::div_mod::lemma_div_is_ordered(
        balance * amount,
        balance * supply,
        supply as int,
    );
    vstd::arithmetic::div_mod::lemma_div_by_multiple(balance as int, supply as int);
}

/// Proportional amounts out for an exact LP amount in, rounded down so the
/// pool never pays out more than the burned shares are worth.
pub fn proportional_amounts_out(balances: &[u64], pool_token_supply: u64, pool_token_amount: u64) -> (r:
    Option<[u64; 5]>)
    ensures
        match r {
            None => balances.len() > MAX_TOKENS || proportional_split_down_fails(
                balances@,
                pool_token_supply,
                pool_token_amount,
            ),
            Some(out) => balances.len() <= MAX_TOKENS && is_proportional_split_down(
                balances@,
                pool_token_supply,
                pool_token_amount,
                out@,
            ),
        },
        r matches Some(out) ==> (pool_token_amount <= pool_token_supply ==> forall|k: int|
            0 <= k < balances.len() ==> #[trigger] out@[k] <= balances@[k]),
{
    if balances.len() > MAX_TOKENS {
        return None;
    }
    let mut amounts_out = [0u64; 5];
    let mut i: usize = 0;
    while i < balances.len()
        invariant
            0 <= i <= balances.len(),
            balances.len() <= MAX_TOKENS,
            forall|k: int| 0 <= k < i ==> spec_mul_div_down_u64(
                balances@[k],
                pool_token_amount,
                pool_token_supply,
            ) == Some(#[trigger] amounts_out@[k]),
            forall|k: int| i <= k < MAX_TOKENS ==> #[trigger] amounts_out@[k] == 0,
        decreases balances.len() - i,
    {
        amounts_out[i] = match mul_div_down_u64(balances[i], pool_token_amount, pool_token_supply) {
            Some(v) => v,
            None => {
                assert(spec_mul_div_down_u64(balances@[i as int], pool_token_amount, pool_token_supply)
                    is None);
                return None;
            },
        };
        i = i + 1;
    }
    assert forall|k: int| 0 <= k < balances.len() && pool_token_amount <= pool_token_supply
        implies #[trigger] amounts_out@[k] <= balances@[k] by {
        assert(spec_mul_div_down_u64(balances@[k], pool_token_amount, pool_token_supply) == Some(
            amounts_out@[k],
        ));
        lemma_share_down_le_balance(balances@[k], pool_token_amount, pool_token_supply);
    }
    assert forall|k: int| 0 <= k < MAX_TOKENS implies proportional_share_down(
        balances@,
        pool_token_supply,
        pool_token_amount,
        k,
    ) == Some(#[trigger] amounts_out@[k]) by {}
    Some(amounts_out)
}

/// Whether `single_token_amount_out` stays within 256 bits.
pub open spec fn single_token_amount_out_fits(
    amp: u64,
    bs: Seq<u64>,
    index: int,
    amount: u64,
    supply: u64,
) -> bool {
    &&& invariant_fits(amp, bs, DEFAULT_INV_THRESHOLD as nat)
    &&& match spec_calc_invariant(amp, bs, DEFAULT_INV_THRESHOLD as nat) {
        None => true,
        Some(current) => token_out_given_exact_pool_token_in_fits(
            amp,
            bs,
            index,
            amount,
            supply,
            current,
        ),
    }
}

/// `(net_out, fee)` for burning `pool_token_amount` LP shares into the single
/// token `token_index`, against the pool's current invariant.
pub open spec fn spec_single_token_amount_out(
    amp: u64,
    bs: Seq<u64>,
    index: int,
    amount: u64,
    supply: u64,
    fee: u64,
) -> Option<(u64, u64)> {
    match spec_calc_invariant(amp, bs, DEFAULT_INV_THRESHOLD as nat) {
        None => None,
        Some(current) => spec_token_out_given_exact_pool_token_in(
            amp,
            bs,
            index,
            amount,
            supply,
            current,
            fee,
        ),
    }
}

/// `(net_out, fee)` for a single-token exit; see
/// `calc_token_out_given_exact_pool_token_in`.
pub fn single_token_amount_out(
    e: &Env,
    amplification: u64,
    balances: &[u64],
    token_index: usize,
    pool_token_amount: u64,
    pool_token_supply: u64,
    swap_fee: u64,
) -> (r: Option<(u64, u64)>)
    requires
        single_token_amount_out_fits(
            amplification,
            balances@,
            token_index as int,
            pool_token_amount,
            pool_token_supply,
        ),
    ensures
        r == spec_single_token_amount_out(
            amplification,
            balances@,
            token_index as int,
            pool_token_amount,
            pool_token_supply,
            swap_fee,
        ),
        r matches Some((net, fee)) ==> net + fee <= balances@[token_index as int],
{
    let current_invariant = stable::calc_invariant(e, amplification, balances, None)?;
    stable::calc_token_out_given_exact_pool_token_in(
        e,
        amplification,
        balances,
        token_index,
        pool_token_amount,
        pool_token_supply,
        current_invariant,
        swap_fee,
    )
}


/// Law: burning the whole supply pays out every balance exactly.
pub proof fn law_full_exit_returns_every_balance(bs: Seq<u64>, supply: u64, k: int)
    requires
        0 <= k < bs.len(),
        supply > 0,
    ensures
        proportional_share_down(bs, supply, supply, k) == Some(bs[k]),
{
    vstd::arithmetic::div_mod::lemma_div_by_multiple(bs[k] as int, supply as int);
}

} // verus!
