//! Proportional join and exit amounts shared by every pool type (Balancer's
//! `BasePoolMath`), independent of the stable-swap invariant.
use vstd::prelude::*;

use super::arithmetic::{
    ceil_div, mul_div_down_u64, mul_div_up_u64, spec_mul_div_down_u64, spec_mul_div_up_u64,
};
use super::lp_exit::{
    is_proportional_split_down, lemma_share_down_le_balance, proportional_split_down_fails,
};
use super::MAX_TOKENS;

verus! {

/// Entry `k` of a proportional split rounded up, and zero past the last
/// balance.
pub open spec fn proportional_share_up(bs: Seq<u64>, supply: u64, amount: u64, k: int) -> Option<
    u64,
> {
    if k < bs.len() {
        spec_mul_div_up_u64(bs[k], amount, supply)
    } else {
        Some(0)
    }
}

/// Every entry of `out` is the proportional share (rounded up) of the
/// matching balance.
pub open spec fn is_proportional_split_up(
    bs: Seq<u64>,
    supply: u64,
    amount: u64,
    out: Seq<u64>,
) -> bool {
    &&& out.len() == MAX_TOKENS
    &&& forall|k: int| 0 <= k < MAX_TOKENS ==> proportional_share_up(bs, supply, amount, k) == Some(
        #[trigger] out[k],
    )
}

/// Some entry of the proportional split (rounded up) does not fit.
pub open spec fn proportional_split_up_fails(bs: Seq<u64>, supply: u64, amount: u64) -> bool {
    exists|k: int| 0 <= k < bs.len() && #[trigger] spec_mul_div_up_u64(bs[k], amount, supply) is None
}

/// Proportional amounts in to provide for an exact LP amount out, rounded up
/// so the joiner always backs the minted shares in full.
pub fn compute_proportional_amounts_in(
    balances: &[u64],
    pool_token_supply: u64,
    pool_token_amount: u64,
) -> (r: Option<[u64; 5]>)
    ensures
        match r {
            None => balances.len() > MAX_TOKENS || proportional_split_up_fails(
                balances@,
                pool_token_supply,
                pool_token_amount,
            ),
            Some(out) => balances.len() <= MAX_TOKENS && is_proportional_split_up(
                balances@,
                pool_token_supply,
                pool_token_amount,
                out@,
            ),
        },
{
    if balances.len() > MAX_TOKENS {
        return None;
    }
    let mut amounts_in = [0u64; 5];
    let mut i: usize = 0;
    while i < balances.len()
        invariant
            0 <= i <= balances.len(),
            balances.len() <= MAX_TOKENS,
            forall|k: int| 0 <= k < i ==> spec_mul_div_up_u64(
                balances@[k],
                pool_token_amount,
                pool_token_supply,
            ) == Some(#[trigger] amounts_in@[k]),
            forall|k: int| i <= k < MAX_TOKENS ==> #[trigger] amounts_in@[k] == 0,
        decreases balances.len() - i,
    {
        amounts_in[i] = match mul_div_up_u64(balances[i], pool_token_amount, pool_token_supply) {
            Some(v) => v,
            None => {
                assert(spec_mul_div_up_u64(balances@[i as int], pool_token_amount, pool_token_supply)
                    is None);
                return None;
            },
        };
        i = i + 1;
    }
    assert forall|k: int| 0 <= k < MAX_TOKENS implies proportional_share_up(
        balances@,
        pool_token_supply,
        pool_token_amount,
        k,
    ) == Some(#[trigger] amounts_in@[k]) by {}
    Some(amounts_in)
}

/// Proportional amounts out to return for an exact LP amount in, rounded
/// down so the pool never pays out more than the burned shares back.
pub fn compute_proportional_amounts_out(
    balances: &[u64],
    pool_token_supply: u64,
    pool_token_amount: u64,
) -> (r: Option<[u64; 5]>)
    ensures
        match r {
            None => balances.len() > MAX_TOKENS || proportional_split_down_fails(
                balances@,
                pool_token_supply,
                pool_token_amount,
            ),
            Some(out) => balances.len() <= MAX_TOKENS && is_proportional_split_down(
                balances@,
                pool_token_supply,
                pool_token_amount,
                out@,
            ),
        },
        r matches Some(out) ==> (pool_token_amount <= pool_token_supply ==> forall|k: int|
            0 <= k < balances.len() ==> #[trigger] out@[k] <= balances@[k]),
{
    if balances.len() > MAX_TOKENS {
        return None;
    }
    let mut amounts_out = [0u64; 5];
    let mut i: usize = 0;
    while i < balances.len()
        invariant
            0 <= i <= balances.len(),
            balances.len() <= MAX_TOKENS,
            forall|k: int| 0 <= k < i ==> spec_mul_div_down_u64(
                balances@[k],
                pool_token_amount,
                pool_token_supply,
            ) == Some(#[trigger] amounts_out@[k]),
            forall|k: int| i <= k < MAX_TOKENS ==> #[trigger] amounts_out@[k] == 0,
        decreases balances.len() - i,
    {
        amounts_out[i] = match mul_div_down_u64(balances[i], pool_token_amount, pool_token_supply) {
            Some(v) => v,
            None => {
                assert(spec_mul_div_down_u64(balances@[i as int], pool_token_amount, pool_token_supply)
                    is None);
                return None;
            },
        };
        i = i + 1;
    }
    assert forall|k: int| 0 <= k < balances.len() && pool_token_amount <= pool_token_supply
        implies #[trigger] amounts_out@[k] <= balances@[k] by {
        assert(spec_mul_div_down_u64(balances@[k], pool_token_amount, pool_token_supply) == Some(
            amounts_out@[k],
        ));
        lemma_share_down_le_balance(balances@[k], pool_token_amount, pool_token_supply);
    }
    assert forall|k: int| 0 <= k < MAX_TOKENS implies super::lp_exit::proportional_share_down(
        balances@,
        pool_token_supply,
        pool_token_amount,
        k,
    ) == Some(#[trigger] amounts_out@[k]) by {}
    Some(amounts_out)
}


/// Law: for every token, the proportional amount in (rounded up) is at least
/// the proportional amount out (rounded down) and at most one unit more; they
/// agree when the division is exact.
pub proof fn law_proportional_in_covers_out(bs: Seq<u64>, supply: u64, amount: u64, k: int)
    requires
        0 <= k < bs.len(),
        supply > 0,
        proportional_share_up(bs, supply, amount, k) is Some,
    ensures
        super::lp_exit::proportional_share_down(bs, supply, amount, k) is Some,
        ({
            let down = super::lp_exit::proportional_share_down(bs, supply, amount, k)->0;
            let up = proportional_share_up(bs, supply, amount, k)->0;
            &&& down <= up <= down + 1
            &&& (up == down <==> (bs[k] * amount) % (supply as int) == 0)
        }),
{
    super::arithmetic::law_mul_div_rounding(bs[k], amount, supply);
}

} // verus!
