//! Swap-fee policy. Fees are fixed-point rates where `1e9` is 100%; the swap
//! fee is charged on the output, and the protocol takes a share of each fee.
use vstd::prelude::*;

use crate::math::fixed_math::{
    self, spec_complement, spec_div_up, spec_mul_down, FixedComplement, FixedDiv, FixedMul,
};
use crate::math::{MAX_SWAP_FEE, MIN_SWAP_FEE};

verus! {

/// A swap output split: the gross output, what the trader receives, and the
/// protocol's share of the difference.
pub struct OutputFee {
    pub gross_out: u64,
    pub net_out: u64,
    pub protocol: u64,
}

/// Whether `swap_fee` lies in `[MIN_SWAP_FEE, MAX_SWAP_FEE]` (0.001%..=1%).
pub fn is_valid_swap_fee(swap_fee: u64) -> (r: bool)
    ensures
        r == (MIN_SWAP_FEE <= swap_fee <= MAX_SWAP_FEE),
{
    MIN_SWAP_FEE <= swap_fee && swap_fee <= MAX_SWAP_FEE
}

/// Whether `protocol_fee` is at most 100%.
pub fn is_valid_protocol_fee(protocol_fee: u64) -> (r: bool)
    ensures
        r == (protocol_fee <= fixed_math::ONE),
{
    protocol_fee <= fixed_math::ONE
}

/// The protocol's share of a fee, `fee_amount * protocol_fee`, rounded down.
pub open spec fn spec_protocol_share(fee_amount: u64, protocol_fee: u64) -> Option<u64> {
    spec_mul_down(fee_amount, protocol_fee)
}

/// The protocol's cut of the fee `gross - net` (floored at zero).
pub open spec fn spec_protocol_cut(protocol_fee: u64, gross_out: u64, net_out: u64) -> Option<u64> {
    spec_protocol_share(
        if gross_out >= net_out {
            (gross_out - net_out) as u64
        } else {
            0u64
        },
        protocol_fee,
    )
}

/// A share of at most 100% of an amount never exceeds the amount.
pub proof fn lemma_share_le_amount(amount: u64, rate: u64)
    requires
        rate <= fixed_math::ONE,
    ensures
        (amount * rate) / (fixed_math::ONE as int) <= amount,
{
    assert((amount as int) * (rate as int) <= (amount as int) * (fixed_math::ONE as int)) by (
    nonlinear_arith)
        requires
            rate <= fixed_math::ONE,
    ;
    vstd::arithmetic::div_mod::lemma_div_is_ordered(
        amount * rate,
        amount * fixed_math::ONE,
        fixed_math::ONE as int,
    );
    vstd::arithmetic::div_mod::lemma_div_by_multiple(amount as int, fixed_math::ONE as int);
}

/// The trader's output `gross_out * (1 - swap_fee)` (rounded down) and the
/// protocol's share of the withheld fee. The trader never receives more than
/// the gross output, and the protocol never more than the fee.
pub fn output_from_gross(swap_fee: u64, protocol_fee: u64, gross_out: u64) -> (r: Option<
    OutputFee,
>)
    ensures
        match r {
            None => spec_mul_down(gross_out, spec_complement(swap_fee)) is None || spec_protocol_cut(
                protocol_fee,
                gross_out,
                spec_mul_down(gross_out, spec_complement(swap_fee))->0,
            ) is None,
            Some(o) => {
                &&& o.gross_out == gross_out
                &&& spec_mul_down(gross_out, spec_complement(swap_fee)) == Some(o.net_out)
                &&& spec_protocol_cut(protocol_fee, gross_out, o.net_out) == Some(o.protocol)
            },
        },
        r matches Some(o) ==> o.net_out <= o.gross_out,
        r matches Some(o) ==> (protocol_fee <= fixed_math::ONE ==> o.protocol <= o.gross_out
            - o.net_out),
{
    let net_out = gross_out.mul_down(swap_fee.complement())?;
    proof {
        lemma_share_le_amount(gross_out, spec_complement(swap_fee));
    }
    let protocol = protocol_cut(protocol_fee, gross_out, net_out)?;
    proof {
        if protocol_fee <= fixed_math::ONE {
            lemma_share_le_amount((gross_out - net_out) as u64, protocol_fee);
        }
    }
    Some(OutputFee { gross_out, net_out, protocol })
}

/// The gross output `net_out / (1 - swap_fee)` (rounded up) a swap must
/// produce for the trader to receive `net_out`, and the protocol's share of
/// the fee. `None` when the swap fee is 100% or more.
pub fn output_from_net(swap_fee: u64, protocol_fee: u64, net_out: u64) -> (r: Option<OutputFee>)
    ensures
        match r {
            None => spec_div_up(net_out, spec_complement(swap_fee)) is None || spec_protocol_cut(
                protocol_fee,
                spec_div_up(net_out, spec_complement(swap_fee))->0,
                net_out,
            ) is None,
            Some(o) => {
                &&& o.net_out == net_out
                &&& spec_div_up(net_out, spec_complement(swap_fee)) == Some(o.gross_out)
                &&& spec_protocol_cut(protocol_fee, o.gross_out, net_out) == Some(o.protocol)
            },
        },
        r matches Some(o) ==> o.net_out <= o.gross_out,
        r matches Some(o) ==> (protocol_fee <= fixed_math::ONE ==> o.protocol <= o.gross_out
            - o.net_out),
{
    let gross_out = net_out.div_up(swap_fee.complement())?;
    proof {
        lemma_gross_covers_net(net_out, spec_complement(swap_fee));
    }
    let protocol = protocol_cut(protocol_fee, gross_out, net_out)?;
    proof {
        if protocol_fee <= fixed_math::ONE {
            lemma_share_le_amount((gross_out - net_out) as u64, protocol_fee);
        }
    }
    Some(OutputFee { gross_out, net_out, protocol })
}

/// Grossing up by a rate of at most 100% never shrinks the amount.
pub proof fn lemma_gross_covers_net(net: u64, rate: u64)
    requires
        0 < rate <= fixed_math::ONE,
    ensures
        crate::math::arithmetic::ceil_div(net * fixed_math::ONE, rate as int) >= net,
{
    let x = net * fixed_math::ONE;
    assert(x >= (net as int) * (rate as int)) by (nonlinear_arith)
        requires
            x == net * fixed_math::ONE,
            0 < rate <= fixed_math::ONE,
    ;
    vstd::arithmetic::div_mod::lemma_div_is_ordered(net * rate, x + rate - 1, rate as int);
    vstd::arithmetic::div_mod::lemma_div_by_multiple(net as int, rate as int);
}

/// The protocol's share of a fee amount: `fee_amount * protocol_fee`, rounded
/// down. The one policy used wherever a fee is charged: swaps (the fee is
/// `gross - net`), single-token withdrawals, and deposits (in LP shares).
pub fn protocol_share(fee_amount: u64, protocol_fee: u64) -> (r: Option<u64>)
    ensures
        r == spec_protocol_share(fee_amount, protocol_fee),
        protocol_fee <= fixed_math::ONE ==> (r matches Some(s) && s <= fee_amount),
{
    proof {
        if protocol_fee <= fixed_math::ONE {
            lemma_share_le_amount(fee_amount, protocol_fee);
        }
    }
    fee_amount.mul_down(protocol_fee)
}

fn protocol_cut(protocol_fee: u64, gross_out: u64, net_out: u64) -> (r: Option<u64>)
    ensures
        r == spec_protocol_cut(protocol_fee, gross_out, net_out),
{
    protocol_share(gross_out.saturating_sub(net_out), protocol_fee)
}


/// `ceil(x / c) * c` lies in `[x, x + c)`.
proof fn lemma_ceil_div_times(x: int, c: int)
    requires
        x >= 0,
        c > 0,
    ensures
        x <= crate::math::arithmetic::ceil_div(x, c) * c < x + c,
{
    let q = crate::math::arithmetic::ceil_div(x, c);
    vstd::arithmetic::div_mod::lemma_fundamental_div_mod(x + c - 1, c);
    vstd::arithmetic::div_mod::lemma_mod_bound(x + c - 1, c);
    assert(q * c == c * q) by (nonlinear_arith);
}

/// Law: grossing a net output up for the swap fee and netting the gross
/// back down gives the same split. When `output_from_net` grosses `net_out`
/// up to `gross_out`, the trader's share of `gross_out`, as
/// `output_from_gross` computes it, is exactly `net_out`; both then take the
/// protocol's cut of the same fee `gross_out - net_out`.
pub proof fn law_net_gross_round_trip(swap_fee: u64, protocol_fee: u64, net_out: u64)
    requires
        swap_fee < fixed_math::ONE,
        spec_div_up(net_out, spec_complement(swap_fee)) is Some,
    ensures
        ({
            let gross_out = spec_div_up(net_out, spec_complement(swap_fee))->0;
            &&& spec_mul_down(gross_out, spec_complement(swap_fee)) == Some(net_out)
            &&& spec_protocol_cut(protocol_fee, gross_out, spec_mul_down(
                gross_out,
                spec_complement(swap_fee),
            )->0) == spec_protocol_cut(protocol_fee, gross_out, net_out)
        }),
{
    let c = spec_complement(swap_fee);
    let one = fixed_math::ONE as int;
    let x = net_out * one;
    let g = spec_div_up(net_out, c)->0;
    lemma_ceil_div_times(x, c as int);
    assert(g as int == crate::math::arithmetic::ceil_div(x, c as int));
    // n * ONE <= g * c < n * ONE + c <= (n + 1) * ONE
    assert((g as int) * (c as int) < (net_out + 1) * one);
    vstd::arithmetic::div_mod::lemma_div_is_ordered(x, (g as int) * (c as int), one);
    vstd::arithmetic::div_mod::lemma_div_by_multiple(net_out as int, one);
    vstd::arithmetic::div_mod::lemma_div_is_ordered(
        (g as int) * (c as int),
        (net_out + 1) * one - 1,
        one,
    );
    vstd::arithmetic::div_mod::lemma_div_by_multiple_is_strongly_ordered(
        (g as int) * (c as int),
        (net_out + 1) * one,
        net_out + 1,
        one,
    );
    assert(((g as int) * (c as int)) / one == net_out);
}

} // verus!
