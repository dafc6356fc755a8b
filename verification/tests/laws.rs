use spreadless::math::arithmetic::{mul_div_down_u64, mul_div_up_u64};
use spreadless::math::base::{compute_proportional_amounts_in, compute_proportional_amounts_out};
use spreadless::math::fixed_math::{FixedComplement, FixedDiv, FixedMul};
use spreadless::math::lp_exit::proportional_amounts_out;
use spreadless::pool::amp::ramp_amp;
use spreadless::pool::fee::{output_from_gross, output_from_net};
use spreadless::pool::normalized::NormalizedAmounts;
use spreadless::pool::scaling::{from_internal, from_internal_up, to_internal};

#[test]
fn rounding_brackets_the_exact_quotient() {
    for (v, m, d) in [(10u64, 2u64, 3u64), (7, 7, 7), (u64::MAX, 3, 4), (1, 1, 2)] {
        let down = mul_div_down_u64(v, m, d).unwrap();
        let up = mul_div_up_u64(v, m, d).unwrap();
        assert!(down <= up && up <= down + 1);
        assert_eq!(up == down, (v as u128 * m as u128) % d as u128 == 0);
    }
    assert_eq!(3u64.mul_down(500_000_000), Some(1));
    assert_eq!(3u64.mul_up(500_000_000), Some(2));
    assert_eq!(1u64.div_down(3), Some(333_333_333));
    assert_eq!(1u64.div_up(3), Some(333_333_334));
    assert_eq!(5u64.div_up(0), None);
    assert_eq!(2_000_000_000u64.complement(), 0);
    assert_eq!(250_000_000u64.complement(), 750_000_000);
}

#[test]
fn proportional_in_covers_out_and_full_exit_is_exact() {
    let balances = [5_000_000_001u64, 3_000_000_000, 7];
    let ins = compute_proportional_amounts_in(&balances, 3, 1).unwrap();
    let outs = compute_proportional_amounts_out(&balances, 3, 1).unwrap();
    for k in 0..3 {
        assert!(outs[k] <= ins[k] && ins[k] <= outs[k] + 1);
    }
    assert_eq!(ins[3..], [0, 0]);
    let full = proportional_amounts_out(&balances, 9, 9).unwrap();
    assert_eq!(&full[..3], &balances);
    assert_eq!(compute_proportional_amounts_in(&[1; 6], 1, 1), None);
}

#[test]
fn ramps_move_monotonically_between_endpoints() {
    let mut previous = 0;
    for now in [0u64, 100, 101, 150, 199, 200, 10_000] {
        let amp = ramp_amp(1_000, 5_000, 100, 200, now);
        assert!(amp >= previous && (1_000_000..=5_000_000).contains(&amp));
        previous = amp;
    }
    let mut previous = u64::MAX;
    for now in [0u64, 100, 101, 150, 199, 200, 10_000] {
        let amp = ramp_amp(5_000, 1_000, 100, 200, now);
        assert!(amp <= previous && (1_000_000..=5_000_000).contains(&amp));
        previous = amp;
    }
    // Truncation toward zero on a downward ramp.
    assert_eq!(ramp_amp(2, 1, 0, 3, 1), 1_667);
    assert_eq!(ramp_amp(7, 7, 3, 9, 5), 7_000);
}

#[test]
fn protocol_fee_never_changes_trader_output() {
    for protocol_fee in [0u64, 1, 500_000_000, 1_000_000_000] {
        let q = output_from_gross(3_000_000, protocol_fee, 123_456_789).unwrap();
        assert_eq!(q.net_out, 123_086_418);
        assert!(q.protocol <= q.gross_out - q.net_out);
        let q = output_from_net(3_000_000, protocol_fee, 123_086_418).unwrap();
        assert!(q.gross_out >= q.net_out);
    }
    assert!(output_from_net(1_000_000_000, 0, 1).is_none());
}

#[test]
fn scaling_roundtrips() {
    assert_eq!(from_internal(to_internal(12_345_678, 100, true).unwrap(), 100, true), 12_345_678);
    let raw = 1_234_567_999_999_999_999i128;
    let back = from_internal(to_internal(raw, 1_000_000_000, false).unwrap(), 1_000_000_000, false);
    assert!(back <= raw && raw < back + 1_000_000_000);
    assert_eq!(from_internal_up(200, 100, true), 2);
    assert_eq!(from_internal_up(7, 1_000, false), 7_000);
}

#[test]
fn normalized_amounts_views() {
    assert!(NormalizedAmounts::new([1, 2, 3, 4, 5], 6).is_none());
    let a = NormalizedAmounts::new([0, 3, 9, 9, 9], 2).unwrap();
    assert_eq!(a.as_slice(), &[0, 3]);
    assert_eq!(a.len(), 2);
    assert_eq!(a.get(1), Some(3));
    assert_eq!(a.get(2), None);
    assert!(a.contains_zero());
    assert!(a.any_positive());
    let z = NormalizedAmounts::new([0, 0, 9, 9, 9], 2).unwrap();
    assert!(!z.any_positive());
}
