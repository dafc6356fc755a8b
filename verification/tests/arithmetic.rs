use spreadless::math::arithmetic::{checked_sum, mul_div_down_u64, mul_div_up_u64};
use spreadless::math::lp_exit::proportional_amounts_out;

#[test]
fn integer_mul_div_has_explicit_pool_favouring_rounding() {
    assert_eq!(mul_div_down_u64(10, 2, 3), Some(6));
    assert_eq!(mul_div_up_u64(10, 2, 3), Some(7));
    assert_eq!(mul_div_down_u64(10, 0, 3), Some(0));
    assert_eq!(mul_div_up_u64(10, 0, 3), Some(0));
    assert_eq!(mul_div_down_u64(10, 2, 0), None);
    assert_eq!(mul_div_up_u64(10, 2, 0), None);
    assert_eq!(mul_div_down_u64(u64::MAX, u64::MAX, 1), None);
    assert_eq!(mul_div_up_u64(u64::MAX, u64::MAX, 1), None);
}

#[test]
fn checked_sum_fails_closed_on_overflow() {
    assert_eq!(checked_sum(&[1, 2, 3]), Some(6));
    assert_eq!(checked_sum(&[]), Some(0));
    assert_eq!(checked_sum(&[u64::MAX, 1]), None);
}

#[test]
fn proportional_exit_rounds_down_for_every_reserve() {
    let balances = [5_000_000_000_u64, 3_000_000_000];
    let supply = 1_000_000_000;

    let tenth = proportional_amounts_out(&balances, supply, 100_000_000).unwrap();
    assert_eq!(&tenth[..2], &[500_000_000, 300_000_000]);

    let third = proportional_amounts_out(&balances, supply, 333_333_333).unwrap();
    assert_eq!(&third[..2], &[1_666_666_665, 999_999_999]);

    assert_eq!(proportional_amounts_out(&balances, 0, 1), None);
}
