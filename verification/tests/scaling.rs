use spreadless::math::MAX_SAFE_BALANCE;
use spreadless::pool::scaling::{from_internal, from_internal_up, scaling_for, to_internal};

#[test]
fn scaling_derives_factors_for_common_token_decimals() {
    assert_eq!(scaling_for(6), Some((1_000, true)));
    assert_eq!(scaling_for(7), Some((100, true)));
    assert_eq!(scaling_for(9), Some((1, true)));
    assert_eq!(scaling_for(18), Some((1_000_000_000, false)));
    assert_eq!(scaling_for(29), None);
}

#[test]
fn scaling_roundtrips_and_uses_directional_rounding() {
    let (factor, scaling_up) = scaling_for(7).unwrap();
    let raw = 12_345_678_i128;
    let internal = to_internal(raw, factor, scaling_up).unwrap();
    assert_eq!(internal, 1_234_567_800);
    assert_eq!(from_internal(internal, factor, scaling_up), raw);
    assert_eq!(from_internal(101, factor, scaling_up), 1);
    assert_eq!(from_internal_up(101, factor, scaling_up), 2);

    let (factor, scaling_up) = scaling_for(18).unwrap();
    let raw = 1_234_567_000_000_000_000_i128;
    assert_eq!(to_internal(raw, factor, scaling_up), Some(1_234_567_000));
    assert_eq!(to_internal(raw + factor as i128 - 1, factor, scaling_up), Some(1_234_567_000));
}

#[test]
fn scaling_rejects_negative_overflowing_and_unsafe_balances() {
    let (factor, scaling_up) = scaling_for(9).unwrap();
    assert_eq!(to_internal(-1, factor, scaling_up), None);
    assert_eq!(to_internal(MAX_SAFE_BALANCE as i128, factor, scaling_up), Some(MAX_SAFE_BALANCE));
    assert_eq!(to_internal(MAX_SAFE_BALANCE as i128 + 1, factor, scaling_up), None);

    let (factor, scaling_up) = scaling_for(6).unwrap();
    assert_eq!(to_internal(i128::MAX, factor, scaling_up), None);
}
