use spreadless::pool_factory::{Error as FactoryError, PoolFactory};
use spreadless::router::{DefaultProtocolFeeUpdated, Error, SpreadlessRouter};

#[test]
fn salts_encode_the_slot_big_endian() {
    let salt = PoolFactory::salt_for_index(0x0102_0304);
    assert_eq!(&salt[..28], &[0u8; 28]);
    assert_eq!(&salt[28..], &[1, 2, 3, 4]);
    assert_eq!(SpreadlessRouter::salt_for_id(7)[31], 7);
    assert_eq!(SpreadlessRouter::salt_for_id(u32::MAX)[28..], [255, 255, 255, 255]);
}

#[test]
fn counters_refuse_to_overflow() {
    assert_eq!(PoolFactory::next_index(0), Ok(1));
    assert_eq!(PoolFactory::next_index(u32::MAX), Err(FactoryError::NextPoolIdOverflow));
    assert_eq!(SpreadlessRouter::next_id(41), Ok(42));
    assert_eq!(SpreadlessRouter::next_id(u32::MAX), Err(Error::NextPoolIdOverflow));
}

#[test]
fn router_fee_defaults_and_routes() {
    assert_eq!(SpreadlessRouter::require_valid_protocol_fee(1_000_000_001), Err(Error::InvalidProtocolFee));
    assert_eq!(SpreadlessRouter::require_valid_protocol_fee(1_000_000_000), Ok(()));
    assert_eq!(
        SpreadlessRouter::update_default_protocol_fee(100_000_000, 250_000_000),
        Ok(DefaultProtocolFeeUpdated { old_fee: 100_000_000, new_fee: 250_000_000 })
    );
    assert_eq!(SpreadlessRouter::update_default_protocol_fee(1, 2_000_000_000), Err(Error::InvalidProtocolFee));
    assert_eq!(SpreadlessRouter::check_path(0), Err(Error::EmptySwapPath));
    assert_eq!(SpreadlessRouter::check_path(2), Ok(()));
    assert_eq!(SpreadlessRouter::hop_min_out(0, 2, 500), 0);
    assert_eq!(SpreadlessRouter::hop_min_out(1, 2, 500), 500);
    assert_eq!(SpreadlessRouter::registered_pool::<u8>(None), Err(Error::PoolNotRegistered));
    assert_eq!(SpreadlessRouter::registered_pool(Some(3u8)), Ok(3));
    assert_eq!(SpreadlessRouter::renounce_ownership(), Err(Error::OwnershipRenunciationDisabled));
}
