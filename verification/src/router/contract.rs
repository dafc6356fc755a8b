use vstd::prelude::*;

use super::error::Error;
use crate::registry::{salt_for_index, spec_salt};

verus! {

/// The router.
pub struct SpreadlessRouter;

/// Event: the default protocol fee copied into new pools changed.
#[derive(Clone, Copy, Debug, PartialEq, Eq)]
pub struct DefaultProtocolFeeUpdated {
    pub old_fee: u64,
    pub new_fee: u64,
}

/// Scale of the protocol fee: `1e9` is 100% of the swap fee.
pub const PROTOCOL_FEE_SCALE: u64 = 1_000_000_000;

impl SpreadlessRouter {
    /// A protocol fee must not exceed 100%.
    pub fn require_valid_protocol_fee(fee: u64) -> (r: Result<(), Error>)
        ensures
            r == (if fee > PROTOCOL_FEE_SCALE {
                Err::<(), Error>(Error::InvalidProtocolFee)
            } else {
                Ok::<(), Error>(())
            }),
    {
        if fee > PROTOCOL_FEE_SCALE {
            return Err(Error::InvalidProtocolFee);
        }
        Ok(())
    }

    /// The pool ID after `id`; the counter may not overflow.
    pub fn next_id(id: u32) -> (r: Result<u32, Error>)
        ensures
            r == (if id < u32::MAX {
                Ok::<u32, Error>((id + 1) as u32)
            } else {
                Err::<u32, Error>(Error::NextPoolIdOverflow)
            }),
    {
        match id.checked_add(1) {
            Some(next) => Ok(next),
            None => Err(Error::NextPoolIdOverflow),
        }
    }

    /// The deploy salt of the pool with ID `id`.
    pub fn salt_for_id(id: u32) -> (r: [u8; 32])
        ensures
            r@ == spec_salt(id),
    {
        salt_for_index(id)
    }

    /// Replace the default protocol fee `current` with `new_fee` (at most
    /// 100%); returns the event to publish.
    pub fn update_default_protocol_fee(current: u64, new_fee: u64) -> (r: Result<
        DefaultProtocolFeeUpdated,
        Error,
    >)
        ensures
            r == (if new_fee > PROTOCOL_FEE_SCALE {
                Err::<DefaultProtocolFeeUpdated, Error>(Error::InvalidProtocolFee)
            } else {
                Ok::<DefaultProtocolFeeUpdated, Error>(
                    DefaultProtocolFeeUpdated { old_fee: current, new_fee },
                )
            }),
    {
        Self::require_valid_protocol_fee(new_fee)?;
        Ok(DefaultProtocolFeeUpdated { old_fee: current, new_fee })
    }

    /// A routed swap needs at least one hop.
    pub fn check_path(path_len: u32) -> (r: Result<(), Error>)
        ensures
            r == (if path_len == 0 {
                Err::<(), Error>(Error::EmptySwapPath)
            } else {
                Ok::<(), Error>(())
            }),
    {
        if path_len == 0 {
            return Err(Error::EmptySwapPath);
        }
        Ok(())
    }

    /// The minimum output demanded of hop `index` of `path_len`: only the
    /// final hop applies the caller's `min_out`; earlier hops accept anything.
    pub fn hop_min_out(index: u32, path_len: u32, min_out: i128) -> (r: i128)
        ensures
            r == (if index + 1 == path_len {
                min_out
            } else {
                0
            }),
    {
        let last_hop = index as u64 + 1 == path_len as u64;
        if last_hop {
            min_out
        } else {
            0
        }
    }

    /// The pool a hop or an admin call names, when it is registered.
    pub fn registered_pool<T>(pool: Option<T>) -> (r: Result<T, Error>)
        ensures
            r == (match pool {
                Some(p) => Ok::<T, Error>(p),
                None => Err::<T, Error>(Error::PoolNotRegistered),
            }),
    {
        match pool {
            Some(p) => Ok(p),
            None => Err(Error::PoolNotRegistered),
        }
    }

    /// Renouncing router ownership always fails.
    pub fn renounce_ownership() -> (r: Result<(), Error>)
        ensures
            r == Err::<(), Error>(Error::OwnershipRenunciationDisabled),
    {
        Err(Error::OwnershipRenunciationDisabled)
    }
}

} // verus!
