use vstd::prelude::*;

use super::error::Error;
use crate::registry::{salt_for_index, spec_salt};

verus! {

/// The pool factory: creation is permissionless, each pool takes the next
/// registry index, and duplicate token baskets are allowed.
pub struct PoolFactory;

impl PoolFactory {
    /// The registry index after `index`; the counter may not overflow.
    pub fn next_index(index: u32) -> (r: Result<u32, Error>)
        ensures
            r == (if index < u32::MAX {
                Ok::<u32, Error>((index + 1) as u32)
            } else {
                Err::<u32, Error>(Error::NextPoolIdOverflow)
            }),
    {
        match index.checked_add(1) {
            Some(next) => Ok(next),
            None => Err(Error::NextPoolIdOverflow),
        }
    }

    /// The deploy salt of the pool at registry `index`.
    pub fn salt_for_index(index: u32) -> (r: [u8; 32])
        ensures
            r@ == spec_salt(index),
    {
        salt_for_index(index)
    }
}

} // verus!
