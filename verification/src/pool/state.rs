//! The pool's state as the math reads it, and the bridges that hand its
//! normalized reserves to the math layer.
use vstd::prelude::*;

use super::scaling::{
    from_internal, from_internal_defined, from_internal_up, spec_from_internal,
    spec_from_internal_up, spec_to_internal, to_internal,
};
use crate::math::{MAX_SAFE_BALANCE, MAX_TOKENS};

verus! {

/// One token of the pool. `reserve` and `max_cap` are normalized to the
/// internal 9 decimals; `scaling_factor` and `scaling_up` convert this
/// token's raw on-chain amounts to and from that scale.
#[derive(Clone, Copy)]
pub struct PoolToken {
    pub decimals: u32,
    /// `10^|decimals - 9|`.
    pub scaling_factor: u64,
    /// Raw amounts are multiplied by the factor (decimals at most 9).
    pub scaling_up: bool,
    pub reserve: u64,
    /// The reserve may never exceed this.
    pub max_cap: u64,
}

/// The pool: 2..=`MAX_TOKENS` tokens in canonical order, the amplification
/// ramp, and the fee rates (`1e9` == 100%).
pub struct Pool {
    pub tokens: Vec<PoolToken>,
    pub amp_initial_factor: u32,
    pub amp_target_factor: u32,
    pub ramp_start_ts: u64,
    pub ramp_stop_ts: u64,
    pub swap_fee: u64,
    /// Share of the swap fee routed to the beneficiary.
    pub protocol_fee: u64,
}

impl PoolToken {
    /// The scaling factor is usable (never zero) and the reserve stays within
    /// its cap, which stays within the math's safe range.
    pub open spec fn wf(self) -> bool {
        &&& self.scaling_factor != 0
        &&& self.reserve <= self.max_cap
        &&& self.max_cap <= MAX_SAFE_BALANCE
    }

    pub fn to_internal(&self, raw: i128) -> (r: Option<u64>)
        requires
            self.wf(),
        ensures
            r == spec_to_internal(raw, self.scaling_factor, self.scaling_up),
    {
        to_internal(raw, self.scaling_factor, self.scaling_up)
    }

    pub fn to_raw(&self, internal: u64) -> (r: i128)
        requires
            from_internal_defined(internal, self.scaling_factor, self.scaling_up),
        ensures
            r == spec_from_internal(internal, self.scaling_factor, self.scaling_up),
    {
        from_internal(internal, self.scaling_factor, self.scaling_up)
    }

    pub fn to_raw_up(&self, internal: u64) -> (r: i128)
        requires
            from_internal_defined(internal, self.scaling_factor, self.scaling_up),
        ensures
            r == spec_from_internal_up(internal, self.scaling_factor, self.scaling_up),
    {
        from_internal_up(internal, self.scaling_factor, self.scaling_up)
    }
}

impl Pool {
    /// At most `MAX_TOKENS` tokens, each with a usable scaling factor.
    pub open spec fn wf(self) -> bool {
        &&& self.tokens@.len() <= MAX_TOKENS
        &&& forall|i: int| 0 <= i < self.tokens@.len() ==> (#[trigger] self.tokens@[i]).wf()
    }

    /// The normalized reserves, in token order.
    pub open spec fn reserves_view(self) -> Seq<u64> {
        Seq::new(self.tokens@.len(), |i: int| self.tokens@[i].reserve)
    }
}

/// Copy the pool's normalized reserves into a fixed-capacity array for the
/// math layer. Returns `(array, num_tokens)`; callers pass
/// `&array[0..num_tokens]`.
pub fn reserves(pool: &Pool) -> (r: ([u64; 5], usize))
    requires
        pool.tokens@.len() <= MAX_TOKENS,
    ensures
        r.1 == pool.tokens@.len(),
        r.0@.subrange(0, r.1 as int) == pool.reserves_view(),
        forall|k: int| r.1 <= k < MAX_TOKENS ==> #[trigger] r.0@[k] == 0,
{
    let mut arr = [0u64; 5];
    let mut n: usize = 0;
    while n < pool.tokens.len()
        invariant
            0 <= n <= pool.tokens@.len(),
            pool.tokens@.len() <= MAX_TOKENS,
            forall|k: int| 0 <= k < n ==> #[trigger] arr@[k] == pool.tokens@[k].reserve,
            forall|k: int| n <= k < MAX_TOKENS ==> #[trigger] arr@[k] == 0,
        decreases pool.tokens@.len() - n,
    {
        arr[n] = pool.tokens[n].reserve;
        n = n + 1;
    }
    assert(arr@.subrange(0, n as int) =~= pool.reserves_view());
    (arr, n)
}

} // verus!
