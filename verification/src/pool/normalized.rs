//! Fixed-capacity vectors of normalized amounts. Pool reserves and
//! user-supplied amounts cross the math seams in this shape: token order plus
//! a checked count.
use vstd::prelude::*;

use crate::math::MAX_TOKENS;

verus! {

#[derive(Clone, Copy)]
pub struct NormalizedAmounts {
    values: [u64; 5],
    len: usize,
}

impl View for NormalizedAmounts {
    type V = Seq<u64>;

    /// The first `len` values.
    closed spec fn view(&self) -> Seq<u64> {
        self.values@.subrange(0, self.len as int)
    }
}

impl NormalizedAmounts {
    #[verifier::type_invariant]
    spec fn count_in_range(self) -> bool {
        self.len <= MAX_TOKENS
    }

    /// The amounts `values[0..len]`; `None` when `len` exceeds `MAX_TOKENS`.
    pub fn new(values: [u64; 5], len: usize) -> (r: Option<Self>)
        ensures
            match r {
                None => len > MAX_TOKENS,
                Some(a) => len <= MAX_TOKENS && a@ == values@.subrange(0, len as int),
            },
    {
        if len > MAX_TOKENS {
            return None;
        }
        Some(Self { values, len })
    }

    pub fn as_slice(&self) -> (r: &[u64])
        ensures
            r@ == self@,
            r@.len() <= MAX_TOKENS,
    {
        proof {
            use_type_invariant(self);
        }
        &self.values[0..self.len]
    }

    pub fn len(&self) -> (r: usize)
        ensures
            r == self@.len(),
            r <= MAX_TOKENS,
    {
        proof {
            use_type_invariant(self);
        }
        self.len
    }

    /// The amount at `index`, if there is one.
    pub fn get(&self, index: usize) -> (r: Option<u64>)
        ensures
            r == (if index < self@.len() {
                Some(self@[index as int])
            } else {
                None::<u64>
            }),
    {
        let s = self.as_slice();
        if index < s.len() {
            Some(s[index])
        } else {
            None
        }
    }

    /// Whether some amount is zero.
    pub fn contains_zero(&self) -> (r: bool)
        ensures
            r == (exists|i: int| 0 <= i < self@.len() && #[trigger] self@[i] == 0),
    {
        let s = self.as_slice();
        let mut i: usize = 0;
        while i < s.len()
            invariant
                0 <= i <= s@.len(),
                s@ == self@,
                forall|k: int| 0 <= k < i ==> #[trigger] s@[k] != 0,
            decreases s@.len() - i,
        {
            if s[i] == 0 {
                return true;
            }
            i = i + 1;
        }
        false
    }

    /// Whether some amount is positive.
    pub fn any_positive(&self) -> (r: bool)
        ensures
            r == (exists|i: int| 0 <= i < self@.len() && #[trigger] self@[i] > 0),
    {
        let s = self.as_slice();
        let mut i: usize = 0;
        while i < s.len()
            invariant
                0 <= i <= s@.len(),
                s@ == self@,
                forall|k: int| 0 <= k < i ==> #[trigger] s@[k] == 0,
            decreases s@.len() - i,
        {
            if s[i] > 0 {
                return true;
            }
            i = i + 1;
        }
        false
    }
}

} // verus!
