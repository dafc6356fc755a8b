//! 256-bit intermediates for the stable-swap solvers. The arithmetic itself is
//! the host's `soroban_sdk::U256`; a value crosses into the verified code as
//! its 32 big-endian bytes, and each wrapper below converts those bytes to a
//! `U256`, makes one call, and converts the result back.
use soroban_sdk::{Bytes, Env, U256};
use vstd::arithmetic::power2::pow2;
use vstd::prelude::*;

verus! {

#[verifier::external_type_specification]
#[verifier::external_body]
pub struct ExEnv(Env);

/// Value of a big-endian byte string.
pub open spec fn be_value(s: Seq<u8>) -> nat
    decreases s.len(),
{
    if s.len() == 0 {
        0
    } else {
        be_value(s.drop_last()) * 256 + s.last() as nat
    }
}

/// `2^256`.
pub open spec fn wide_modulus() -> nat {
    0x1_0000_0000_0000_0000_0000_0000_0000_0000_0000_0000_0000_0000_0000_0000_0000_0000nat
}

/// A 256-bit unsigned integer, held as its 32 big-endian bytes.
#[derive(Clone, Copy)]
pub struct Wide {
    pub bytes: [u8; 32],
}

impl Wide {
    pub open spec fn value(self) -> nat {
        be_value(self.bytes@)
    }
}

/// `U256::from_u128` (`soroban_sdk`): the host number equal to `v`.
#[verifier::external_body]
pub(crate) fn wide_from_u128(e: &Env, v: u128) -> (r: Wide)
    ensures
        r.value() == v,
{
    let mut out = [0u8; 32];
    U256::from_u128(e, v).to_be_bytes().copy_into_slice(&mut out);
    Wide { bytes: out }
}

/// `U256::to_u128` (`soroban_sdk`): the value when it fits in 128 bits.
#[verifier::external_body]
pub(crate) fn wide_to_u128(e: &Env, a: &Wide) -> (r: Option<u128>)
    ensures
        r == (if a.value() <= u128::MAX {
            Some(a.value() as u128)
        } else {
            None::<u128>
        }),
{
    U256::from_be_bytes(e, &Bytes::from_array(e, &a.bytes)).to_u128()
}

/// `U256::add` (`soroban_sdk`): the exact sum; the host traps on overflow, so
/// the sum must fit in 256 bits.
#[verifier::external_body]
pub(crate) fn wide_add(e: &Env, a: &Wide, b: &Wide) -> (r: Wide)
    requires
        a.value() + b.value() < wide_modulus(),
    ensures
        r.value() == a.value() + b.value(),
{
    let x = U256::from_be_bytes(e, &Bytes::from_array(e, &a.bytes));
    let y = U256::from_be_bytes(e, &Bytes::from_array(e, &b.bytes));
    let mut out = [0u8; 32];
    x.add(&y).to_be_bytes().copy_into_slice(&mut out);
    Wide { bytes: out }
}

/// `U256::sub` (`soroban_sdk`): the exact difference; the host traps on
/// underflow, so `b` may not exceed `a`.
#[verifier::external_body]
pub(crate) fn wide_sub(e: &Env, a: &Wide, b: &Wide) -> (r: Wide)
    requires
        b.value() <= a.value(),
    ensures
        r.value() == a.value() - b.value(),
{
    let x = U256::from_be_bytes(e, &Bytes::from_array(e, &a.bytes));
    let y = U256::from_be_bytes(e, &Bytes::from_array(e, &b.bytes));
    let mut out = [0u8; 32];
    x.sub(&y).to_be_bytes().copy_into_slice(&mut out);
    Wide { bytes: out }
}

/// `U256::mul` (`soroban_sdk`): the exact product; the host traps on
/// overflow, so the product must fit in 256 bits.
#[verifier::external_body]
pub(crate) fn wide_mul(e: &Env, a: &Wide, b: &Wide) -> (r: Wide)
    requires
        a.value() * b.value() < wide_modulus(),
    ensures
        r.value() == a.value() * b.value(),
{
    let x = U256::from_be_bytes(e, &Bytes::from_array(e, &a.bytes));
    let y = U256::from_be_bytes(e, &Bytes::from_array(e, &b.bytes));
    let mut out = [0u8; 32];
    x.mul(&y).to_be_bytes().copy_into_slice(&mut out);
    Wide { bytes: out }
}

/// `U256::div` (`soroban_sdk`): the quotient rounded down; the host traps on
/// a zero divisor.
#[verifier::external_body]
pub(crate) fn wide_div(e: &Env, a: &Wide, b: &Wide) -> (r: Wide)
    requires
        b.value() != 0,
    ensures
        r.value() == a.value() / b.value(),
{
    let x = U256::from_be_bytes(e, &Bytes::from_array(e, &a.bytes));
    let y = U256::from_be_bytes(e, &Bytes::from_array(e, &b.bytes));
    let mut out = [0u8; 32];
    x.div(&y).to_be_bytes().copy_into_slice(&mut out);
    Wide { bytes: out }
}

/// `U256::shl` (`soroban_sdk`): shift left by `bits` (below 256), dropping
/// the bits shifted past the top, i.e. the product with `2^bits` modulo
/// `2^256`.
#[verifier::external_body]
pub(crate) fn wide_shl(e: &Env, a: &Wide, bits: u32) -> (r: Wide)
    requires
        bits < 256,
    ensures
        r.value() == (a.value() * pow2(bits as nat)) % wide_modulus(),
{
    let x = U256::from_be_bytes(e, &Bytes::from_array(e, &a.bytes));
    let mut out = [0u8; 32];
    x.shl(bits).to_be_bytes().copy_into_slice(&mut out);
    Wide { bytes: out }
}

/// `PartialEq::eq` on `U256` (`soroban_sdk`): numeric equality.
#[verifier::external_body]
pub(crate) fn wide_eq(e: &Env, a: &Wide, b: &Wide) -> (r: bool)
    ensures
        r == (a.value() == b.value()),
{
    let x = U256::from_be_bytes(e, &Bytes::from_array(e, &a.bytes));
    let y = U256::from_be_bytes(e, &Bytes::from_array(e, &b.bytes));
    x == y
}

/// `PartialOrd::lt` on `U256` (`soroban_sdk`): numeric order.
#[verifier::external_body]
pub(crate) fn wide_lt(e: &Env, a: &Wide, b: &Wide) -> (r: bool)
    ensures
        r == (a.value() < b.value()),
{
    let x = U256::from_be_bytes(e, &Bytes::from_array(e, &a.bytes));
    let y = U256::from_be_bytes(e, &Bytes::from_array(e, &b.bytes));
    x < y
}

} // verus!
