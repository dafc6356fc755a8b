//! What the pool factory and the router share: each new pool gets the next
//! registry slot, and its deploy salt is that slot's number in the last four
//! bytes, big-endian.
use vstd::prelude::*;

verus! {

/// The deploy salt of registry slot `index`: 28 zero bytes, then `index`
/// big-endian.
pub open spec fn spec_salt(index: u32) -> Seq<u8> {
    Seq::new(
        32,
        |k: int|
            if k == 28 {
                (index / 0x100_0000) as u8
            } else if k == 29 {
                ((index / 0x1_0000) % 0x100) as u8
            } else if k == 30 {
                ((index / 0x100) % 0x100) as u8
            } else if k == 31 {
                (index % 0x100) as u8
            } else {
                0u8
            },
    )
}

/// The deploy salt of registry slot `index`.
pub fn salt_for_index(index: u32) -> (r: [u8; 32])
    ensures
        r@ == spec_salt(index),
{
    let mut salt = [0u8; 32];
    salt[28] = (index / 0x100_0000) as u8;
    salt[29] = ((index / 0x1_0000) % 0x100) as u8;
    salt[30] = ((index / 0x100) % 0x100) as u8;
    salt[31] = (index % 0x100) as u8;
    assert(salt@ =~= spec_salt(index));
    salt
}

} // verus!
