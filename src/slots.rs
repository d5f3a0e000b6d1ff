//! Slot arithmetic and hashing, through alloy's 256-bit integers and Keccak-256.
use crate::bytes::{be_nat, pow256, Slot, Word};
use alloy_primitives::U256;
use vstd::prelude::*;

verus! {

/// The Keccak-256 digest of `b`.
pub uninterp spec fn keccak_of(b: Seq<u8>) -> Seq<u8>;

/// Relies on `alloy_primitives::keccak256`: the 32-byte Keccak-256 digest of the bytes given,
/// which depends on those bytes alone.
#[verifier::external_body]
pub(crate) fn keccak(b: &Slot) -> (r: Word)
    ensures
        r@ == keccak_of(b@),
{
    alloy_primitives::keccak256(b).0
}

/// Relies on `U256::wrapping_add` (with `from_be_bytes`, `from` and `to_be_bytes` to convert):
/// the sum of `base` and `n` modulo 2^256, as 32 big-endian bytes.
#[verifier::external_body]
pub(crate) fn slot_add(base: &Slot, n: usize) -> (r: Slot)
    ensures
        be_nat(r@) == (be_nat(base@) + n as nat) % pow256(32),
{
    U256::from_be_bytes(*base).wrapping_add(U256::from(n)).to_be_bytes::<32>()
}

} // verus!
