//! Conversions between EVM gas and ink, the unit of compute pricing.
use vstd::prelude::*;

verus! {

/// Ink per unit of gas, in basis points, when the ink price is one.
pub const INK_BASIS: u64 = 10000;

/// `a * b`, or `u64::MAX` where the product does not fit.
pub open spec fn saturating_product(a: u64, b: u64) -> nat {
    if a * b > u64::MAX {
        u64::MAX as nat
    } else {
        (a * b) as nat
    }
}

fn saturating_mul(a: u64, b: u64) -> (r: u64)
    ensures
        r as nat == saturating_product(a, b),
{
    match a.checked_mul(b) {
        Some(p) => p,
        None => u64::MAX,
    }
}

/// Converts EVM gas to ink, at `ink_price` (ink per gas, in basis points).
pub fn gas_to_ink(gas: u64, ink_price: u64) -> (r: u64)
    requires
        ink_price > 0,
    ensures
        r as nat == saturating_product(gas, INK_BASIS) / (ink_price as nat),
{
    saturating_mul(gas, INK_BASIS) / ink_price
}

/// Converts ink to EVM gas, at `ink_price` (ink per gas, in basis points).
pub fn ink_to_gas(ink: u64, ink_price: u64) -> (r: u64)
    ensures
        r as nat == saturating_product(ink, ink_price) / (INK_BASIS as nat),
{
    saturating_mul(ink, ink_price) / INK_BASIS
}

} // verus!
