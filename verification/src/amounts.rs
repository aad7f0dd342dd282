//! Token amount arithmetic as the contracts do it: a product that
//! overflows counts as zero.
use vstd::prelude::*;

verus! {

/// `a * b`, or 0 where that overflows.
pub open spec fn mul_or_zero(a: u128, b: u128) -> u128 {
    if a * b <= u128::MAX {
        (a * b) as u128
    } else {
        0
    }
}

pub fn checked_mul_or_zero(a: u128, b: u128) -> (r: u128)
    ensures
        r == mul_or_zero(a, b),
{
    match a.checked_mul(b) {
        Some(x) => x,
        None => 0,
    }
}

} // verus!
