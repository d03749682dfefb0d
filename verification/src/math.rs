//! Bounded integers in contracts.

use vstd::prelude::*;

verus! {

/// The smaller of two numbers.
pub open spec fn least(a: int, b: int) -> int {
    if a <= b {
        a
    } else {
        b
    }
}

/// `n`, held at the largest `u64`.
pub open spec fn saturated(n: int) -> u64 {
    least(n, u64::MAX as int) as u64
}

/// `n`, held at the largest `u128`.
pub open spec fn saturated128(n: int) -> u128 {
    least(n, u128::MAX as int) as u128
}

/// `n` modulo the size of a `u64`: what a counter that wraps around shows.
pub open spec fn wrapped(n: int) -> u64 {
    (n % 0x1_0000_0000_0000_0000) as u64
}

/// `a * b`, held at the largest `u128`.
pub fn saturating_product(a: u128, b: u128) -> (p: u128)
    ensures
        p == saturated128(a * b),
{
    match a.checked_mul(b) {
        Some(p) => p,
        None => u128::MAX,
    }
}

/// Holding a number at the largest `u64` or `u128` leaves alone what fits, and is that
/// largest number for all else.
pub proof fn law_saturation_keeps_what_fits(n: nat)
    ensures
        n <= u64::MAX ==> saturated(n as int) == n,
        n > u64::MAX ==> saturated(n as int) == u64::MAX,
        n <= u128::MAX ==> saturated128(n as int) == n,
        n > u128::MAX ==> saturated128(n as int) == u128::MAX,
{
}

/// A counter that wraps around shows a number as long as it fits, and goes on from zero
/// behind the largest one.
pub proof fn law_wrapping_keeps_what_fits(n: nat)
    ensures
        n <= u64::MAX ==> wrapped(n as int) == n,
        wrapped(n + u64::MAX + 1) == wrapped(n as int),
{
}

} // verus!
