//! Fixed-point numbers used for values, probabilities and scores.
//!
//! A value `v` stands for the real number `v / ONE`. Values backed up the
//! tree lie in `[-ONE, ONE]`; probabilities are non-negative.
use vstd::prelude::*;

verus! {

/// The fixed-point representation of 1.0.
pub const ONE: u64 = 1_000_000;

/// The representation of 1.0 as a signed value.
pub const ONE_I: i64 = 1_000_000;

/// The quotient `total / count`, truncated toward zero.
pub open spec fn ratio(total: int, count: int) -> int {
    if total >= 0 {
        total / count
    } else {
        -((-total) / count)
    }
}

/// `r` is the integer square root of `n`: the largest `r` with `r * r <= n`.
pub open spec fn is_sqrt_floor(n: int, r: int) -> bool {
    &&& 0 <= r
    &&& r * r <= n
    &&& n < (r + 1) * (r + 1)
}

/// The integer square root of `n`.
pub open spec fn sqrt_floor(n: nat) -> nat {
    choose|r: nat| is_sqrt_floor(n as int, r as int)
}

/// The integer square root is unique.
pub proof fn lemma_sqrt_floor_unique(n: int, r1: int, r2: int)
    requires
        is_sqrt_floor(n, r1),
        is_sqrt_floor(n, r2),
    ensures
        r1 == r2,
{
    if r1 < r2 {
        assert((r1 + 1) * (r1 + 1) <= r2 * r2) by (nonlinear_arith)
            requires
                0 <= r1 + 1 <= r2,
        ;
    } else if r2 < r1 {
        assert((r2 + 1) * (r2 + 1) <= r1 * r1) by (nonlinear_arith)
            requires
                0 <= r2 + 1 <= r1,
        ;
    }
}

/// Any `r` that meets the definition is the integer square root.
pub proof fn lemma_sqrt_floor_is(n: nat, r: nat)
    requires
        is_sqrt_floor(n as int, r as int),
    ensures
        sqrt_floor(n) == r,
{
    let s = sqrt_floor(n);
    assert(is_sqrt_floor(n as int, s as int));
    lemma_sqrt_floor_unique(n as int, r as int, s as int);
}

/// Inputs of `isqrt` stay below `2^82`.
pub const SQRT_INPUT_LIMIT: u128 = 0x4_0000_0000_0000_0000_0000;

/// Computes the integer square root of `n` by bisection.
pub fn isqrt(n: u128) -> (r: u128)
    requires
        n < SQRT_INPUT_LIMIT,
    ensures
        r == sqrt_floor(n as nat),
        r <= 0x200_0000_0000,
{
    let mut lo: u128 = 0;
    let mut hi: u128 = 0x200_0000_0000;
    assert(n < hi * hi);
    while hi - lo > 1
        invariant
            lo < hi <= 0x200_0000_0000,
            lo * lo <= n,
            n < hi * hi,
        decreases hi - lo,
    {
        let mid: u128 = lo + (hi - lo) / 2;
        assert(mid * mid <= 0x200_0000_0000 * 0x200_0000_0000) by (nonlinear_arith)
            requires
                mid < 0x200_0000_0000,
        ;
        if mid * mid <= n {
            lo = mid;
        } else {
            hi = mid;
        }
    }
    assert(hi == lo + 1);
    proof {
        lemma_sqrt_floor_is(n as nat, lo as nat);
    }
    lo
}

/// Computes `total / count` truncated toward zero, as `ratio` states it.
pub fn ratio_of(total: i64, count: u64) -> (r: i64)
    requires
        count > 0,
    ensures
        r == ratio(total as int, count as int),
{
    if total >= 0 {
        (total as u64 / count) as i64
    } else if total == i64::MIN {
        let q: u64 = 0x8000_0000_0000_0000u64 / count;
        if q == 0x8000_0000_0000_0000u64 {
            i64::MIN
        } else {
            -(q as i64)
        }
    } else {
        -(((-total) as u64 / count) as i64)
    }
}

} // verus!
