//! Saturating integer geometry.
//!
//! All widths, heights and coordinates are carried as `u64` milli-pixels.
//! Sums and products saturate at `u64::MAX`, which keeps every geometric
//! operation total; the saturation point is far beyond any real document.

use vstd::prelude::*;

verus! {

/// Saturating addition over the `u64` range, as a mathematical function.
pub open spec fn sat_add(a: nat, b: nat) -> nat {
    if a + b > u64::MAX { u64::MAX as nat } else { (a + b) as nat }
}

/// Saturating multiplication over the `u64` range, as a mathematical function.
pub open spec fn sat_mul(a: nat, b: nat) -> nat {
    if a * b > u64::MAX { u64::MAX as nat } else { (a * b) as nat }
}

pub proof fn lemma_sat_add_bounds(a: nat, b: nat)
    ensures
        sat_add(a, b) <= u64::MAX,
        a <= u64::MAX && b <= u64::MAX ==> sat_add(a, b) >= a && sat_add(a, b) >= b,
{
}

/// Exact addition and saturating addition agree below the saturation point.
pub proof fn lemma_sat_add_exact(a: nat, b: nat)
    requires
        a + b <= u64::MAX,
    ensures
        sat_add(a, b) == a + b,
{
}

/// Saturating subtraction: zero when the subtrahend exceeds the minuend.
pub open spec fn sat_sub(a: nat, b: nat) -> nat {
    if a < b {
        0
    } else {
        (a - b) as nat
    }
}

pub fn sat_sub_u64(a: u64, b: u64) -> (r: u64)
    ensures
        r == sat_sub(a as nat, b as nat),
{
    a.saturating_sub(b)
}

/// Multiplying one more factor into a saturating product is a saturating
/// addition of the multiplicand.
pub proof fn lemma_sat_mul_step(n: nat, w: nat)
    requires
        n >= 1,
    ensures
        sat_mul(n, w) == sat_add(sat_mul((n - 1) as nat, w), w),
{
    assert((n - 1) * w + w == n * w) by (nonlinear_arith)
        requires
            n >= 1,
    ;
    assert((n - 1) * w <= n * w) by (nonlinear_arith)
        requires
            n >= 1,
    ;
    if n * w > u64::MAX {
        if (n - 1) * w > u64::MAX {
            assert(sat_mul((n - 1) as nat, w) == u64::MAX);
            assert(w > 0);
        }
    }
}

pub fn sat_add_u64(a: u64, b: u64) -> (r: u64)
    ensures
        r == sat_add(a as nat, b as nat),
{
    a.saturating_add(b)
}

pub fn sat_mul_u64(a: u64, b: u64) -> (r: u64)
    ensures
        r == sat_mul(a as nat, b as nat),
{
    match a.checked_mul(b) {
        Some(p) => p,
        None => u64::MAX,
    }
}

} // verus!
