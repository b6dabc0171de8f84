//! Saturating integer arithmetic.
use vstd::prelude::*;

verus! {

/// The 64-bit value nearest to `v`.
pub open spec fn clamp(v: int) -> i64 {
    if v < i64::MIN {
        i64::MIN
    } else if v > i64::MAX {
        i64::MAX
    } else {
        v as i64
    }
}

/// `a + b`, held to the 64-bit range.
pub fn sat_add(a: i64, b: i64) -> (r: i64)
    ensures
        r == clamp(a + b),
{
    match a.checked_add(b) {
        Some(s) => s,
        None => if b > 0 { i64::MAX } else { i64::MIN },
    }
}

/// `a - b`, held to the 64-bit range.
pub fn sat_sub(a: i64, b: i64) -> (r: i64)
    ensures
        r == clamp(a - b),
{
    match a.checked_sub(b) {
        Some(s) => s,
        None => if b < 0 { i64::MAX } else { i64::MIN },
    }
}

/// `a * b`, held to the 64-bit range.
pub fn sat_mul(a: i64, b: i64) -> (r: i64)
    ensures
        r == clamp(a * b),
{
    match a.checked_mul(b) {
        Some(p) => p,
        None => {
            proof {
                lemma_product_sign(a as int, b as int);
            }
            if (a < 0) == (b < 0) { i64::MAX } else { i64::MIN }
        },
    }
}

/// A product of two numbers of one sign is not negative; of two numbers of
/// different signs, not positive.
pub proof fn lemma_product_sign(a: int, b: int)
    ensures
        (a < 0) == (b < 0) ==> a * b >= 0,
        (a < 0) != (b < 0) ==> a * b <= 0,
{
    assert((a < 0) == (b < 0) ==> a * b >= 0) by (nonlinear_arith);
    assert((a < 0) != (b < 0) ==> a * b <= 0) by (nonlinear_arith);
}

/// Subtracting one after another is subtracting the sum, also where the
/// range's lower end is reached.
pub proof fn lemma_clamp_sub_step(x: i64, n: nat)
    ensures
        clamp(clamp(x - n) - 1) == clamp(x - (n + 1)),
{
}

} // verus!
