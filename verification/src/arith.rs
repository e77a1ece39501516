//! Integer building blocks: floor square root, quotient rounded to nearest,
//! and running sums over sequences.

use vstd::arithmetic::div_mod::*;
use vstd::arithmetic::mul::*;
use vstd::prelude::*;

verus! {

/// Floor of the square root of `x`, found two bits at a time.
pub open spec fn int_sqrt(x: nat) -> nat
    decreases x,
{
    if x == 0 {
        0
    } else {
        let low = 2 * int_sqrt(x / 4);
        if (low + 1) * (low + 1) <= x {
            low + 1
        } else {
            low
        }
    }
}

/// `int_sqrt(x)` is the one natural number whose square is at most `x` while
/// the square of its successor is above `x`.
pub proof fn lemma_int_sqrt_bounds(x: nat)
    ensures
        int_sqrt(x) * int_sqrt(x) <= x,
        x < (int_sqrt(x) + 1) * (int_sqrt(x) + 1),
    decreases x,
{
    if x != 0 {
        let q = x / 4;
        lemma_int_sqrt_bounds(q);
        let s = int_sqrt(q);
        let low = 2 * s;
        assert(4 * q <= x < 4 * q + 4);
        assert(low * low == 4 * (s * s)) by (nonlinear_arith)
            requires
                low == 2 * s,
        ;
        assert((low + 2) * (low + 2) == 4 * ((s + 1) * (s + 1))) by (nonlinear_arith)
            requires
                low == 2 * s,
        ;
        assert(low * low <= x);
        assert(x < (low + 2) * (low + 2));
        if (low + 1) * (low + 1) <= x {
            let r = int_sqrt(x);
            assert(r == low + 1);
            assert(r * r <= x);
            assert((r + 1) * (r + 1) == (low + 2) * (low + 2));
        } else {
            let r = int_sqrt(x);
            assert(r == low);
            assert(r * r <= x);
            assert(x < (r + 1) * (r + 1));
        }
    } else {
        let r = int_sqrt(x);
        assert(r * r == 0 && (r + 1) * (r + 1) == 1) by (nonlinear_arith)
            requires
                r == 0,
        ;
    }
}

/// Any `r` squeezed like the floor square root is the floor square root.
pub proof fn lemma_int_sqrt_unique(x: nat, r: nat)
    requires
        r * r <= x,
        x < (r + 1) * (r + 1),
    ensures
        r == int_sqrt(x),
{
    lemma_int_sqrt_bounds(x);
    let s = int_sqrt(x);
    if r < s {
        assert((r + 1) * (r + 1) <= s * s) by (nonlinear_arith)
            requires
                r + 1 <= s,
        ;
    } else if s < r {
        assert((s + 1) * (s + 1) <= r * r) by (nonlinear_arith)
            requires
                s + 1 <= r,
        ;
    }
}

/// The floor square root never decreases when its argument grows.
pub proof fn lemma_int_sqrt_monotone(x: nat, y: nat)
    requires
        x <= y,
    ensures
        int_sqrt(x) <= int_sqrt(y),
{
    lemma_int_sqrt_bounds(x);
    lemma_int_sqrt_bounds(y);
    let a = int_sqrt(x);
    let b = int_sqrt(y);
    if b < a {
        assert((b + 1) * (b + 1) <= a * a) by (nonlinear_arith)
            requires
                b + 1 <= a,
        ;
    }
}

/// Floor square root of a 128-bit value, by bisection on the 64-bit range.
pub fn isqrt(x: u128) -> (root: u128)
    ensures
        root == int_sqrt(x as nat),
        root < 0x1_0000_0000_0000_0000,
{
    let mut low: u128 = 0;
    let mut high: u128 = 0x1_0000_0000_0000_0000;
    assert(0x1_0000_0000_0000_0000 * 0x1_0000_0000_0000_0000 > x) by (nonlinear_arith)
        requires
            x <= u128::MAX,
    ;
    while high - low > 1
        invariant
            low < high <= 0x1_0000_0000_0000_0000,
            low * low <= x,
            x < high * high,
        decreases high - low,
    {
        let mid: u128 = low + (high - low) / 2;
        assert(mid * mid <= 0xffff_ffff_ffff_ffff * 0xffff_ffff_ffff_ffff) by (nonlinear_arith)
            requires
                0 <= mid <= 0xffff_ffff_ffff_ffff,
        ;
        if mid * mid <= x {
            low = mid;
        } else {
            high = mid;
        }
    }
    proof {
        lemma_int_sqrt_unique(x as nat, low as nat);
    }
    low
}

/// `numerator / denominator` rounded to the nearest integer, halves upward.
pub open spec fn rounded_quotient(numerator: int, denominator: int) -> int {
    (2 * numerator + denominator) / (2 * denominator)
}

/// Rounding to nearest keeps the order of the numerators.
pub proof fn lemma_rounded_quotient_monotone(a: int, b: int, d: int)
    requires
        a <= b,
        d > 0,
    ensures
        rounded_quotient(a, d) <= rounded_quotient(b, d),
{
    lemma_div_is_ordered(2 * a + d, 2 * b + d, 2 * d);
}

/// A part of a whole, scaled to `scale` and rounded, stays within `0..=scale`.
pub proof fn lemma_rounded_quotient_of_part(scale: int, part: int, whole: int)
    requires
        0 <= scale,
        0 <= part <= whole,
        0 < whole,
    ensures
        0 <= rounded_quotient(scale * part, whole) <= scale,
{
    let d = 2 * whole;
    assert(0 <= scale * part <= scale * whole) by (nonlinear_arith)
        requires
            0 <= scale,
            0 <= part <= whole,
    ;
    lemma_div_is_ordered(0, 2 * (scale * part) + whole, d);
    lemma_div_is_ordered(2 * (scale * part) + whole, 2 * (scale * whole) + whole, d);
    assert(2 * (scale * whole) + whole == scale * d + whole) by (nonlinear_arith)
        requires
            d == 2 * whole,
    ;
    lemma_fundamental_div_mod_converse(scale * d + whole, d, scale, whole);
}

/// A common positive factor of numerator and denominator does not change the
/// rounded quotient.
pub proof fn lemma_rounded_quotient_cancel(a: int, b: int, k: int)
    requires
        0 <= a,
        0 < b,
        0 < k,
    ensures
        rounded_quotient(a * k, b * k) == rounded_quotient(a, b),
{
    assert(2 * (a * k) + b * k == k * (2 * a + b)) by (nonlinear_arith);
    assert(2 * (b * k) == k * (2 * b)) by (nonlinear_arith);
    lemma_truncate_middle(2 * a + b, k, 2 * b);
    // k * ((2a + b) % 2b) == (k * (2a + b)) % (k * 2b)
    lemma_fundamental_div_mod(2 * a + b, 2 * b);
    let q = (2 * a + b) / (2 * b);
    let r = (2 * a + b) % (2 * b);
    assert(k * (2 * a + b) == (k * (2 * b)) * q + k * r) by (nonlinear_arith)
        requires
            2 * a + b == (2 * b) * q + r,
    ;
    assert(0 <= k * r < k * (2 * b)) by (nonlinear_arith)
        requires
            0 <= r < 2 * b,
            0 < k,
    ;
    lemma_fundamental_div_mod_converse(k * (2 * a + b), k * (2 * b), q, k * r);
}

/// `numerator / denominator` rounded to nearest, on 128-bit values.
pub fn round_div(numerator: u128, denominator: u128) -> (quotient: u128)
    requires
        denominator > 0,
        2 * numerator + 2 * denominator <= u128::MAX,
    ensures
        quotient == rounded_quotient(numerator as int, denominator as int),
{
    (2 * numerator + denominator) / (2 * denominator)
}

/// Sum of the first `count` entries of `values`.
pub open spec fn prefix_sum(values: Seq<int>, count: int) -> int
    decreases count,
{
    if count <= 0 {
        0
    } else {
        prefix_sum(values, count - 1) + values[count - 1]
    }
}

/// Sum of all entries of `values`.
pub open spec fn total(values: Seq<int>) -> int {
    prefix_sum(values, values.len() as int)
}

/// Two sequences that agree on their first `count` entries have the same
/// prefix sum there.
pub proof fn lemma_prefix_sum_agrees(a: Seq<int>, b: Seq<int>, count: int)
    requires
        count <= a.len(),
        count <= b.len(),
        forall|i: int| 0 <= i < count ==> a[i] == b[i],
    ensures
        prefix_sum(a, count) == prefix_sum(b, count),
    decreases count,
{
    if count > 0 {
        lemma_prefix_sum_agrees(a, b, count - 1);
    }
}

/// Prefix sums of entries within `low..=high` lie within `count` times those
/// bounds.
pub proof fn lemma_prefix_sum_bounds(values: Seq<int>, count: int, low: int, high: int)
    requires
        0 <= count <= values.len(),
        forall|i: int| 0 <= i < count ==> low <= #[trigger] values[i] <= high,
    ensures
        count * low <= prefix_sum(values, count) <= count * high,
    decreases count,
{
    if count > 0 {
        lemma_prefix_sum_bounds(values, count - 1, low, high);
        assert((count - 1) * low + low == count * low) by (nonlinear_arith);
        assert((count - 1) * high + high == count * high) by (nonlinear_arith);
    } else {
        assert(count * low == 0 && count * high == 0) by (nonlinear_arith)
            requires
                count == 0,
        ;
    }
}

/// Prefix sums of non-negative entries grow with the prefix.
pub proof fn lemma_prefix_sum_monotone(values: Seq<int>, shorter: int, longer: int)
    requires
        0 <= shorter <= longer <= values.len(),
        forall|i: int| 0 <= i < longer ==> 0 <= #[trigger] values[i],
    ensures
        0 <= prefix_sum(values, shorter) <= prefix_sum(values, longer),
    decreases longer - shorter,
{
    if shorter < longer {
        lemma_prefix_sum_monotone(values, shorter, longer - 1);
    } else {
        lemma_prefix_sum_nonnegative(values, shorter);
    }
}

/// Prefix sums of non-negative entries are non-negative.
pub proof fn lemma_prefix_sum_nonnegative(values: Seq<int>, count: int)
    requires
        0 <= count <= values.len(),
        forall|i: int| 0 <= i < count ==> 0 <= #[trigger] values[i],
    ensures
        0 <= prefix_sum(values, count),
    decreases count,
{
    if count > 0 {
        lemma_prefix_sum_nonnegative(values, count - 1);
    }
}

/// Entry by entry no greater, a sequence has no greater prefix sum.
pub proof fn lemma_prefix_sum_ordered(smaller: Seq<int>, larger: Seq<int>, count: int)
    requires
        0 <= count <= smaller.len(),
        count <= larger.len(),
        forall|i: int| 0 <= i < count ==> smaller[i] <= larger[i],
    ensures
        prefix_sum(smaller, count) <= prefix_sum(larger, count),
    decreases count,
{
    if count > 0 {
        lemma_prefix_sum_ordered(smaller, larger, count - 1);
    }
}

/// The rounded quotient is the quotient rounded down, or one more.
pub proof fn lemma_rounded_quotient_near_floor(numerator: int, denominator: int)
    requires
        0 <= numerator,
        0 < denominator,
    ensures
        numerator / denominator <= rounded_quotient(numerator, denominator) <= numerator
            / denominator + 1,
{
    let q = numerator / denominator;
    let r = numerator % denominator;
    lemma_fundamental_div_mod(numerator, denominator);
    let d2 = 2 * denominator;
    let x = 2 * numerator + denominator;
    assert(x == d2 * q + (2 * r + denominator)) by (nonlinear_arith)
        requires
            numerator == denominator * q + r,
            d2 == 2 * denominator,
            x == 2 * numerator + denominator,
    ;
    if 2 * r + denominator < d2 {
        lemma_fundamental_div_mod_converse(x, d2, q, 2 * r + denominator);
    } else {
        assert(x == d2 * (q + 1) + (2 * r - denominator)) by (nonlinear_arith)
            requires
                x == d2 * q + (2 * r + denominator),
                d2 == 2 * denominator,
        ;
        lemma_fundamental_div_mod_converse(x, d2, q + 1, 2 * r - denominator);
    }
}

/// Every entry of a sequence times a common factor.
pub open spec fn scaled(values: Seq<int>, factor: int) -> Seq<int> {
    Seq::new(values.len(), |i: int| factor * values[i])
}

/// The prefix sums of a scaled sequence are the prefix sums scaled.
pub proof fn lemma_prefix_sum_scaled(values: Seq<int>, factor: int, count: int)
    requires
        0 <= count <= values.len(),
    ensures
        prefix_sum(scaled(values, factor), count) == factor * prefix_sum(values, count),
    decreases count,
{
    if count > 0 {
        lemma_prefix_sum_scaled(values, factor, count - 1);
        assert(factor * (prefix_sum(values, count - 1) + values[count - 1]) == factor
            * prefix_sum(values, count - 1) + factor * values[count - 1]) by (nonlinear_arith);
    } else {
        assert(factor * 0 == 0) by (nonlinear_arith);
    }
}

} // verus!
