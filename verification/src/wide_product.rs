//! Comparison of products that do not fit in 128 bits.
//!
//! A product of two factors below `2^96` is held as two limbs: a high limb
//! and a low limb below `2^96`.

use vstd::prelude::*;

verus! {

/// `2^48`, at which a factor is split in two.
pub const HALF: u128 = 0x1_0000_0000_0000;

/// `2^96`, the weight of the high limb and the bound on a factor.
pub const LIMB: u128 = 0x1_0000_0000_0000_0000_0000_0000;

/// `(a * b) * (c * d) == (a * c) * (b * d)`.
pub proof fn lemma_swap_inner(a: int, b: int, c: int, d: int)
    ensures
        (a * b) * (c * d) == (a * c) * (b * d),
{
    assert((a * b) * (c * d) == (a * c) * (b * d)) by (nonlinear_arith);
}

/// A product of two values below `m` and `n` is below `m * n`.
proof fn lemma_product_below(u: int, v: int, m: int, n: int)
    requires
        0 <= u < m,
        0 <= v < n,
    ensures
        0 <= u * v < m * n,
{
    assert(0 <= u * v < m * n) by (nonlinear_arith)
        requires 0 <= u < m, 0 <= v < n;
}

/// The product of two split factors, term by term.
proof fn lemma_split_product(a1: int, a0: int, b1: int, b0: int, t: int)
    ensures
        (a1 * t + a0) * (b1 * t + b0) == (a1 * b1) * (t * t) + (a1 * b0 + a0 * b1) * t + a0 * b0,
{
    let ah = a1 * t;
    let bh = b1 * t;
    assert((ah + a0) * (bh + b0) == ah * bh + ah * b0 + a0 * bh + a0 * b0) by (nonlinear_arith);
    lemma_swap_inner(a1, t, b1, t);
    assert(ah * b0 == (a1 * b0) * t) by (nonlinear_arith)
        requires ah == a1 * t;
    assert(a0 * bh == (a0 * b1) * t) by (nonlinear_arith)
        requires bh == b1 * t;
    assert((a1 * b0) * t + (a0 * b1) * t == (a1 * b0 + a0 * b1) * t) by (nonlinear_arith);
}

/// The product `a * b` as a high limb and a low limb below `LIMB`.
fn wide_product(a: u128, b: u128) -> (limbs: (u128, u128))
    requires
        a < LIMB,
        b < LIMB,
    ensures
        a * b == limbs.0 * LIMB + limbs.1,
        limbs.1 < LIMB,
{
    let a1: u128 = a / HALF;
    let a0: u128 = a % HALF;
    let b1: u128 = b / HALF;
    let b0: u128 = b % HALF;
    proof {
        assert(HALF * HALF == LIMB);
        lemma_product_below(a1 as int, b1 as int, HALF as int, HALF as int);
        lemma_product_below(a1 as int, b0 as int, HALF as int, HALF as int);
        lemma_product_below(a0 as int, b1 as int, HALF as int, HALF as int);
        lemma_product_below(a0 as int, b0 as int, HALF as int, HALF as int);
        lemma_split_product(a1 as int, a0 as int, b1 as int, b0 as int, HALF as int);
    }
    let high: u128 = a1 * b1;
    let middle: u128 = a1 * b0 + a0 * b1;
    let low: u128 = a0 * b0;
    let m1: u128 = middle / HALF;
    let m0: u128 = middle % HALF;
    let rest: u128 = m0 * HALF + low;
    proof {
        assert(a == a1 * HALF + a0 && b == b1 * HALF + b0);
        assert(middle == m1 * HALF + m0);
        assert(middle * HALF == m1 * LIMB + m0 * HALF) by (nonlinear_arith)
            requires middle == m1 * HALF + m0, HALF * HALF == LIMB;
        assert(a * b == high * LIMB + middle * HALF + low);
    }
    (high + m1 + rest / LIMB, rest % LIMB)
}

/// Whether `a * b <= c * d`, for factors below `LIMB`.
pub fn product_le(a: u128, b: u128, c: u128, d: u128) -> (le: bool)
    requires
        a < LIMB,
        b < LIMB,
        c < LIMB,
        d < LIMB,
    ensures
        le == (a * b <= c * d),
{
    let left = wide_product(a, b);
    let right = wide_product(c, d);
    left.0 < right.0 || (left.0 == right.0 && left.1 <= right.1)
}

} // verus!
