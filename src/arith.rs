//! Integer helpers: truncating division and integer square root.
use vstd::prelude::*;
use vstd::arithmetic::div_mod::{
    lemma_div_is_ordered, lemma_div_by_multiple, lemma_div_pos_is_pos, lemma_basic_div, lemma_div_by_self,
    lemma_fundamental_div_mod_converse_div, lemma_fundamental_div_mod_converse_mod, lemma_fundamental_div_mod,
    lemma_mod_bound,
};

verus! {

/// Inputs of `isqrt` stay below this bound (2^126).
pub const SQRT_INPUT_LIMIT: u128 = 0x4000_0000_0000_0000_0000_0000_0000_0000;

/// Division rounding toward zero, as Rust's `/` does on signed integers.
pub open spec fn tdiv(a: int, b: int) -> int {
    if a >= 0 {
        a / b
    } else {
        -((-a) / b)
    }
}

/// Division rounding away from zero: a non-zero quotient never vanishes.
pub open spec fn adiv(a: int, b: int) -> int {
    if a >= 0 {
        (a + b - 1) / b
    } else {
        -((-a + b - 1) / b)
    }
}

/// `r` is the integer square root of `x`: the largest `r` with `r * r <= x`.
pub open spec fn is_isqrt(x: int, r: int) -> bool {
    0 <= r && r * r <= x && x < (r + 1) * (r + 1)
}

/// The integer square root of a non-negative `x`.
pub open spec fn sqrt_floor(x: int) -> int {
    choose|r: int| is_isqrt(x, r)
}

/// There is exactly one integer square root, and `sqrt_floor` is it.
pub proof fn lemma_sqrt_floor_unique(x: int, r: int)
    requires
        is_isqrt(x, r),
    ensures
        sqrt_floor(x) == r,
{
    let s = sqrt_floor(x);
    assert(is_isqrt(x, s));
    if s < r {
        assert((s + 1) * (s + 1) <= r * r) by (nonlinear_arith)
            requires 0 <= s < r;
    } else if r < s {
        assert((r + 1) * (r + 1) <= s * s) by (nonlinear_arith)
            requires 0 <= r < s;
    }
}

/// Every non-negative integer has an integer square root.
pub proof fn lemma_sqrt_floor_exists(x: int)
    requires
        x >= 0,
    ensures
        is_isqrt(x, sqrt_floor(x)),
{
    let r = sqrt_witness(x);
    lemma_sqrt_floor_unique(x, r);
}

proof fn sqrt_witness(x: int) -> (r: int)
    requires
        x >= 0,
    ensures
        is_isqrt(x, r),
    decreases x,
{
    if x == 0 {
        assert(is_isqrt(0, 0)) by (nonlinear_arith);
        0
    } else {
        let p = sqrt_witness(x - 1);
        assert(p * p <= x);
        if (p + 1) * (p + 1) <= x {
            assert(x < (p + 2) * (p + 2)) by (nonlinear_arith)
                requires x - 1 < (p + 1) * (p + 1), p >= 0;
            assert(is_isqrt(x, p + 1));
            p + 1
        } else {
            p
        }
    }
}

/// A quotient rounded toward zero is bounded by any bound on the exact one.
pub proof fn lemma_tdiv_bound(a: int, b: int, m: int)
    requires
        b > 0,
        m >= 0,
        -(m * b) <= a <= m * b,
    ensures
        -m <= tdiv(a, b) <= m,
{
    lemma_div_by_multiple(m, b);
    if a >= 0 {
        lemma_div_is_ordered(a, m * b, b);
        lemma_div_pos_is_pos(a, b);
    } else {
        lemma_div_is_ordered(-a, m * b, b);
        lemma_div_pos_is_pos(-a, b);
    }
}

/// Rounding toward zero is symmetric about zero.
pub proof fn lemma_tdiv_neg(a: int, b: int)
    requires
        b > 0,
    ensures
        tdiv(-a, b) == -tdiv(a, b),
{
}

/// Rounding away from zero is symmetric about zero.
pub proof fn lemma_adiv_neg(a: int, b: int)
    requires
        b > 0,
    ensures
        adiv(-a, b) == -adiv(a, b),
{
    if a == 0 {
        lemma_basic_div(b - 1, b);
    }
}

/// A quotient rounded away from zero is bounded by any integer bound on
/// the exact one.
pub proof fn lemma_adiv_bound(a: int, b: int, m: int)
    requires
        b > 0,
        m >= 0,
        -(m * b) <= a <= m * b,
    ensures
        -m <= adiv(a, b) <= m,
{
    lemma_fundamental_div_mod_converse_div(m * b + b - 1, b, m, b - 1);
    let x = if a >= 0 { a } else { -a };
    lemma_div_is_ordered(x + b - 1, m * b + b - 1, b);
    lemma_div_pos_is_pos(x + b - 1, b);
}

/// A positive numerator gives a quotient of at least one.
pub proof fn lemma_adiv_positive(a: int, b: int)
    requires
        b > 0,
        a >= 1,
    ensures
        adiv(a, b) >= 1,
        adiv(-a, b) <= -1,
{
    lemma_div_by_self(b);
    lemma_div_is_ordered(b, a + b - 1, b);
}

/// A floor quotient is bounded by any integer bound on the exact one.
pub proof fn lemma_floor_div_bound(a: int, b: int, m: int)
    requires
        b > 0,
        m >= 0,
        -(m * b) <= a <= m * b,
    ensures
        -m <= a / b <= m,
{
    lemma_fundamental_div_mod_converse_div(m * b, b, m, 0);
    assert(-(m * b) == (-m) * b + 0) by (nonlinear_arith);
    lemma_fundamental_div_mod_converse_div(-(m * b), b, -m, 0);
    lemma_div_is_ordered(a, m * b, b);
    lemma_div_is_ordered(-(m * b), a, b);
}

/// A bound on a product from bounds on its factors.
pub proof fn lemma_mul_abs_bound(a: int, b: int, x: int, y: int)
    requires
        -x <= a <= x,
        -y <= b <= y,
    ensures
        -(x * y) <= a * b <= x * y,
{
    assert(-(x * y) <= a * b <= x * y) by (nonlinear_arith)
        requires -x <= a <= x, -y <= b <= y;
}

/// Division of `a` by a positive `b`, rounding toward zero.
pub fn div_trunc(a: i128, b: i128) -> (r: i128)
    requires
        b > 0,
        a > i128::MIN,
    ensures
        r == tdiv(a as int, b as int),
{
    if a >= 0 {
        a / b
    } else {
        -((-a) / b)
    }
}

/// Division of `a` by a positive `b`, rounding away from zero.
pub fn div_away(a: i128, b: i128) -> (r: i128)
    requires
        0 < b <= 0x4000_0000_0000_0000_0000_0000_0000_0000,
        -0x2000_0000_0000_0000_0000_0000_0000_0000 <= a <= 0x2000_0000_0000_0000_0000_0000_0000_0000,
    ensures
        r == adiv(a as int, b as int),
{
    proof {
        lemma_div_pos_is_pos(if a >= 0 { a + b - 1 } else { -a + b - 1 }, b as int);
        lemma_div_is_ordered(if a >= 0 { a + b - 1 } else { -a + b - 1 }, 0x6000_0000_0000_0000_0000_0000_0000_0000, b as int);
        lemma_div_is_ordered(0x6000_0000_0000_0000_0000_0000_0000_0000, 0x6000_0000_0000_0000_0000_0000_0000_0000, 1);
    }
    if a >= 0 {
        (a + b - 1) / b
    } else {
        -((-a + b - 1) / b)
    }
}

/// Floor division and its non-negative remainder, as `int`'s `/` and `%`
/// define them for a positive divisor.
pub fn div_floor(a: i128, b: i128) -> (r: (i128, i128))
    requires
        b > 0,
        a > i128::MIN,
    ensures
        r.0 == a as int / b as int,
        r.1 == a as int % b as int,
        0 <= r.1 < b,
{
    if a >= 0 {
        proof {
            lemma_mod_bound(a as int, b as int);
        }
        (a / b, a % b)
    } else {
        let q = (-a) / b;
        let m = (-a) % b;
        proof {
            lemma_fundamental_div_mod(-a as int, b as int);
            lemma_mod_bound(-a as int, b as int);
        }
        if m == 0 {
            proof {
                assert(a == (-q) * b + 0) by (nonlinear_arith)
                    requires -a == b * q + m, m == 0;
                lemma_fundamental_div_mod_converse_div(a as int, b as int, -q as int, 0);
                lemma_fundamental_div_mod_converse_mod(a as int, b as int, -q as int, 0);
            }
            (-q, 0)
        } else {
            proof {
                assert(a == (-q - 1) * b + (b - m)) by (nonlinear_arith)
                    requires -a == b * q + m;
                lemma_fundamental_div_mod_converse_div(a as int, b as int, -q - 1, b - m);
                lemma_fundamental_div_mod_converse_mod(a as int, b as int, -q - 1, b - m);
            }
            (-q - 1, b - m)
        }
    }
}

/// Largest `r` with `r * r <= x`.
pub fn isqrt(x: u128) -> (r: u128)
    requires
        x < SQRT_INPUT_LIMIT,
    ensures
        is_isqrt(x as int, r as int),
        r == sqrt_floor(x as int),
{
    let mut lo: u128 = 0;
    let mut hi: u128 = 0x8000_0000_0000_0000u128;
    assert(hi * hi > x) by (nonlinear_arith)
        requires hi == 0x8000_0000_0000_0000u128, x < SQRT_INPUT_LIMIT;
    while lo + 1 < hi
        invariant
            lo < hi <= 0x8000_0000_0000_0000u128,
            lo * lo <= x,
            x < hi * hi,
        decreases hi - lo,
    {
        let mid: u128 = lo + (hi - lo) / 2;
        assert(mid * mid <= 0x8000_0000_0000_0000u128 * 0x8000_0000_0000_0000u128) by (nonlinear_arith)
            requires mid <= 0x8000_0000_0000_0000u128;
        if mid * mid <= x {
            lo = mid;
        } else {
            hi = mid;
        }
    }
    assert(hi == lo + 1);
    proof {
        lemma_sqrt_floor_unique(x as int, lo as int);
    }
    lo
}

} // verus!
