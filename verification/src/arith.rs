//! Integer arithmetic shared by the rest of the library: products within
//! bounds, division that rounds toward zero, and the integer square root.

use vstd::prelude::*;

verus! {

/// The product of two bounded integers is bounded by the product of the bounds.
pub proof fn lemma_mul_bound(a: int, b: int, a_max: int, b_max: int)
    by (nonlinear_arith)
    requires
        -a_max <= a <= a_max,
        -b_max <= b <= b_max,
    ensures
        -(a_max * b_max) <= a * b <= a_max * b_max,
{
}

/// The product of two non-negative bounded integers lies between zero and the
/// product of the bounds.
pub proof fn lemma_mul_bound_nonneg(a: int, b: int, a_max: int, b_max: int)
    by (nonlinear_arith)
    requires
        0 <= a <= a_max,
        0 <= b <= b_max,
    ensures
        0 <= a * b <= a_max * b_max,
{
}

/// The product of two `i64` values: at most `2^126`, reached only by
/// `i64::MIN * i64::MIN`, and at least `-(2^126 - 2^63)`.
pub proof fn lemma_i64_product(a: i64, b: i64)
    by (nonlinear_arith)
    ensures
        -0x3fff_ffff_ffff_ffff_8000_0000_0000_0000 <= a * b,
        a * b <= 0x4000_0000_0000_0000_0000_0000_0000_0000,
{
    if a >= 0 && b >= 0 {
        assert(a * b <= 0x7fff_ffff_ffff_ffff * 0x7fff_ffff_ffff_ffff);
    } else if a < 0 && b < 0 {
        assert((-a) * (-b) <= 0x8000_0000_0000_0000 * 0x8000_0000_0000_0000);
    } else if a < 0 {
        assert((-a) * b <= 0x8000_0000_0000_0000 * 0x7fff_ffff_ffff_ffff);
    } else {
        assert(a * (-b) <= 0x7fff_ffff_ffff_ffff * 0x8000_0000_0000_0000);
    }
}

/// The quotient of `a` by a positive `b`, rounded toward zero.
pub open spec fn trunc_div(a: int, b: int) -> int
    recommends
        b > 0,
{
    if a >= 0 {
        a / b
    } else {
        -((-a) / b)
    }
}

/// Rounding toward zero never moves a quotient away from zero, and
/// `trunc_div(a, b) * b` differs from `a` by less than `b`.
pub proof fn lemma_trunc_div_bounds(a: int, b: int)
    requires
        b > 0,
    ensures
        a >= 0 ==> 0 <= trunc_div(a, b) * b <= a < (trunc_div(a, b) + 1) * b,
        a <= 0 ==> (trunc_div(a, b) - 1) * b < a <= trunc_div(a, b) * b <= 0,
{
    if a >= 0 {
        lemma_floor_div_bounds(a, b);
        let q = a / b;
        assert((q - 1) * b == q * b - b) by (nonlinear_arith);
    } else {
        lemma_floor_div_bounds(-a, b);
        let q = (-a) / b;
        assert((-q) * b == -(q * b)) by (nonlinear_arith);
        assert((-q - 1) * b == -((q + 1) * b)) by (nonlinear_arith);
    }
}

/// For a positive divisor, `a / b` is the floor of the quotient.
pub proof fn lemma_floor_div_bounds(a: int, b: int)
    requires
        b > 0,
    ensures
        (a / b) * b <= a < (a / b + 1) * b,
        a >= 0 ==> a / b >= 0,
{
    vstd::arithmetic::div_mod::lemma_fundamental_div_mod(a, b);
    vstd::arithmetic::div_mod::lemma_mod_bound(a, b);
    assert((a / b) * b == b * (a / b)) by (nonlinear_arith);
    assert((a / b + 1) * b == b * (a / b) + b) by (nonlinear_arith);
    if a >= 0 {
        vstd::arithmetic::div_mod::lemma_div_pos_is_pos(a, b);
    }
}

/// An integer `q` with `q * b <= a < (q + 1) * b` is the floor of `a / b`.
pub proof fn lemma_floor_div_unique(a: int, b: int, q: int)
    requires
        b > 0,
        q * b <= a < (q + 1) * b,
    ensures
        a / b == q,
{
    let r = a - q * b;
    assert(0 <= r < b) by (nonlinear_arith)
        requires
            r == a - q * b,
            q * b <= a < (q + 1) * b,
    ;
    assert(a == q * b + r);
    vstd::arithmetic::div_mod::lemma_fundamental_div_mod_converse(a, b, q, r);
}

/// `r` is the square root of `s`, rounded down.
pub open spec fn is_floor_sqrt(r: int, s: int) -> bool {
    0 <= r && r * r <= s < (r + 1) * (r + 1)
}

/// The square root of `s`, rounded down (for `s >= 0`).
pub open spec fn floor_sqrt(s: int) -> int {
    choose|r: int| is_floor_sqrt(r, s)
}

/// Every natural number has a rounded-down square root.
pub proof fn lemma_floor_sqrt_exists(s: int)
    requires
        s >= 0,
    ensures
        is_floor_sqrt(floor_sqrt(s), s),
    decreases s,
{
    if s == 0 {
        assert(is_floor_sqrt(0, 0));
    } else {
        lemma_floor_sqrt_exists(s - 1);
        let r = floor_sqrt(s - 1);
        if (r + 1) * (r + 1) <= s {
            assert((r + 2) * (r + 2) > (r + 1) * (r + 1)) by (nonlinear_arith)
                requires
                    r >= 0,
            ;
            assert(is_floor_sqrt(r + 1, s));
        } else {
            assert(is_floor_sqrt(r, s));
        }
    }
}

/// At most one integer is the rounded-down square root of `s`.
pub proof fn lemma_floor_sqrt_unique(r1: int, r2: int, s: int)
    by (nonlinear_arith)
    requires
        is_floor_sqrt(r1, s),
        is_floor_sqrt(r2, s),
    ensures
        r1 == r2,
{
    if r1 < r2 {
        assert((r1 + 1) * (r1 + 1) <= r2 * r2);
    } else if r2 < r1 {
        assert((r2 + 1) * (r2 + 1) <= r1 * r1);
    }
}

/// An integer that satisfies [`is_floor_sqrt`] is [`floor_sqrt`].
pub proof fn lemma_floor_sqrt_is(r: int, s: int)
    requires
        is_floor_sqrt(r, s),
    ensures
        floor_sqrt(s) == r,
{
    lemma_floor_sqrt_unique(r, floor_sqrt(s), s);
}

/// The square root of `s`, rounded down.
pub fn isqrt(s: u128) -> (r: u64)
    ensures
        is_floor_sqrt(r as int, s as int),
        r == floor_sqrt(s as int),
{
    let mut lo: u128 = 0;
    let mut hi: u128 = 0x1_0000_0000_0000_0000;
    assert(0x1_0000_0000_0000_0000int * 0x1_0000_0000_0000_0000int > u128::MAX)
        by (nonlinear_arith);
    while hi - lo > 1
        invariant
            lo < hi <= 0x1_0000_0000_0000_0000,
            lo * lo <= s,
            s < hi * hi,
        decreases hi - lo,
    {
        let mid: u128 = lo + (hi - lo) / 2;
        proof {
            lemma_mul_bound_nonneg(
                mid as int,
                mid as int,
                0xffff_ffff_ffff_ffff,
                0xffff_ffff_ffff_ffff,
            );
        }
        if mid * mid <= s {
            lo = mid;
        } else {
            hi = mid;
        }
    }
    proof {
        lemma_floor_sqrt_is(lo as int, s as int);
    }
    lo as u64
}

} // verus!
