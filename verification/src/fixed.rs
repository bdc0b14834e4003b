//! Scalar fixed-point arithmetic: the number system of the tracer.
//!
//! A scalar is an `i64` counting multiples of `1 / FX_ONE`. Multiplication
//! and division rescale with truncating (round-toward-zero) integer
//! division, and the square root is the exact integer square root of the
//! rescaled operand, so each operation has a precise mathematical meaning
//! that the contracts state directly.

use vstd::prelude::*;
use vstd::arithmetic::div_mod::lemma_div_is_ordered;
use vstd::arithmetic::div_mod::lemma_div_by_multiple;

verus! {

/// One whole unit: scalars carry 16 fractional bits.
pub const FX_ONE: i64 = 65536;

/// Truncating (round-toward-zero) division, the meaning of `/` on signed
/// machine integers. The spec-level `/` is Euclidean, so the negative case
/// is spelled out.
pub open spec fn tdiv(a: int, b: int) -> int {
    if a >= 0 {
        a / b
    } else {
        -((-a) / b)
    }
}

/// The product of two scalars, rescaled back down: `a * b / FX_ONE`,
/// rounded toward zero.
pub open spec fn fx_mul_spec(a: int, b: int) -> int {
    tdiv(a * b, FX_ONE as int)
}

/// The quotient of two scalars, rescaled up first: `a * FX_ONE / b`,
/// rounded toward zero.
pub open spec fn fx_div_spec(a: int, b: int) -> int {
    tdiv(a * (FX_ONE as int), b)
}

pub open spec fn fits_i64(x: int) -> bool {
    i64::MIN <= x <= i64::MAX
}

/// `r` is the integer square root of `n`, rounded down.
pub open spec fn is_sqrt_of(n: int, r: int) -> bool {
    0 <= r && r * r <= n && n < (r + 1) * (r + 1)
}

/// The integer square root, as a spec-level function.
pub open spec fn sqrt_floor(n: int) -> int {
    choose|r: int| #[trigger] is_sqrt_of(n, r)
}

/// The square root of a non-negative scalar: `sqrt(x / FX_ONE)` in real
/// terms is `sqrt(x * FX_ONE)` in raw units, rounded down.
pub open spec fn fx_sqrt_spec(x: int) -> int {
    sqrt_floor(x * (FX_ONE as int))
}

/// `x` pinned into `[lo, hi]`.
pub open spec fn clamp_spec(x: int, lo: int, hi: int) -> int {
    if x < lo {
        lo
    } else if x > hi {
        hi
    } else {
        x
    }
}

/// An integer square root exists for every non-negative integer.
pub proof fn lemma_sqrt_exists(n: nat)
    ensures
        exists|r: int| #[trigger] is_sqrt_of(n as int, r),
    decreases n,
{
    if n == 0 {
        assert(is_sqrt_of(0, 0));
    } else {
        lemma_sqrt_exists((n - 1) as nat);
        let r = choose|r: int| #[trigger] is_sqrt_of(n as int - 1, r);
        if (r + 1) * (r + 1) <= n {
            assert(is_sqrt_of(n as int, r + 1)) by (nonlinear_arith)
                requires
                    is_sqrt_of(n as int - 1, r),
                    (r + 1) * (r + 1) <= n,
            ;
        } else {
            assert(is_sqrt_of(n as int, r));
        }
    }
}

/// The integer square root is unique, so `sqrt_floor` names it.
pub proof fn lemma_sqrt_unique(n: int, r: int)
    requires
        is_sqrt_of(n, r),
    ensures
        r == sqrt_floor(n),
{
    let s = sqrt_floor(n);
    assert(is_sqrt_of(n, s)) by {
        assert(exists|q: int| #[trigger] is_sqrt_of(n, q)) by {
            assert(is_sqrt_of(n, r));
        }
    }
    assert(r == s) by (nonlinear_arith)
        requires
            is_sqrt_of(n, r),
            is_sqrt_of(n, s),
    ;
}

/// Truncating division by a positive divisor shrinks magnitudes.
pub proof fn lemma_tdiv_range(x: int, d: int, m: int)
    requires
        d >= 1,
        0 <= m,
        -m <= x <= m,
    ensures
        -(m / d) <= tdiv(x, d) <= m / d,
        x >= 0 ==> tdiv(x, d) >= 0,
        x <= 0 ==> tdiv(x, d) <= 0,
{
    if x >= 0 {
        lemma_div_is_ordered(x, m, d);
        lemma_div_is_ordered(0, x, d);
    } else {
        lemma_div_is_ordered(-x, m, d);
        lemma_div_is_ordered(0, -x, d);
    }
}

/// Multiplying by one whole unit is the identity.
pub proof fn lemma_fx_mul_one(x: int)
    ensures
        fx_mul_spec(FX_ONE as int, x) == x,
        fx_mul_spec(-(FX_ONE as int), x) == -x,
{
    if x >= 0 {
        assert((FX_ONE as int) * x == x * (FX_ONE as int)) by (nonlinear_arith);
        vstd::arithmetic::div_mod::lemma_div_by_multiple(x, FX_ONE as int);
    } else {
        assert(-((FX_ONE as int) * x) == (-x) * (FX_ONE as int)) by (nonlinear_arith);
        vstd::arithmetic::div_mod::lemma_div_by_multiple(-x, FX_ONE as int);
    }
    assert(-(FX_ONE as int) * x == -((FX_ONE as int) * x)) by (nonlinear_arith);
}

/// A product with a factor of at most one cannot grow the other factor.
pub proof fn lemma_fx_mul_le_left(a: int, b: int)
    requires
        0 <= a,
        0 <= b <= FX_ONE as int,
    ensures
        0 <= fx_mul_spec(a, b) <= a,
{
    assert(0 <= a * b <= a * 65536) by (nonlinear_arith)
        requires
            0 <= a,
            0 <= b <= 65536,
    ;
    lemma_tdiv_monotone(a * b, a * 65536, 65536);
    lemma_div_by_multiple(a, 65536);
    lemma_div_is_ordered(0, a * b, 65536);
}

/// Truncating division by a positive divisor is monotone.
pub proof fn lemma_tdiv_monotone(x1: int, x2: int, d: int)
    requires
        d >= 1,
        x1 <= x2,
    ensures
        tdiv(x1, d) <= tdiv(x2, d),
{
    if x1 >= 0 {
        lemma_div_is_ordered(x1, x2, d);
    } else if x2 < 0 {
        lemma_div_is_ordered(-x2, -x1, d);
    } else {
        lemma_div_is_ordered(0, -x1, d);
        lemma_div_is_ordered(0, x2, d);
    }
}

/// A magnitude bound for the rescaled product.
pub proof fn lemma_fx_mul_range(a: int, b: int, ma: int, mb: int)
    requires
        0 <= ma,
        0 <= mb,
        -ma <= a <= ma,
        -mb <= b <= mb,
    ensures
        -((ma * mb) / (FX_ONE as int)) <= fx_mul_spec(a, b) <= (ma * mb) / (FX_ONE as int),
        a >= 0 && b >= 0 ==> fx_mul_spec(a, b) >= 0,
{
    assert(-(ma * mb) <= a * b <= ma * mb) by (nonlinear_arith)
        requires
            0 <= ma,
            0 <= mb,
            -ma <= a <= ma,
            -mb <= b <= mb,
    ;
    assert(0 <= ma * mb) by (nonlinear_arith)
        requires
            0 <= ma,
            0 <= mb,
    ;
    lemma_tdiv_range(a * b, FX_ONE as int, ma * mb);
    if a >= 0 && b >= 0 {
        assert(a * b >= 0) by (nonlinear_arith)
            requires
                a >= 0,
                b >= 0,
        ;
    }
}

/// The rescaled product of two scalars.
pub fn fx_mul(a: i64, b: i64) -> (r: i64)
    requires
        fits_i64(fx_mul_spec(a as int, b as int)),
    ensures
        r == fx_mul_spec(a as int, b as int),
{
    proof {
        assert((a as int) * (b as int) <= 0x40000000000000000000000000000000int
            && -(0x40000000000000000000000000000000int) <= (a as int) * (b as int))
            by (nonlinear_arith)
            requires
                i64::MIN <= a <= i64::MAX,
                i64::MIN <= b <= i64::MAX,
        ;
        lemma_tdiv_range(
            (a as int) * (b as int),
            FX_ONE as int,
            0x40000000000000000000000000000000int,
        );
    }
    let p: i128 = (a as i128) * (b as i128);
    let q: i128 = p / (FX_ONE as i128);
    q as i64
}

/// The rescaled quotient of two scalars.
pub fn fx_div(a: i64, b: i64) -> (r: i64)
    requires
        b != 0,
        fits_i64(fx_div_spec(a as int, b as int)),
    ensures
        r == fx_div_spec(a as int, b as int),
{
    let p: i128 = (a as i128) * (FX_ONE as i128);
    let q: i128 = p / (b as i128);
    q as i64
}

/// The integer square root, rounded down.
pub fn isqrt(n: u128) -> (r: u64)
    ensures
        is_sqrt_of(n as int, r as int),
        r as int == sqrt_floor(n as int),
{
    let mut lo: u128 = 0;
    let mut hi: u128 = 0x10000000000000000;
    proof {
        assert((n as int) < (hi as int) * (hi as int)) by (nonlinear_arith)
            requires
                n <= u128::MAX,
                hi == 0x10000000000000000,
        ;
    }
    while lo + 1 < hi
        invariant
            lo < hi <= 0x10000000000000000,
            (lo as int) * (lo as int) <= n as int,
            (n as int) < (hi as int) * (hi as int),
        decreases hi - lo,
    {
        let mid: u128 = lo + (hi - lo) / 2;
        proof {
            assert((mid as int) * (mid as int) <= u128::MAX) by (nonlinear_arith)
                requires
                    mid < 0x10000000000000000,
            ;
        }
        if mid * mid <= n {
            lo = mid;
        } else {
            hi = mid;
        }
    }
    proof {
        lemma_sqrt_unique(n as int, lo as int);
    }
    lo as u64
}

/// The square root of a non-negative scalar.
pub fn fx_sqrt(x: i64) -> (r: i64)
    requires
        x >= 0,
    ensures
        r == fx_sqrt_spec(x as int),
        is_sqrt_of(x * (FX_ONE as int), r as int),
        r >= 0,
{
    let n: u128 = (x as u128) * 65536u128;
    let r: u64 = isqrt(n);
    proof {
        assert((r as int) * (r as int) <= n as int);
        assert(n as int <= 0x7fffffffffffffffint * 65536int);
        assert((r as int) < 0x10000000000000int) by (nonlinear_arith)
            requires
                (r as int) * (r as int) <= 0x7fffffffffffffffint * 65536int,
                r >= 0,
        ;
    }
    r as i64
}

/// `x` pinned into `[lo, hi]`.
pub fn clamp(x: i64, lo: i64, hi: i64) -> (r: i64)
    requires
        lo <= hi,
    ensures
        r == clamp_spec(x as int, lo as int, hi as int),
        lo <= r <= hi,
{
    if x < lo {
        lo
    } else if x > hi {
        hi
    } else {
        x
    }
}

} // verus!
