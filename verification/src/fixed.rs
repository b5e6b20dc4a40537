//! Fixed-point scalars.
//!
//! A scalar is an `i64` counting least units of `10^-5` mm (or of a
//! dimensionless ratio, for slopes and Jacobian values). `SCALE` least units
//! make one. Division is by explicit floor or ceiling so that every contract
//! can state the exact integer result.

use vstd::prelude::*;
use vstd::arithmetic::div_mod::{
    lemma_fundamental_div_mod, lemma_fundamental_div_mod_converse, lemma_div_is_ordered,
    lemma_div_multiples_vanish, lemma_mod_bound,
};

verus! {

/// Least units in one: all lengths are counts of `10^-5` mm, the resolution
/// of the five-decimal numbers in the toolpath text.
pub const SCALE: i64 = 100_000;

/// Magnitude bound accepted for a user-facing coordinate or transform
/// parameter: `10^10` least units, i.e. 100 m. Intermediate values stay well
/// inside `i64` as long as inputs respect it.
pub const COORD_LIMIT: i64 = 10_000_000_000;

/// Floor of the real quotient `a / b` (equal to `int` division for `b > 0`).
pub fn floor_div(a: i128, b: i128) -> (r: i128)
    requires
        0 < b,
        -0x4000_0000_0000_0000_0000_0000_0000_0000 < a < 0x4000_0000_0000_0000_0000_0000_0000_0000,
    ensures
        r == a as int / b as int,
{
    if a >= 0 {
        let q: u128 = (a as u128) / (b as u128);
        proof {
            lemma_div_is_ordered(0, a as int, b as int);
            lemma_div_is_ordered(a as int, 0x4000_0000_0000_0000_0000_0000_0000_0000, b as int);
            vstd::arithmetic::div_mod::lemma_div_nonincreasing(a as int, b as int);
        }
        q as i128
    } else {
        let na: u128 = (-a) as u128;
        let bu: u128 = b as u128;
        let q: u128 = na / bu;
        let rem: u128 = na % bu;
        proof {
            lemma_fundamental_div_mod(na as int, b as int);
            vstd::arithmetic::div_mod::lemma_div_pos_is_pos(na as int, b as int);
            vstd::arithmetic::div_mod::lemma_div_nonincreasing(na as int, b as int);
            lemma_mod_bound(na as int, b as int);
            assert(na as int == (b as int) * (q as int) + (rem as int));
            if rem == 0 {
                assert(a as int == (-(q as int)) * (b as int) + 0) by (nonlinear_arith)
                    requires
                        na as int == (b as int) * (q as int) + (rem as int),
                        a as int == -(na as int),
                        rem == 0,
                ;
                lemma_fundamental_div_mod_converse(a as int, b as int, -(q as int), 0);
            } else {
                assert(a as int == (-(q as int) - 1) * (b as int) + ((b as int) - (rem as int)))
                    by (nonlinear_arith)
                    requires
                        na as int == (b as int) * (q as int) + (rem as int),
                        a as int == -(na as int),
                ;
                lemma_fundamental_div_mod_converse(
                    a as int,
                    b as int,
                    -(q as int) - 1,
                    (b as int) - (rem as int),
                );
            }
        }
        if rem == 0 {
            -(q as i128)
        } else {
            -(q as i128) - 1
        }
    }
}

/// Ceiling of the real quotient `a / b`: one more than the floor unless the
/// division is exact.
pub fn ceil_div(a: i128, b: i128) -> (r: i128)
    requires
        0 < b,
        -0x4000_0000_0000_0000_0000_0000_0000_0000 < a < 0x4000_0000_0000_0000_0000_0000_0000_0000,
    ensures
        r == if a as int % b as int == 0 {
            a as int / b as int
        } else {
            a as int / b as int + 1
        },
{
    proof {
        lemma_floor_ceil_relation(a as int, b as int);
        if a <= 0 {
            vstd::arithmetic::div_mod::lemma_div_pos_is_pos(-(a as int), b as int);
            vstd::arithmetic::div_mod::lemma_div_nonincreasing(-(a as int), b as int);
        } else {
            lemma_fundamental_div_mod(-(a as int), b as int);
            lemma_mod_bound(-(a as int), b as int);
            assert(-(a as int) - (b as int) < (-(a as int)) / (b as int) <= 0) by (nonlinear_arith)
                requires
                    -(a as int) == (b as int) * ((-(a as int)) / (b as int)) + ((-(a as int)) % (
                    b as int)),
                    0 <= (-(a as int)) % (b as int) < b as int,
                    0 < b as int,
                    0 < a as int,
            ;
        }
    }
    let n: i128 = floor_div(-a, b);
    -n
}

/// `-((-a) / b)` is the ceiling of `a / b`: one more than the floor unless
/// the division is exact.
proof fn lemma_floor_ceil_relation(a: int, b: int)
    requires
        0 < b,
    ensures
        -((-a) / b) == if a % b == 0 {
            a / b
        } else {
            a / b + 1
        },
{
    lemma_fundamental_div_mod(a, b);
    lemma_mod_bound(a, b);
    let q: int = a / b;
    let r: int = a % b;
    if r == 0 {
        assert(-a == (-q) * b + 0) by (nonlinear_arith)
            requires
                a == b * q + r,
                r == 0,
        ;
        lemma_fundamental_div_mod_converse(-a, b, -q, 0);
    } else {
        assert(-a == (-q - 1) * b + (b - r)) by (nonlinear_arith)
            requires
                a == b * q + r,
        ;
        lemma_fundamental_div_mod_converse(-a, b, -q - 1, b - r);
    }
}

/// Division by a positive divisor keeps order; the quotient of a multiple of
/// the divisor is exact. Bounds a floor quotient between two known multiples.
pub proof fn lemma_div_between(p: int, d: int, lo: int, hi: int)
    requires
        0 < d,
        lo * d <= p <= hi * d,
    ensures
        lo <= p / d <= hi,
{
    lemma_div_is_ordered(lo * d, p, d);
    lemma_div_is_ordered(p, hi * d, d);
    lemma_div_multiples_vanish(lo, d);
    lemma_div_multiples_vanish(hi, d);
    assert(lo * d == d * lo) by (nonlinear_arith);
    assert(hi * d == d * hi) by (nonlinear_arith);
}

/// Floor of `a * b / SCALE`: the product of two fixed-point scalars.
pub fn fx_mul(a: i64, b: i64) -> (r: i64)
    requires
        -0x7fff_ffff_ffff_ffff * (SCALE as int) <= a * b <= 0x7fff_ffff_ffff_ffff * (SCALE as int),
    ensures
        r == a * b / (SCALE as int),
{
    let p: i128 = (a as i128) * (b as i128);
    let q: i128 = floor_div(p, SCALE as i128);
    proof {
        lemma_div_between(
            p as int,
            SCALE as int,
            -0x7fff_ffff_ffff_ffff,
            0x7fff_ffff_ffff_ffff,
        );
    }
    q as i64
}

/// Floor of `a * SCALE / b`: the quotient of two fixed-point scalars, for a
/// positive divisor.
pub fn fx_div(a: i64, b: i64) -> (r: i64)
    requires
        0 < b,
        -0x7fff_ffff_ffff_ffff * (b as int) <= a * (SCALE as int) <= 0x7fff_ffff_ffff_ffff * (
        b as int),
    ensures
        r == a * (SCALE as int) / b as int,
{
    let p: i128 = (a as i128) * (SCALE as i128);
    let q: i128 = floor_div(p, b as i128);
    proof {
        lemma_div_between(
            p as int,
            b as int,
            -0x7fff_ffff_ffff_ffff,
            0x7fff_ffff_ffff_ffff,
        );
    }
    q as i64
}

/// The product of two values is bounded by the product of their bounds.
pub proof fn lemma_mul_bounds(a: int, am: int, b: int, bm: int)
    requires
        -am <= a <= am,
        -bm <= b <= bm,
    ensures
        -(am * bm) <= a * b <= am * bm,
{
    assert(-(am * bm) <= a * b <= am * bm) by (nonlinear_arith)
        requires
            -am <= a <= am,
            -bm <= b <= bm,
    ;
}

/// A bound on a value widens by any factor of at least one.
pub proof fn lemma_widen_factor(p: int, m: int, d: int)
    requires
        -m <= p <= m,
        1 <= d,
    ensures
        (-m) * d <= p <= m * d,
{
    assert((-m) * d <= p <= m * d) by (nonlinear_arith)
        requires
            -m <= p <= m,
            1 <= d,
    ;
}

/// Euclidean remainder of `a` by a positive `b`: always in `[0, b)`.
pub fn floor_mod(a: i128, b: i128) -> (r: i128)
    requires
        0 < b < 0x4000_0000_0000_0000_0000_0000_0000_0000,
        -0x4000_0000_0000_0000_0000_0000_0000_0000 < a < 0x4000_0000_0000_0000_0000_0000_0000_0000,
    ensures
        r == a as int % b as int,
        0 <= r < b,
{
    let q: i128 = floor_div(a, b);
    proof {
        lemma_fundamental_div_mod(a as int, b as int);
        lemma_mod_bound(a as int, b as int);
        assert((q as int) * (b as int) == (b as int) * (q as int)) by (nonlinear_arith);
    }
    a - q * b
}

/// The mathematical floor of the square root, as a spec-level value: the
/// unique `r >= 0` with `r * r <= n < (r + 1) * (r + 1)`.
pub open spec fn sqrt_floor(n: int) -> int {
    choose|r: int| 0 <= r && #[trigger] (r * r) <= n && n < (r + 1) * (r + 1)
}

/// Any witness of the square-root property is the `sqrt_floor`.
pub proof fn lemma_sqrt_floor_is(n: int, r: int)
    requires
        0 <= r,
        r * r <= n,
        n < (r + 1) * (r + 1),
    ensures
        sqrt_floor(n) == r,
{
    assert(0 <= r && r * r <= n && n < (r + 1) * (r + 1));
    let c = sqrt_floor(n);
    assert(0 <= c && c * c <= n && n < (c + 1) * (c + 1));
    if c < r {
        assert((c + 1) * (c + 1) <= r * r) by (nonlinear_arith)
            requires
                0 <= c,
                c < r,
        ;
    }
    if r < c {
        assert((r + 1) * (r + 1) <= c * c) by (nonlinear_arith)
            requires
                0 <= r,
                r < c,
        ;
    }
}

/// A square below `m * m` has its root below `m`.
pub proof fn lemma_sqrt_floor_bound(n: int, m: int)
    requires
        0 <= n,
        0 <= m,
        n <= m * m,
    ensures
        0 <= sqrt_floor(n) <= m,
        sqrt_floor(n) * sqrt_floor(n) <= n < (sqrt_floor(n) + 1) * (sqrt_floor(n) + 1),
{
    lemma_sqrt_floor_exists(n);
    let c = sqrt_floor(n);
    assert(0 <= c && c * c <= n && n < (c + 1) * (c + 1));
    if c > m {
        assert(m * m < c * c) by (nonlinear_arith)
            requires
                0 <= m,
                m < c,
        ;
    }
}

/// Every nonnegative integer has a floor square root.
proof fn lemma_sqrt_floor_exists(n: int)
    requires
        0 <= n,
    ensures
        0 <= sqrt_floor(n),
        sqrt_floor(n) * sqrt_floor(n) <= n < (sqrt_floor(n) + 1) * (sqrt_floor(n) + 1),
    decreases n,
{
    if n == 0 {
        assert(0 <= 0 && 0 * 0 <= n && n < (0 + 1) * (0 + 1));
    } else {
        lemma_sqrt_floor_exists(n - 1);
        let p = sqrt_floor(n - 1);
        if n < (p + 1) * (p + 1) {
            assert(0 <= p && p * p <= n && n < (p + 1) * (p + 1));
        } else {
            assert(n == (p + 1) * (p + 1));
            assert((p + 1) * (p + 1) < (p + 2) * (p + 2)) by (nonlinear_arith)
                requires
                    0 <= p,
            ;
            assert(0 <= p + 1 && (p + 1) * (p + 1) <= n && n < (p + 2) * (p + 2));
        }
    }
}

/// The integer square root: the greatest `r` with `r * r <= n`.
pub fn isqrt(n: u128) -> (r: u128)
    ensures
        r * r <= n,
        n < (r + 1) * (r + 1),
        r < 0x1_0000_0000_0000_0000,
{
    let mut lo: u128 = 0;
    let mut hi: u128 = 0x1_0000_0000_0000_0000;
    proof {
        assert((0x1_0000_0000_0000_0000 as int) * (0x1_0000_0000_0000_0000 as int) > u128::MAX
            as int) by (nonlinear_arith);
    }
    while lo + 1 < hi
        invariant
            lo < hi <= 0x1_0000_0000_0000_0000,
            lo * lo <= n,
            (n as int) < (hi as int) * (hi as int),
        decreases hi - lo,
    {
        let mid: u128 = lo + (hi - lo) / 2;
        proof {
            assert(mid < hi);
            assert(lo < mid);
            vstd::arithmetic::mul::lemma_mul_upper_bound(
                mid as int,
                0xffff_ffff_ffff_ffff,
                mid as int,
                0xffff_ffff_ffff_ffff,
            );
            assert((0xffff_ffff_ffff_ffff as int) * (0xffff_ffff_ffff_ffff as int) <= u128::MAX
                as int) by (nonlinear_arith);
        }
        let sq: u128 = mid * mid;
        if sq <= n {
            lo = mid;
        } else {
            hi = mid;
        }
    }
    lo
}

} // verus!
