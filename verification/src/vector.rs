//! Three-component fixed-point vectors.

use vstd::prelude::*;

verus! {

/// A point or displacement: each component is a fixed-point count of
/// `10^-5` mm.
#[derive(Clone, Copy, PartialEq, Eq, Structural, Debug)]
pub struct Vector {
    pub x: i64,
    pub y: i64,
    pub z: i64,
}

impl Vector {
    /// All three components within `m` of zero.
    pub open spec fn bounded(self, m: int) -> bool {
        -m <= self.x <= m && -m <= self.y <= m && -m <= self.z <= m
    }

    pub fn new(x: i64, y: i64, z: i64) -> (r: Vector)
        ensures
            r == (Vector { x, y, z }),
    {
        Vector { x, y, z }
    }

    /// Componentwise sum.
    pub fn add(self, rhs: Vector) -> (r: Vector)
        requires
            i64::MIN <= self.x + rhs.x <= i64::MAX,
            i64::MIN <= self.y + rhs.y <= i64::MAX,
            i64::MIN <= self.z + rhs.z <= i64::MAX,
        ensures
            r.x == self.x + rhs.x,
            r.y == self.y + rhs.y,
            r.z == self.z + rhs.z,
    {
        Vector { x: self.x + rhs.x, y: self.y + rhs.y, z: self.z + rhs.z }
    }

    /// Componentwise difference.
    pub fn sub(self, rhs: Vector) -> (r: Vector)
        requires
            i64::MIN <= self.x - rhs.x <= i64::MAX,
            i64::MIN <= self.y - rhs.y <= i64::MAX,
            i64::MIN <= self.z - rhs.z <= i64::MAX,
        ensures
            r.x == self.x - rhs.x,
            r.y == self.y - rhs.y,
            r.z == self.z - rhs.z,
    {
        Vector { x: self.x - rhs.x, y: self.y - rhs.y, z: self.z - rhs.z }
    }

    /// Componentwise product with a fixed-point scalar, rounded down.
    pub fn mul(self, rhs: i64) -> (r: Vector)
        requires
            self.bounded(crate::fixed::COORD_LIMIT as int),
            -crate::fixed::COORD_LIMIT <= rhs <= crate::fixed::COORD_LIMIT,
        ensures
            r.x == self.x * rhs / (crate::fixed::SCALE as int),
            r.y == self.y * rhs / (crate::fixed::SCALE as int),
            r.z == self.z * rhs / (crate::fixed::SCALE as int),
    {
        proof {
            crate::fixed::lemma_mul_bounds(
                self.x as int,
                crate::fixed::COORD_LIMIT as int,
                rhs as int,
                crate::fixed::COORD_LIMIT as int,
            );
            crate::fixed::lemma_mul_bounds(
                self.y as int,
                crate::fixed::COORD_LIMIT as int,
                rhs as int,
                crate::fixed::COORD_LIMIT as int,
            );
            crate::fixed::lemma_mul_bounds(
                self.z as int,
                crate::fixed::COORD_LIMIT as int,
                rhs as int,
                crate::fixed::COORD_LIMIT as int,
            );
        }
        Vector {
            x: crate::fixed::fx_mul(self.x, rhs),
            y: crate::fixed::fx_mul(self.y, rhs),
            z: crate::fixed::fx_mul(self.z, rhs),
        }
    }

    /// Componentwise quotient by a positive fixed-point scalar, rounded
    /// down.
    pub fn div(self, rhs: i64) -> (r: Vector)
        requires
            self.bounded(crate::fixed::COORD_LIMIT as int),
            0 < rhs,
        ensures
            r.x == self.x * (crate::fixed::SCALE as int) / rhs as int,
            r.y == self.y * (crate::fixed::SCALE as int) / rhs as int,
            r.z == self.z * (crate::fixed::SCALE as int) / rhs as int,
    {
        proof {
            crate::fixed::lemma_mul_bounds(
                self.x as int,
                crate::fixed::COORD_LIMIT as int,
                crate::fixed::SCALE as int,
                crate::fixed::SCALE as int,
            );
            crate::fixed::lemma_mul_bounds(
                self.y as int,
                crate::fixed::COORD_LIMIT as int,
                crate::fixed::SCALE as int,
                crate::fixed::SCALE as int,
            );
            crate::fixed::lemma_mul_bounds(
                self.z as int,
                crate::fixed::COORD_LIMIT as int,
                crate::fixed::SCALE as int,
                crate::fixed::SCALE as int,
            );
            assert((crate::fixed::COORD_LIMIT as int) * (crate::fixed::SCALE as int)
                == 1_000_000_000_000_000) by (nonlinear_arith);
            crate::fixed::lemma_widen_factor(
                self.x * (crate::fixed::SCALE as int),
                0x7fff_ffff_ffff_ffff,
                rhs as int,
            );
            crate::fixed::lemma_widen_factor(
                self.y * (crate::fixed::SCALE as int),
                0x7fff_ffff_ffff_ffff,
                rhs as int,
            );
            crate::fixed::lemma_widen_factor(
                self.z * (crate::fixed::SCALE as int),
                0x7fff_ffff_ffff_ffff,
                rhs as int,
            );
        }
        Vector {
            x: crate::fixed::fx_div(self.x, rhs),
            y: crate::fixed::fx_div(self.y, rhs),
            z: crate::fixed::fx_div(self.z, rhs),
        }
    }

    /// The squared Euclidean length, exactly.
    pub open spec fn spec_norm_sq(self) -> int {
        self.x * self.x + self.y * self.y + self.z * self.z
    }

    /// The squared Euclidean length. The result carries the square of the
    /// fixed scale (components are `10^-5` mm, squares are `10^-10` mm^2).
    pub fn norm_sq(&self) -> (r: i128)
        requires
            self.bounded(0x4000_0000_0000_0000),
        ensures
            r == self.spec_norm_sq(),
            r >= 0,
    {
        proof {
            lemma_abs_square_bound(self.x as int, 0x4000_0000_0000_0000);
            lemma_abs_square_bound(self.y as int, 0x4000_0000_0000_0000);
            lemma_abs_square_bound(self.z as int, 0x4000_0000_0000_0000);
            assert(3 * ((0x4000_0000_0000_0000 as int) * (0x4000_0000_0000_0000 as int))
                <= i128::MAX as int) by (nonlinear_arith);
        }
        (self.x as i128) * (self.x as i128) + (self.y as i128) * (self.y as i128) + (self.z
            as i128) * (self.z as i128)
    }

    /// The Euclidean length rounded down to a whole number of least units:
    /// the integer square root of `norm_sq`.
    pub fn norm(&self) -> (r: i64)
        requires
            self.bounded(0x7fff_ffff_ffff),
        ensures
            r * r <= self.spec_norm_sq() < (r + 1) * (r + 1),
            0 <= r <= 0xffff_ffff_fffe,
    {
        proof {
            lemma_abs_square_bound(self.x as int, 0x7fff_ffff_ffff);
            lemma_abs_square_bound(self.y as int, 0x7fff_ffff_ffff);
            lemma_abs_square_bound(self.z as int, 0x7fff_ffff_ffff);
        }
        let n: i128 = self.norm_sq();
        let r: u128 = crate::fixed::isqrt(n as u128);
        proof {
            assert(r <= 0xffff_ffff_fffe) by (nonlinear_arith)
                requires
                    r as int * r as int <= n as int,
                    n as int <= 3 * (0x7fff_ffff_ffff as int) * (0x7fff_ffff_ffff as int),
                    r >= 0,
            ;
        }
        r as i64
    }
}

/// A machine position: the three spatial axes plus the extrusion axis.
#[derive(Clone, Copy, PartialEq, Eq, Structural, Debug)]
pub struct Vec4 {
    pub x: i64,
    pub y: i64,
    pub z: i64,
    pub e: i64,
}

impl Vec4 {
    /// All four components within `m` of zero.
    pub open spec fn bounded(self, m: int) -> bool {
        -m <= self.x <= m && -m <= self.y <= m && -m <= self.z <= m && -m <= self.e <= m
    }
}

/// `|a| <= m` gives `a * a <= m * m`.
pub proof fn lemma_abs_square_bound(a: int, m: int)
    requires
        -m <= a <= m,
        0 <= m,
    ensures
        0 <= a * a <= m * m,
{
    if a >= 0 {
        vstd::arithmetic::mul::lemma_mul_upper_bound(a, m, a, m);
        vstd::arithmetic::mul::lemma_mul_nonnegative(a, a);
    } else {
        vstd::arithmetic::mul::lemma_mul_upper_bound(-a, m, -a, m);
        vstd::arithmetic::mul::lemma_mul_nonnegative(-a, -a);
        assert((-a) * (-a) == a * a) by (nonlinear_arith);
    }
}

} // verus!
