//! The height-field transform family.
//!
//! A transform displaces a point vertically: x and y pass through unchanged
//! and z gains an offset that depends on x and y only. Below the
//! `flat_bottom` height the offset is faded in linearly, so the first layers
//! keep their shape. The inverse uses ceiling division where the forward map
//! uses floor division, which makes the round trip exact over the fixed-point
//! representation (`lemma_apply_inverse_exact`).

use vstd::prelude::*;
use crate::fixed::{
    SCALE, COORD_LIMIT, floor_div, ceil_div, floor_mod, isqrt, sqrt_floor, lemma_sqrt_floor_is,
    lemma_sqrt_floor_bound, lemma_div_between,
};
use crate::sine::{spec_sin2pi, spec_cos2pi, sin2pi, cos2pi, lemma_sin2pi_range, lemma_cos2pi_range};
use crate::vector::Vector;
use crate::utils::Aabb;
use vstd::arithmetic::div_mod::{
    lemma_fundamental_div_mod, lemma_fundamental_div_mod_converse, lemma_div_is_ordered,
    lemma_div_multiples_vanish, lemma_mod_bound, lemma_div_pos_is_pos,
};

verus! {

/// Magnitude bound for a point handed to a transform: twice `COORD_LIMIT`,
/// since points arrive re-centred (a coordinate minus a centre coordinate).
pub const POINT_LIMIT: i64 = 20_000_000_000;

/// Every offset a well-formed transform produces on a point within
/// `POINT_LIMIT` fits within this bound.
pub const OFFSET_LIMIT: i64 = 4_000_000_000_000_000;

/// A transform together with the bounding box of the warped mesh, persisted
/// between the warp and dewarp runs.
#[derive(Clone, Copy, PartialEq, Eq, Structural, Debug)]
pub struct TransformData {
    pub transform: Transform,
    pub warped_aabb: Aabb,
}

/// The variant selector, as chosen on a command line.
#[derive(Clone, Copy, PartialEq, Eq, Structural, Debug)]
pub enum TransformType {
    Conical,
    Sinusoidal,
    Spherical,
}

/// A height-field displacement. Lengths are fixed-point (`10^-5` mm); the
/// conical slope is the dimensionless tangent of the cone's surface angle,
/// also fixed-point.
#[derive(Clone, Copy, PartialEq, Eq, Structural, Debug)]
pub enum Transform {
    /// Offset `slope * sqrt(x^2 + y^2)`: a cone rising from the centre.
    Conical { slope: i64, flat_bottom: i64 },
    /// Offset `height * (sin(2 pi x / pitch) * cos(2 pi y / pitch) + 1) / 2`:
    /// an undulating field between 0 and `height`.
    Sinusoidal { height: i64, pitch: i64, flat_bottom: i64 },
    /// Offset `radius - sqrt(radius^2 - x^2 - y^2)`: a spherical cap. Outside
    /// the disc of `radius` the square root's argument is clamped to zero,
    /// so the offset saturates at `radius`.
    Spherical { radius: i64, flat_bottom: i64 },
}

/// Conical offset: the slope times the distance from the axis.
pub open spec fn spec_conical_offset(x: int, y: int, slope: int) -> int {
    slope * sqrt_floor(x * x + y * y) / (SCALE as int)
}

/// Spherical offset, with the out-of-domain argument clamped to zero.
pub open spec fn spec_spherical_offset(x: int, y: int, radius: int) -> int {
    let d = radius * radius - x * x - y * y;
    radius - sqrt_floor(if d >= 0 { d } else { 0 })
}

/// The fraction of a turn that `v` covers at the given pitch, in `[0, SCALE)`.
/// A negative pitch mirrors the coordinate, since `sin(-a) = sin(a)` holds of
/// nothing but `a = 0` while `v / pitch == (-v) / (-pitch)` always does.
pub open spec fn spec_phase(v: int, pitch: int) -> int {
    let p = if pitch >= 0 { pitch } else { -pitch };
    let w = if pitch >= 0 { v } else { -v };
    (w * (SCALE as int) / p) % (SCALE as int)
}

/// Sinusoidal offset: `height * (sin * cos + 1) / 2`, all fixed-point.
pub open spec fn spec_sinusoidal_offset(x: int, y: int, height: int, pitch: int) -> int {
    let s = spec_sin2pi(spec_phase(x, pitch));
    let c = spec_cos2pi(spec_phase(y, pitch));
    let w = (s * c / (SCALE as int) + (SCALE as int)) / 2;
    height * w / (SCALE as int)
}

/// Ceiling division for positive divisors, at the spec level.
pub open spec fn spec_ceil_div(a: int, b: int) -> int {
    if a % b == 0 {
        a / b
    } else {
        a / b + 1
    }
}

/// The forward blend: below `flat_bottom` the offset is scaled by
/// `z / flat_bottom`, above it is added whole.
pub open spec fn spec_apply_flat_bottom(z: int, offset: int, flat_bottom: int) -> int {
    if flat_bottom > 0 && z < flat_bottom {
        z + z * offset / flat_bottom
    } else {
        z + offset
    }
}

/// The inverse blend: inside the blended image the division is by ceiling,
/// which undoes the forward floor exactly.
pub open spec fn spec_apply_flat_bottom_inverse(z: int, offset: int, flat_bottom: int) -> int {
    if flat_bottom > 0 && z <= flat_bottom + offset {
        spec_ceil_div(flat_bottom * z, flat_bottom + offset)
    } else {
        z - offset
    }
}

/// The Jacobian determinant of the forward map at height `z`, fixed-point:
/// `1 + offset / flat_bottom` inside the blend, 1 above it.
pub open spec fn spec_jacobian_flat_bottom(z: int, offset: int, flat_bottom: int) -> int {
    if flat_bottom > 0 && z <= flat_bottom {
        SCALE + offset * (SCALE as int) / flat_bottom
    } else {
        SCALE as int
    }
}

impl Transform {
    /// The blend height of any variant.
    pub open spec fn flat_bottom(self) -> int {
        match self {
            Transform::Conical { flat_bottom, .. } => flat_bottom as int,
            Transform::Sinusoidal { flat_bottom, .. } => flat_bottom as int,
            Transform::Spherical { flat_bottom, .. } => flat_bottom as int,
        }
    }

    /// The vertical offset this transform assigns to the column over `(x, y)`.
    pub open spec fn spec_offset(self, x: int, y: int) -> int {
        match self {
            Transform::Conical { slope, .. } => spec_conical_offset(x, y, slope as int),
            Transform::Sinusoidal { height, pitch, .. } => spec_sinusoidal_offset(
                x,
                y,
                height as int,
                pitch as int,
            ),
            Transform::Spherical { radius, .. } => spec_spherical_offset(x, y, radius as int),
        }
    }

    /// The z the forward map gives a point.
    pub open spec fn spec_apply_z(self, x: int, y: int, z: int) -> int {
        spec_apply_flat_bottom(z, self.spec_offset(x, y), self.flat_bottom())
    }

    /// The z the inverse map gives a point.
    pub open spec fn spec_inverse_z(self, x: int, y: int, z: int) -> int {
        spec_apply_flat_bottom_inverse(z, self.spec_offset(x, y), self.flat_bottom())
    }

    /// Well-formed parameters: magnitudes within `COORD_LIMIT`, the pitch
    /// not zero, the radius not negative, and no downward displacement (a
    /// negative cone slope or undulation height) together with a blend: the
    /// blend is ill-defined where the offset can go below the bed.
    pub open spec fn wf(self) -> bool {
        match self {
            Transform::Conical { slope, flat_bottom } => -COORD_LIMIT <= slope <= COORD_LIMIT && 0
                <= flat_bottom <= COORD_LIMIT && (flat_bottom > 0 ==> slope >= 0),
            Transform::Sinusoidal { height, pitch, flat_bottom } => -COORD_LIMIT <= height
                <= COORD_LIMIT && pitch != 0 && -COORD_LIMIT <= pitch <= COORD_LIMIT && 0
                <= flat_bottom <= COORD_LIMIT && (flat_bottom > 0 ==> height >= 0),
            Transform::Spherical { radius, flat_bottom } => 0 <= radius <= COORD_LIMIT && 0
                <= flat_bottom <= COORD_LIMIT,
        }
    }

    /// Runtime check of `wf`, for callers that take parameters from outside.
    pub fn wf_check(&self) -> (b: bool)
        ensures
            b == self.wf(),
    {
        match *self {
            Transform::Conical { slope, flat_bottom } => -COORD_LIMIT <= slope && slope
                <= COORD_LIMIT && 0 <= flat_bottom && flat_bottom <= COORD_LIMIT && (flat_bottom
                <= 0 || slope >= 0),
            Transform::Sinusoidal { height, pitch, flat_bottom } => -COORD_LIMIT <= height
                && height <= COORD_LIMIT && pitch != 0 && -COORD_LIMIT <= pitch && pitch
                <= COORD_LIMIT && 0 <= flat_bottom && flat_bottom <= COORD_LIMIT && (flat_bottom
                <= 0 || height >= 0),
            Transform::Spherical { radius, flat_bottom } => 0 <= radius && radius <= COORD_LIMIT
                && 0 <= flat_bottom && flat_bottom <= COORD_LIMIT,
        }
    }

    /// The offset under the point, as a fixed-point scalar.
    fn offset(&self, x: i64, y: i64) -> (r: i64)
        requires
            self.wf(),
            -POINT_LIMIT <= x <= POINT_LIMIT,
            -POINT_LIMIT <= y <= POINT_LIMIT,
        ensures
            r == self.spec_offset(x as int, y as int),
            -OFFSET_LIMIT <= r <= OFFSET_LIMIT,
            self.flat_bottom() > 0 ==> r >= 0,
    {
        match *self {
            Transform::Conical { slope, .. } => conical_offset(x, y, slope),
            Transform::Sinusoidal { height, pitch, .. } => sinusoidal_offset(x, y, height, pitch),
            Transform::Spherical { radius, .. } => spherical_offset(x, y, radius),
        }
    }

    /// Forward map: x and y unchanged, z displaced by the blended offset.
    /// Where a blend is configured the point must not lie below the bed.
    pub fn apply(&self, point: Vector) -> (r: Vector)
        requires
            self.wf(),
            point.bounded(POINT_LIMIT as int),
            self.flat_bottom() > 0 ==> point.z >= 0,
        ensures
            r.x == point.x,
            r.y == point.y,
            r.z == self.spec_apply_z(point.x as int, point.y as int, point.z as int),
            -POINT_LIMIT - OFFSET_LIMIT <= r.z <= POINT_LIMIT + OFFSET_LIMIT,
    {
        let off: i64 = self.offset(point.x, point.y);
        let fb: i64 = self.flat_bottom_value();
        let z: i64 = apply_flat_bottom(point.z, off, fb);
        Vector { x: point.x, y: point.y, z }
    }

    /// Inverse map: exact left inverse of `apply` over the fixed-point
    /// representation (see `lemma_apply_inverse_exact`).
    pub fn apply_inverse(&self, point: Vector) -> (r: Vector)
        requires
            self.wf(),
            -POINT_LIMIT <= point.x <= POINT_LIMIT,
            -POINT_LIMIT <= point.y <= POINT_LIMIT,
            -POINT_LIMIT - OFFSET_LIMIT <= point.z <= POINT_LIMIT + OFFSET_LIMIT,
        ensures
            r.x == point.x,
            r.y == point.y,
            r.z == self.spec_inverse_z(point.x as int, point.y as int, point.z as int),
            -POINT_LIMIT - 2 * OFFSET_LIMIT <= r.z <= POINT_LIMIT + 2 * OFFSET_LIMIT,
    {
        let off: i64 = self.offset(point.x, point.y);
        let fb: i64 = self.flat_bottom_value();
        let z: i64 = apply_flat_bottom_inverse(point.z, off, fb);
        Vector { x: point.x, y: point.y, z }
    }

    /// Jacobian determinant of the forward map at the (unwarped) point, as a
    /// fixed-point ratio: at least one, since offsets are not negative
    /// wherever a blend is configured.
    pub fn jacobian(&self, point: Vector) -> (r: i128)
        requires
            self.wf(),
            -POINT_LIMIT <= point.x <= POINT_LIMIT,
            -POINT_LIMIT <= point.y <= POINT_LIMIT,
        ensures
            r == spec_jacobian_flat_bottom(
                point.z as int,
                self.spec_offset(point.x as int, point.y as int),
                self.flat_bottom(),
            ),
            r >= SCALE,
    {
        let off: i64 = self.offset(point.x, point.y);
        let fb: i64 = self.flat_bottom_value();
        jacobian_flat_bottom(point.z, off, fb)
    }

    /// The blend height, as a value.
    pub fn flat_bottom_value(&self) -> (r: i64)
        ensures
            r == self.flat_bottom(),
    {
        match *self {
            Transform::Conical { flat_bottom, .. } => flat_bottom,
            Transform::Sinusoidal { flat_bottom, .. } => flat_bottom,
            Transform::Spherical { flat_bottom, .. } => flat_bottom,
        }
    }
}

/// Conical offset. Relies on the integer square root of the squared radius.
pub fn conical_offset(x: i64, y: i64, slope: i64) -> (r: i64)
    requires
        -POINT_LIMIT <= x <= POINT_LIMIT,
        -POINT_LIMIT <= y <= POINT_LIMIT,
        -COORD_LIMIT <= slope <= COORD_LIMIT,
    ensures
        r == spec_conical_offset(x as int, y as int, slope as int),
        -OFFSET_LIMIT <= r <= OFFSET_LIMIT,
        slope >= 0 ==> r >= 0,
{
    proof {
        crate::vector::lemma_abs_square_bound(x as int, POINT_LIMIT as int);
        crate::vector::lemma_abs_square_bound(y as int, POINT_LIMIT as int);
        assert(2 * ((POINT_LIMIT as int) * (POINT_LIMIT as int)) <= (30_000_000_000)
            * (30_000_000_000)) by (nonlinear_arith);
    }
    let nsq: i128 = (x as i128) * (x as i128) + (y as i128) * (y as i128);
    let n: u128 = isqrt(nsq as u128);
    proof {
        lemma_sqrt_floor_is(nsq as int, n as int);
        lemma_sqrt_floor_bound(nsq as int, 30_000_000_000);
        assert(-(OFFSET_LIMIT as int) * (SCALE as int) <= (slope as int) * (n as int)
            <= (OFFSET_LIMIT as int) * (SCALE as int)) by (nonlinear_arith)
            requires
                -COORD_LIMIT <= slope <= COORD_LIMIT,
                0 <= n <= 30_000_000_000,
        ;
        lemma_div_between(
            (slope as int) * (n as int),
            SCALE as int,
            -(OFFSET_LIMIT as int),
            OFFSET_LIMIT as int,
        );
        if slope >= 0 {
            vstd::arithmetic::mul::lemma_mul_nonnegative(slope as int, n as int);
            lemma_div_pos_is_pos((slope as int) * (n as int), SCALE as int);
        }
    }
    let p: i128 = (slope as i128) * (n as i128);
    floor_div(p, SCALE as i128) as i64
}

/// Spherical offset, clamped to the cap's height outside its disc.
pub fn spherical_offset(x: i64, y: i64, radius: i64) -> (r: i64)
    requires
        -POINT_LIMIT <= x <= POINT_LIMIT,
        -POINT_LIMIT <= y <= POINT_LIMIT,
        0 <= radius <= COORD_LIMIT,
    ensures
        r == spec_spherical_offset(x as int, y as int, radius as int),
        0 <= r <= radius,
{
    proof {
        crate::vector::lemma_abs_square_bound(x as int, POINT_LIMIT as int);
        crate::vector::lemma_abs_square_bound(y as int, POINT_LIMIT as int);
        crate::vector::lemma_abs_square_bound(radius as int, COORD_LIMIT as int);
    }
    let d: i128 = (radius as i128) * (radius as i128) - (x as i128) * (x as i128) - (y as i128)
        * (y as i128);
    let dd: i128 = if d >= 0 {
        d
    } else {
        0
    };
    let s: u128 = isqrt(dd as u128);
    proof {
        lemma_sqrt_floor_is(dd as int, s as int);
        lemma_sqrt_floor_bound(dd as int, radius as int);
    }
    radius - (s as i64)
}

/// The fraction of a turn `v` covers at the given pitch, in `[0, SCALE)`.
fn phase(v: i64, pitch: i64) -> (r: i64)
    requires
        pitch != 0,
        -COORD_LIMIT <= pitch <= COORD_LIMIT,
        -POINT_LIMIT <= v <= POINT_LIMIT,
    ensures
        r == spec_phase(v as int, pitch as int),
        0 <= r < SCALE,
{
    let ap: i64 = if pitch >= 0 {
        pitch
    } else {
        -pitch
    };
    let w: i64 = if pitch >= 0 {
        v
    } else {
        -v
    };
    proof {
        crate::fixed::lemma_mul_bounds(w as int, POINT_LIMIT as int, SCALE as int, SCALE as int);
        crate::fixed::lemma_widen_factor(
            (w as int) * (SCALE as int),
            (POINT_LIMIT as int) * (SCALE as int),
            ap as int,
        );
        lemma_div_between(
            (w as int) * (SCALE as int),
            ap as int,
            -((POINT_LIMIT as int) * (SCALE as int)),
            (POINT_LIMIT as int) * (SCALE as int),
        );
    }
    let q: i128 = floor_div((w as i128) * (SCALE as i128), ap as i128);
    let m: i128 = floor_mod(q, SCALE as i128);
    m as i64
}

/// Sinusoidal offset: between zero and the configured height (between the
/// height and zero for a negative height).
pub fn sinusoidal_offset(x: i64, y: i64, height: i64, pitch: i64) -> (r: i64)
    requires
        -POINT_LIMIT <= x <= POINT_LIMIT,
        -POINT_LIMIT <= y <= POINT_LIMIT,
        -COORD_LIMIT <= height <= COORD_LIMIT,
        pitch != 0,
        -COORD_LIMIT <= pitch <= COORD_LIMIT,
    ensures
        r == spec_sinusoidal_offset(x as int, y as int, height as int, pitch as int),
        height >= 0 ==> 0 <= r <= height,
        height < 0 ==> height <= r <= 0,
{
    let tx: i64 = phase(x, pitch);
    let ty: i64 = phase(y, pitch);
    let s: i64 = sin2pi(tx);
    let c: i64 = cos2pi(ty);
    proof {
        assert(-(SCALE as int) * (SCALE as int) <= (s as int) * (c as int) <= (SCALE as int) * (
        SCALE as int)) by (nonlinear_arith)
            requires
                -SCALE <= s <= SCALE,
                -SCALE <= c <= SCALE,
        ;
        lemma_div_between((s as int) * (c as int), SCALE as int, -(SCALE as int), SCALE as int);
    }
    let v: i64 = floor_div((s as i128) * (c as i128), SCALE as i128) as i64;
    proof {
        lemma_div_between((v + SCALE) as int, 2, 0, SCALE as int);
    }
    let w: i64 = floor_div((v + SCALE) as i128, 2) as i64;
    proof {
        if height >= 0 {
            assert(0 <= (height as int) * (w as int) <= (height as int) * (SCALE as int))
                by (nonlinear_arith)
                requires
                    0 <= height,
                    0 <= w <= SCALE,
            ;
            lemma_div_between((height as int) * (w as int), SCALE as int, 0, height as int);
        } else {
            assert((height as int) * (SCALE as int) <= (height as int) * (w as int) <= 0 * (
            SCALE as int)) by (nonlinear_arith)
                requires
                    height < 0,
                    0 <= w <= SCALE,
            ;
            lemma_div_between((height as int) * (w as int), SCALE as int, height as int, 0);
        }
    }
    let hw: i128 = (height as i128) * (w as i128);
    floor_div(hw, SCALE as i128) as i64
}

/// Forward blend, exactly `spec_apply_flat_bottom`.
pub fn apply_flat_bottom(z: i64, offset: i64, flat_bottom: i64) -> (r: i64)
    requires
        -POINT_LIMIT <= z <= POINT_LIMIT,
        -OFFSET_LIMIT <= offset <= OFFSET_LIMIT,
        0 <= flat_bottom <= COORD_LIMIT,
        flat_bottom > 0 ==> offset >= 0 && z >= 0,
    ensures
        r == spec_apply_flat_bottom(z as int, offset as int, flat_bottom as int),
        -POINT_LIMIT - OFFSET_LIMIT <= r <= POINT_LIMIT + OFFSET_LIMIT,
{
    if flat_bottom > 0 && z < flat_bottom {
        proof {
            crate::fixed::lemma_mul_bounds(
                z as int,
                COORD_LIMIT as int,
                offset as int,
                OFFSET_LIMIT as int,
            );
            assert(0 <= (z as int) * (offset as int) <= (offset as int) * (flat_bottom as int))
                by (nonlinear_arith)
                requires
                    0 <= z <= flat_bottom,
                    0 <= offset,
            ;
            assert((offset as int) * (flat_bottom as int) == (flat_bottom as int) * (offset
                as int)) by (nonlinear_arith);
            lemma_div_between((z as int) * (offset as int), flat_bottom as int, 0, offset as int);
        }
        let q: i128 = floor_div((z as i128) * (offset as i128), flat_bottom as i128);
        z + (q as i64)
    } else {
        z + offset
    }
}

/// Inverse blend, exactly `spec_apply_flat_bottom_inverse`.
pub fn apply_flat_bottom_inverse(z: i64, offset: i64, flat_bottom: i64) -> (r: i64)
    requires
        -POINT_LIMIT - OFFSET_LIMIT <= z <= POINT_LIMIT + OFFSET_LIMIT,
        -OFFSET_LIMIT <= offset <= OFFSET_LIMIT,
        0 <= flat_bottom <= COORD_LIMIT,
        flat_bottom > 0 ==> offset >= 0,
    ensures
        r == spec_apply_flat_bottom_inverse(z as int, offset as int, flat_bottom as int),
        -POINT_LIMIT - 2 * OFFSET_LIMIT <= r <= POINT_LIMIT + 2 * OFFSET_LIMIT,
{
    if flat_bottom > 0 && z <= flat_bottom + offset {
        proof {
            assert(-((POINT_LIMIT + OFFSET_LIMIT) as int) * ((flat_bottom + offset) as int)
                <= (flat_bottom as int) * (z as int) <= ((POINT_LIMIT + OFFSET_LIMIT) as int) * ((
            flat_bottom + offset) as int)) by (nonlinear_arith)
                requires
                    0 < flat_bottom <= flat_bottom + offset,
                    -(POINT_LIMIT + OFFSET_LIMIT) <= z <= POINT_LIMIT + OFFSET_LIMIT,
            ;
            crate::fixed::lemma_mul_bounds(
                flat_bottom as int,
                COORD_LIMIT as int,
                z as int,
                (POINT_LIMIT + OFFSET_LIMIT) as int,
            );
            lemma_div_between(
                (flat_bottom as int) * (z as int),
                (flat_bottom + offset) as int,
                -((POINT_LIMIT + OFFSET_LIMIT) as int),
                (POINT_LIMIT + OFFSET_LIMIT) as int,
            );
        }
        let q: i128 = ceil_div((flat_bottom as i128) * (z as i128), (flat_bottom + offset) as i128);
        q as i64
    } else {
        z - offset
    }
}

/// The Jacobian of the blend at height `z`: not below one wherever offsets
/// are not negative.
pub fn jacobian_flat_bottom(z: i64, offset: i64, flat_bottom: i64) -> (r: i128)
    requires
        -OFFSET_LIMIT <= offset <= OFFSET_LIMIT,
        0 <= flat_bottom <= COORD_LIMIT,
        flat_bottom > 0 ==> offset >= 0,
    ensures
        r == spec_jacobian_flat_bottom(z as int, offset as int, flat_bottom as int),
        r >= SCALE,
{
    if flat_bottom > 0 && z <= flat_bottom {
        proof {
            vstd::arithmetic::mul::lemma_mul_nonnegative(offset as int, SCALE as int);
            vstd::arithmetic::mul::lemma_mul_upper_bound(
                offset as int,
                OFFSET_LIMIT as int,
                SCALE as int,
                SCALE as int,
            );
            lemma_div_pos_is_pos((offset as int) * (SCALE as int), flat_bottom as int);
            vstd::arithmetic::div_mod::lemma_div_nonincreasing(
                (offset as int) * (SCALE as int),
                flat_bottom as int,
            );
        }
        let p: i128 = (offset as i128) * (SCALE as i128);
        let q: i128 = floor_div(p, flat_bottom as i128);
        (SCALE as i128) + q
    } else {
        SCALE as i128
    }
}

/// The round trip is exact: for any offset that is not negative wherever a
/// blend is configured, the inverse blend undoes the forward blend on every
/// integer height. Applied to a transform through
/// `lemma_apply_inverse_exact`.
pub proof fn lemma_flat_bottom_round_trip(z: int, offset: int, flat_bottom: int)
    requires
        flat_bottom >= 0,
        flat_bottom > 0 ==> offset >= 0,
    ensures
        spec_apply_flat_bottom_inverse(
            spec_apply_flat_bottom(z, offset, flat_bottom),
            offset,
            flat_bottom,
        ) == z,
{
    let fb = flat_bottom;
    let off = offset;
    if fb > 0 {
        if z < fb {
            let q = z * off / fb;
            let r = z * off % fb;
            lemma_fundamental_div_mod(z * off, fb);
            lemma_mod_bound(z * off, fb);
            let z2 = z + q;
            assert(z * off <= fb * off) by (nonlinear_arith)
                requires
                    z < fb,
                    off >= 0,
            ;
            lemma_div_is_ordered(z * off, fb * off, fb);
            lemma_div_multiples_vanish(off, fb);
            assert(q <= off);
            assert(z2 <= fb + off);
            assert(fb * z2 == z * (fb + off) - r) by (nonlinear_arith)
                requires
                    z * off == fb * q + r,
                    z2 == z + q,
            ;
            if r == 0 {
                assert(fb * z2 == z * (fb + off) + 0);
                lemma_fundamental_div_mod_converse(fb * z2, fb + off, z, 0);
            } else {
                assert(fb * z2 == (z - 1) * (fb + off) + (fb + off - r)) by (nonlinear_arith)
                    requires
                        fb * z2 == z * (fb + off) - r,
                ;
                lemma_fundamental_div_mod_converse(fb * z2, fb + off, z - 1, fb + off - r);
            }
        } else {
            let z2 = z + off;
            if z == fb {
                assert(fb * z2 == fb * (fb + off) + 0) by (nonlinear_arith)
                    requires
                        z2 == fb + off,
                ;
                lemma_fundamental_div_mod_converse(fb * z2, fb + off, fb, 0);
            } else {
                assert(z2 > fb + off);
            }
        }
    }
}

/// Inverse correctness: the inverse map is an exact left inverse of the
/// forward map, for every well-formed transform and every point (the
/// spherical variant included, since its offset saturates rather than fail).
pub proof fn lemma_apply_inverse_exact(t: Transform, x: int, y: int, z: int)
    requires
        t.wf(),
    ensures
        t.spec_inverse_z(x, y, t.spec_apply_z(x, y, z)) == z,
{
    lemma_offset_signs(t, x, y);
    lemma_flat_bottom_round_trip(z, t.spec_offset(x, y), t.flat_bottom());
}

/// Wherever a blend is configured, a well-formed transform's offset is not
/// negative (downward cones exclude blends by `wf`).
pub proof fn lemma_offset_signs(t: Transform, x: int, y: int)
    requires
        t.wf(),
    ensures
        t.flat_bottom() >= 0,
        t.flat_bottom() > 0 ==> t.spec_offset(x, y) >= 0,
{
    match t {
        Transform::Conical { slope, flat_bottom } => {
            if flat_bottom > 0 {
                assert(x * x >= 0 && y * y >= 0) by (nonlinear_arith);
                lemma_sqrt_nonneg_context(x * x + y * y);
                vstd::arithmetic::mul::lemma_mul_nonnegative(
                    slope as int,
                    sqrt_floor(x * x + y * y),
                );
                lemma_div_pos_is_pos((slope as int) * sqrt_floor(x * x + y * y), SCALE as int);
            }
        },
        Transform::Sinusoidal { height, pitch, flat_bottom } => {
            if flat_bottom > 0 {
                lemma_sinusoidal_offset_range(x, y, height as int, pitch as int);
            }
        },
        Transform::Spherical { radius, flat_bottom } => {
            if flat_bottom > 0 {
                lemma_spherical_offset_range(x, y, radius as int);
            }
        },
    }
}

/// The root of a nonnegative number is nonnegative.
proof fn lemma_sqrt_nonneg_context(n: int)
    requires
        n >= 0,
    ensures
        sqrt_floor(n) >= 0,
{
    assert(n <= (n + 1) * (n + 1)) by (nonlinear_arith)
        requires
            n >= 0,
    ;
    lemma_sqrt_floor_bound(n, n + 1);
}

/// The sinusoidal offset lies between zero and the height.
pub proof fn lemma_sinusoidal_offset_range(x: int, y: int, height: int, pitch: int)
    requires
        0 <= height,
        pitch != 0,
    ensures
        0 <= spec_sinusoidal_offset(x, y, height, pitch) <= height,
{
    let px = spec_phase(x, pitch);
    let py = spec_phase(y, pitch);
    lemma_phase_range(x, pitch);
    lemma_phase_range(y, pitch);
    lemma_sin2pi_range(px);
    lemma_cos2pi_range(py);
    let s = spec_sin2pi(px);
    let c = spec_cos2pi(py);
    assert(-(SCALE as int) * (SCALE as int) <= s * c <= (SCALE as int) * (SCALE as int))
        by (nonlinear_arith)
        requires
            -SCALE <= s <= SCALE,
            -SCALE <= c <= SCALE,
    ;
    lemma_div_between(s * c, SCALE as int, -(SCALE as int), SCALE as int);
    let w = (s * c / (SCALE as int) + (SCALE as int)) / 2;
    lemma_div_between(s * c / (SCALE as int) + (SCALE as int), 2, 0, SCALE as int);
    assert(0 <= height * w <= height * (SCALE as int)) by (nonlinear_arith)
        requires
            0 <= height,
            0 <= w <= SCALE,
    ;
    lemma_div_between(height * w, SCALE as int, 0, height);
}

/// A phase is a residue: always in `[0, SCALE)`.
pub proof fn lemma_phase_range(v: int, pitch: int)
    requires
        pitch != 0,
    ensures
        0 <= spec_phase(v, pitch) < SCALE,
{
    let p = if pitch >= 0 { pitch } else { -pitch };
    let w = if pitch >= 0 { v } else { -v };
    lemma_mod_bound(w * (SCALE as int) / p, SCALE as int);
}

/// The spherical offset lies between zero and the radius.
pub proof fn lemma_spherical_offset_range(x: int, y: int, radius: int)
    requires
        0 <= radius,
    ensures
        0 <= spec_spherical_offset(x, y, radius) <= radius,
{
    let d = radius * radius - x * x - y * y;
    let dd = if d >= 0 { d } else { 0 };
    assert(x * x >= 0 && y * y >= 0) by (nonlinear_arith);
    assert(radius * radius >= 0) by (nonlinear_arith)
        requires
            radius >= 0,
    ;
    assert(dd <= radius * radius);
    lemma_sqrt_floor_bound(dd, radius);
}

} // verus!
