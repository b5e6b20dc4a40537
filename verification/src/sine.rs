//! Fixed-point circular functions.
//!
//! Angles are fractions of a full turn, held like every other scalar as
//! counts of `1/SCALE`. The sine is Bhaskara I's rational approximation,
//! evaluated in fixed point: for a fraction `t` of a turn in the first half
//! turn,
//!
//! ```text
//! sin(2*pi*t) ~= 16*t*(1/2 - t) / (5/4 - 4*t*(1/2 - t))
//! ```
//!
//! and the second half turn is the odd reflection of the first. The
//! approximation is exact at `t = 0`, `t = 1/4` and `t = 1/2`, and every
//! contract downstream is exact over this definition. The cosine is the sine
//! a quarter turn ahead.

use vstd::prelude::*;
use crate::fixed::{SCALE, floor_div};

verus! {

/// Half a turn, in least units of a turn.
pub const HALF_TURN: i64 = 50_000;

/// A quarter turn, in least units of a turn.
pub const QUARTER_TURN: i64 = 25_000;

/// The rational half-wave: defined for `0 <= t <= HALF_TURN`, rising from 0
/// to `SCALE` at the quarter turn and back to 0.
pub open spec fn spec_half_wave(t: int) -> int {
    let u = t * (HALF_TURN - t) / (SCALE as int);
    16 * u * (SCALE as int) / (125_000 - 4 * u)
}

/// Sine of the turn fraction `t`, for `0 <= t < SCALE`.
pub open spec fn spec_sin2pi(t: int) -> int {
    if t <= HALF_TURN {
        spec_half_wave(t)
    } else {
        -spec_half_wave(t - HALF_TURN)
    }
}

/// Cosine of the turn fraction `t`: the sine a quarter turn ahead.
pub open spec fn spec_cos2pi(t: int) -> int {
    spec_sin2pi((t + QUARTER_TURN) % (SCALE as int))
}

/// `t * (HALF_TURN - t)` peaks at the quarter turn.
proof fn lemma_u_bounds(t: int)
    requires
        0 <= t <= HALF_TURN,
    ensures
        0 <= t * (HALF_TURN - t) <= 625_000_000,
{
    assert(0 <= t * (50_000 - t) <= 625_000_000) by (nonlinear_arith)
        requires
            0 <= t <= 50_000,
    ;
}

/// The half-wave stays within `[0, SCALE]`.
pub proof fn lemma_half_wave_range(t: int)
    requires
        0 <= t <= HALF_TURN,
    ensures
        0 <= spec_half_wave(t) <= SCALE,
{
    lemma_u_bounds(t);
    let u = t * (HALF_TURN - t) / (SCALE as int);
    vstd::arithmetic::div_mod::lemma_div_pos_is_pos(t * (HALF_TURN - t), SCALE as int);
    crate::fixed::lemma_div_between(t * (HALF_TURN - t), SCALE as int, 0, 6250);
    let num = 16 * u * (SCALE as int);
    let den = 125_000 - 4 * u;
    assert(100_000 <= den <= 125_000);
    assert(0 <= 16 * u * (SCALE as int) <= (SCALE as int) * den) by (nonlinear_arith)
        requires
            0 <= u <= 6250,
            den == 125_000 - 4 * u,
    ;
    vstd::arithmetic::div_mod::lemma_div_pos_is_pos(num, den);
    crate::fixed::lemma_div_between(num, den, 0, SCALE as int);
}

/// The sine stays within `[-SCALE, SCALE]`.
pub proof fn lemma_sin2pi_range(t: int)
    requires
        0 <= t < SCALE,
    ensures
        -SCALE <= spec_sin2pi(t) <= SCALE,
{
    if t <= HALF_TURN {
        lemma_half_wave_range(t);
    } else {
        lemma_half_wave_range(t - HALF_TURN);
    }
}

/// The cosine stays within `[-SCALE, SCALE]`.
pub proof fn lemma_cos2pi_range(t: int)
    requires
        0 <= t < SCALE,
    ensures
        -SCALE <= spec_cos2pi(t) <= SCALE,
{
    vstd::arithmetic::div_mod::lemma_mod_bound(t + QUARTER_TURN, SCALE as int);
    lemma_sin2pi_range((t + QUARTER_TURN) % (SCALE as int));
}

/// The rising half-wave of the sine.
fn half_wave(t: i64) -> (r: i64)
    requires
        0 <= t <= HALF_TURN,
    ensures
        r == spec_half_wave(t as int),
        0 <= r <= SCALE,
{
    proof {
        lemma_u_bounds(t as int);
        lemma_half_wave_range(t as int);
        vstd::arithmetic::div_mod::lemma_div_pos_is_pos(
            (t as int) * ((HALF_TURN - t) as int),
            SCALE as int,
        );
        crate::fixed::lemma_div_between((t as int) * ((HALF_TURN - t) as int), SCALE as int, 0, 6250);
    }
    let u: i64 = floor_div((t as i128) * ((HALF_TURN - t) as i128), SCALE as i128) as i64;
    let num: i64 = 16 * u;
    let den: i64 = 125_000 - 4 * u;
    let r: i64 = floor_div((num as i128) * (SCALE as i128), den as i128) as i64;
    r
}

/// Sine of the turn fraction `t`.
pub fn sin2pi(t: i64) -> (r: i64)
    requires
        0 <= t < SCALE,
    ensures
        r == spec_sin2pi(t as int),
        -SCALE <= r <= SCALE,
{
    if t <= HALF_TURN {
        half_wave(t)
    } else {
        let w: i64 = half_wave(t - HALF_TURN);
        -w
    }
}

/// Cosine of the turn fraction `t`.
pub fn cos2pi(t: i64) -> (r: i64)
    requires
        0 <= t < SCALE,
    ensures
        r == spec_cos2pi(t as int),
        -SCALE <= r <= SCALE,
{
    let shifted: i64 = if t + QUARTER_TURN < SCALE {
        t + QUARTER_TURN
    } else {
        t + QUARTER_TURN - SCALE
    };
    proof {
        if t + QUARTER_TURN < SCALE {
            vstd::arithmetic::div_mod::lemma_small_mod((t + QUARTER_TURN) as nat, SCALE as nat);
        } else {
            vstd::arithmetic::div_mod::lemma_fundamental_div_mod_converse(
                t + QUARTER_TURN,
                SCALE as int,
                1,
                t + QUARTER_TURN - SCALE,
            );
        }
    }
    sin2pi(shifted)
}

} // verus!
