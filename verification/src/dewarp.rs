//! The toolpath rewriter.
//!
//! A stream of lines is folded through a small machine: an enable flag, a
//! centre, the last known position (three axes plus extrusion), and a
//! corrected extrusion accumulator. Outside an enabled block every line
//! passes through unchanged. Inside, each motion is subdivided, every
//! waypoint is mapped back through the inverse transform, and the extrusion
//! delta of each sub-segment is divided by the Jacobian determinant at the
//! unwarped point. The whole fold is stated by `spec_dewarp_gcode`;
//! `dewarp_gcode` returns exactly what it says.

use vstd::prelude::*;
use crate::fixed::{SCALE, COORD_LIMIT, floor_div, sqrt_floor, lemma_sqrt_floor_is,
    lemma_sqrt_floor_bound, lemma_div_between};
use crate::vector::{Vector, Vec4};
use crate::transform::{Transform, spec_jacobian_flat_bottom, POINT_LIMIT, OFFSET_LIMIT};
use crate::command::{Command, G0, G1};
use crate::parser::spec_parse_line;
use vstd::arithmetic::div_mod::{lemma_fundamental_div_mod, lemma_mod_bound,
    lemma_div_multiples_vanish, lemma_div_pos_is_pos};

verus! {

/// Magnitude cap for the corrected extrusion accumulator: a stream that
/// drives it past this is rejected rather than wrapped.
pub const CORRECTED_E_LIMIT: i64 = 1_000_000_000_000_000_000;

/// Why a rewrite run stops.
#[derive(Clone, Copy, PartialEq, Eq, Structural, Debug)]
pub enum DewarpError {
    /// A set-position command put the extruder at a value other than zero,
    /// which would desynchronize the corrected accumulator.
    UnsupportedExtruderReset,
    /// The corrected extrusion accumulator left its representable range.
    ExtrusionOutOfRange,
}

impl DewarpError {
    /// A short diagnostic text.
    pub fn describe(&self) -> (r: &'static str)
        ensures
            self is UnsupportedExtruderReset ==> r@ == "G92 to a nonzero E is not supported"@,
            self is ExtrusionOutOfRange ==> r@ == "corrected extrusion out of range"@,
    {
        match *self {
            DewarpError::UnsupportedExtruderReset => "G92 to a nonzero E is not supported",
            DewarpError::ExtrusionOutOfRange => "corrected extrusion out of range",
        }
    }
}

/// The rewriter's state between lines.
#[derive(Clone, Copy, PartialEq, Eq, Structural, Debug)]
pub struct ToolState {
    pub enabled: bool,
    pub center: Vector,
    pub last_pos: Vec4,
    pub corrected_e: i64,
}

impl ToolState {
    /// Everything the arithmetic needs: the centre within limits on the
    /// bed's plane, the position within limits (the z axis may carry the
    /// warped-box offset), the accumulator within its cap.
    pub open spec fn wf(self) -> bool {
        &&& -COORD_LIMIT <= self.center.x <= COORD_LIMIT
        &&& -COORD_LIMIT <= self.center.y <= COORD_LIMIT
        &&& self.center.z == 0
        &&& -COORD_LIMIT <= self.last_pos.x <= COORD_LIMIT
        &&& -COORD_LIMIT <= self.last_pos.y <= COORD_LIMIT
        &&& -2 * COORD_LIMIT <= self.last_pos.z <= 2 * COORD_LIMIT
        &&& -COORD_LIMIT <= self.last_pos.e <= COORD_LIMIT
        &&& -CORRECTED_E_LIMIT <= self.corrected_e <= CORRECTED_E_LIMIT
    }

    /// Before any line: disabled, at the origin, nothing extruded.
    pub open spec fn spec_initial() -> ToolState {
        ToolState {
            enabled: false,
            center: Vector { x: 0, y: 0, z: 0 },
            last_pos: Vec4 { x: 0, y: 0, z: 0, e: 0 },
            corrected_e: 0,
        }
    }

    /// The initial state, as a value.
    pub fn initial() -> (r: ToolState)
        ensures
            r == ToolState::spec_initial(),
    {
        ToolState {
            enabled: false,
            center: Vector { x: 0, y: 0, z: 0 },
            last_pos: Vec4 { x: 0, y: 0, z: 0, e: 0 },
            corrected_e: 0,
        }
    }
}

/// The value, or the fallback for an absent axis.
pub open spec fn opt_or(v: Option<i64>, d: i64) -> i64 {
    match v {
        Option::Some(w) => w,
        Option::None => d,
    }
}

/// The target of a motion or set-position: absent axes keep the last
/// position; an explicit z gains the warped-box offset while rewriting is
/// enabled.
pub open spec fn spec_target(
    last: Vec4,
    gx: Option<i64>,
    gy: Option<i64>,
    gz: Option<i64>,
    ge: Option<i64>,
    enabled: bool,
    z_offset: i64,
) -> Vec4 {
    Vec4 {
        x: opt_or(gx, last.x),
        y: opt_or(gy, last.y),
        z: match gz {
            Option::Some(zv) => if enabled {
                (zv + z_offset) as i64
            } else {
                zv
            },
            Option::None => last.z,
        },
        e: opt_or(ge, last.e),
    }
}

/// How many sub-segments a motion becomes: the spatial length over the step
/// bound, rounded down, at least one.
pub open spec fn spec_nway(from: Vec4, to: Vec4, m: i64) -> int {
    let dx = to.x - from.x;
    let dy = to.y - from.y;
    let dz = to.z - from.z;
    let len = sqrt_floor(dx * dx + dy * dy + dz * dz);
    let n = len / (m as int);
    if n < 1 {
        1
    } else {
        n
    }
}

/// The `i`-th of `n` evenly spaced waypoints (the `n`-th is the target
/// exactly); all four axes interpolate.
pub open spec fn spec_lerp4(from: Vec4, to: Vec4, i: int, n: int) -> Vec4 {
    Vec4 {
        x: (from.x + (to.x - from.x) * i / n) as i64,
        y: (from.y + (to.y - from.y) * i / n) as i64,
        z: (from.z + (to.z - from.z) * i / n) as i64,
        e: (from.e + (to.e - from.e) * i / n) as i64,
    }
}

/// The height of the waypoint mapped back to the flat reference, before
/// re-adding the centre.
pub open spec fn spec_unwarped_z(t: Transform, center: Vector, p: Vec4) -> int {
    t.spec_inverse_z(p.x - center.x, p.y - center.y, p.z - center.z)
}

/// The rewritten height of a waypoint (the x and y axes pass through the
/// inverse unchanged).
pub open spec fn spec_dewarped_z(t: Transform, center: Vector, p: Vec4) -> int {
    spec_unwarped_z(t, center, p) + center.z
}

/// The Jacobian determinant at the unwarped point under a waypoint.
pub open spec fn spec_way_jac(t: Transform, center: Vector, p: Vec4) -> int {
    spec_jacobian_flat_bottom(
        spec_unwarped_z(t, center, p),
        t.spec_offset(p.x - center.x, p.y - center.y),
        t.flat_bottom(),
    )
}

/// The corrected accumulator after the first `i` waypoints of one motion:
/// each sub-segment's extrusion delta, divided by the Jacobian at its
/// endpoint.
pub open spec fn spec_acc_e(
    t: Transform,
    center: Vector,
    from: Vec4,
    to: Vec4,
    n: int,
    i: int,
    start: int,
) -> int
    decreases i,
{
    if i <= 0 {
        start
    } else {
        let prev = spec_acc_e(t, center, from, to, n, i - 1, start);
        let d = spec_lerp4(from, to, i, n).e - spec_lerp4(from, to, i - 1, n).e;
        prev + d * (SCALE as int) / spec_way_jac(t, center, spec_lerp4(from, to, i, n))
    }
}

/// Whether the accumulator stays within its cap through one whole motion.
pub open spec fn spec_acc_in_range(
    t: Transform,
    center: Vector,
    from: Vec4,
    to: Vec4,
    n: int,
    start: int,
) -> bool {
    forall|i: int|
        1 <= i <= n ==> -CORRECTED_E_LIMIT <= #[trigger] spec_acc_e(t, center, from, to, n, i, start)
            <= CORRECTED_E_LIMIT
}

/// The line emitted for waypoint `i` of a motion: the same command kind,
/// the waypoint's x and y, the clamped rewritten z, the corrected
/// accumulator as e, and the source command's other axes unchanged.
pub open spec fn spec_motion_line(
    rapid: bool,
    sa: Option<i64>,
    sb: Option<i64>,
    sc: Option<i64>,
    sf: Option<i64>,
    t: Transform,
    center: Vector,
    from: Vec4,
    to: Vec4,
    n: int,
    i: int,
    start: int,
) -> Seq<u8> {
    let p = spec_lerp4(from, to, i, n);
    let dz = spec_dewarped_z(t, center, p);
    let zc = (if dz < 0 {
        0
    } else {
        dz
    }) as i64;
    let acc = spec_acc_e(t, center, from, to, n, i, start) as i64;
    if rapid {
        (G0 {
            x: Option::Some(p.x),
            y: Option::Some(p.y),
            z: Option::Some(zc),
            a: sa,
            b: sb,
            c: sc,
            e: Option::Some(acc),
            f: sf,
        }).spec_render()
    } else {
        (G1 {
            x: Option::Some(p.x),
            y: Option::Some(p.y),
            z: Option::Some(zc),
            a: sa,
            b: sb,
            c: sc,
            e: Option::Some(acc),
            f: sf,
        }).spec_render()
    }
}

/// The lines emitted for one enabled motion, waypoint by waypoint.
pub open spec fn spec_motion_outs(
    rapid: bool,
    sa: Option<i64>,
    sb: Option<i64>,
    sc: Option<i64>,
    sf: Option<i64>,
    t: Transform,
    center: Vector,
    from: Vec4,
    to: Vec4,
    n: int,
    start: int,
) -> Seq<Seq<u8>> {
    Seq::new(n as nat, |i: int| spec_motion_line(rapid, sa, sb, sc, sf, t, center, from, to, n, i + 1, start))
}

/// One motion command's whole effect on the machine.
pub open spec fn spec_motion_step(
    st: ToolState,
    rapid: bool,
    gx: Option<i64>,
    gy: Option<i64>,
    gz: Option<i64>,
    ga: Option<i64>,
    gb: Option<i64>,
    gc: Option<i64>,
    ge: Option<i64>,
    gf: Option<i64>,
    line: Seq<u8>,
    t: Transform,
    m: i64,
    z_offset: i64,
) -> Result<(ToolState, Seq<Seq<u8>>), DewarpError> {
    let to = spec_target(st.last_pos, gx, gy, gz, ge, st.enabled, z_offset);
    if !st.enabled {
        Result::Ok((ToolState { last_pos: to, ..st }, seq![line]))
    } else {
        let n = spec_nway(st.last_pos, to, m);
        if spec_acc_in_range(t, st.center, st.last_pos, to, n, st.corrected_e as int) {
            Result::Ok(
                (
                    ToolState {
                        last_pos: to,
                        corrected_e: spec_acc_e(
                            t,
                            st.center,
                            st.last_pos,
                            to,
                            n,
                            n,
                            st.corrected_e as int,
                        ) as i64,
                        ..st
                    },
                    spec_motion_outs(
                        rapid,
                        ga,
                        gb,
                        gc,
                        gf,
                        t,
                        st.center,
                        st.last_pos,
                        to,
                        n,
                        st.corrected_e as int,
                    ),
                ),
            )
        } else {
            Result::Err(DewarpError::ExtrusionOutOfRange)
        }
    }
}

/// One line's whole effect on the machine: what changes, and what is
/// emitted. An unrecognized line passes through; a motion outside an
/// enabled block passes through with the position tracked; the enable and
/// disable markers emit nothing; a set-position echoes, resets the
/// accumulator when it sets e to zero, and fails when it sets e elsewhere.
pub open spec fn spec_step(
    st: ToolState,
    line: Seq<u8>,
    t: Transform,
    m: i64,
    z_offset: i64,
) -> Result<(ToolState, Seq<Seq<u8>>), DewarpError> {
    match spec_parse_line(line) {
        Option::None => Result::Ok((st, seq![line])),
        Option::Some(cmd) => match cmd {
            Command::G0(g) => spec_motion_step(
                st,
                true,
                g.x,
                g.y,
                g.z,
                g.a,
                g.b,
                g.c,
                g.e,
                g.f,
                line,
                t,
                m,
                z_offset,
            ),
            Command::G1(g) => spec_motion_step(
                st,
                false,
                g.x,
                g.y,
                g.z,
                g.a,
                g.b,
                g.c,
                g.e,
                g.f,
                line,
                t,
                m,
                z_offset,
            ),
            Command::G92(g) => {
                let to = Vec4 {
                    x: opt_or(g.x, st.last_pos.x),
                    y: opt_or(g.y, st.last_pos.y),
                    z: opt_or(g.z, st.last_pos.z),
                    e: opt_or(g.e, st.last_pos.e),
                };
                if match g.e {
                    Option::Some(ev) => ev != 0,
                    Option::None => false,
                } {
                    Result::Err(DewarpError::UnsupportedExtruderReset)
                } else {
                    Result::Ok(
                        (
                            ToolState {
                                last_pos: to,
                                corrected_e: if g.e is Some {
                                    0
                                } else {
                                    st.corrected_e
                                },
                                ..st
                            },
                            seq![line],
                        ),
                    )
                }
            },
            Command::BEGIN_DEWARP(b) => Result::Ok(
                (
                    ToolState {
                        enabled: true,
                        center: Vector {
                            x: (opt_or(b.x, 0) / 2) as i64,
                            y: (opt_or(b.y, 0) / 2) as i64,
                            z: 0,
                        },
                        ..st
                    },
                    Seq::empty(),
                ),
            ),
            Command::END_DEWARP(_) => Result::Ok(
                (ToolState { enabled: false, ..st }, Seq::empty()),
            ),
        },
    }
}

/// The whole stream folded from a given state: the final state and every
/// emitted line, in order, or the first failure.
pub open spec fn spec_dewarp_lines(
    lines: Seq<Seq<u8>>,
    st: ToolState,
    t: Transform,
    m: i64,
    z_offset: i64,
) -> Result<(ToolState, Seq<Seq<u8>>), DewarpError>
    decreases lines.len(),
{
    if lines.len() == 0 {
        Result::Ok((st, Seq::empty()))
    } else {
        match spec_step(st, lines[0], t, m, z_offset) {
            Result::Ok((st2, outs)) => match spec_dewarp_lines(
                lines.skip(1),
                st2,
                t,
                m,
                z_offset,
            ) {
                Result::Ok((stf, rest)) => Result::Ok((stf, outs + rest)),
                Result::Err(e) => Result::Err(e),
            },
            Result::Err(e) => Result::Err(e),
        }
    }
}

/// The rewritten stream, from the initial state.
pub open spec fn spec_dewarp_gcode(
    lines: Seq<Seq<u8>>,
    t: Transform,
    m: i64,
    z_offset: i64,
) -> Result<Seq<Seq<u8>>, DewarpError> {
    match spec_dewarp_lines(lines, ToolState::spec_initial(), t, m, z_offset) {
        Result::Ok((stf, outs)) => Result::Ok(outs),
        Result::Err(e) => Result::Err(e),
    }
}

/// A line that neither toggles rewriting nor resets the extruder to a
/// nonzero value: everything the rewriter passes through unchanged while
/// rewriting is off.
pub open spec fn spec_passive_line(l: Seq<u8>) -> bool {
    match spec_parse_line(l) {
        Option::Some(cmd) => match cmd {
            Command::BEGIN_DEWARP(_) => false,
            Command::END_DEWARP(_) => false,
            Command::G92(g) => match g.e {
                Option::Some(ev) => ev == 0,
                Option::None => true,
            },
            Command::G0(_) => true,
            Command::G1(_) => true,
        },
        Option::None => true,
    }
}

/// From a disabled state, a stream of passive lines folds to itself.
proof fn lemma_passive_fold(lines: Seq<Seq<u8>>, st: ToolState, t: Transform, m: i64, z_offset: i64)
    requires
        !st.enabled,
        forall|i: int| 0 <= i < lines.len() ==> spec_passive_line(#[trigger] lines[i]),
    ensures
        match spec_dewarp_lines(lines, st, t, m, z_offset) {
            Result::Ok((stf, outs)) => outs == lines && !stf.enabled,
            Result::Err(_) => false,
        },
    decreases lines.len(),
{
    if lines.len() > 0 {
        let l0 = lines[0];
        assert(spec_passive_line(l0));
        let step = spec_step(st, l0, t, m, z_offset);
        assert(step is Ok && step->Ok_0.1 == seq![l0] && !step->Ok_0.0.enabled);
        let st2 = step->Ok_0.0;
        assert(forall|i: int|
            0 <= i < lines.skip(1).len() ==> spec_passive_line(#[trigger] lines.skip(1)[i]));
        lemma_passive_fold(lines.skip(1), st2, t, m, z_offset);
        match spec_dewarp_lines(lines.skip(1), st2, t, m, z_offset) {
            Result::Ok((stf, rest)) => {
                assert(seq![l0] + rest =~= lines);
            },
            Result::Err(_) => {},
        }
    }
}

/// Identity outside an enabled block: a stream that never turns rewriting on
/// and never resets the extruder to a nonzero value comes out line for line
/// unchanged.
pub proof fn lemma_identity_outside_enable(lines: Seq<Seq<u8>>, t: Transform, m: i64, z_offset: i64)
    requires
        forall|i: int| 0 <= i < lines.len() ==> spec_passive_line(#[trigger] lines[i]),
    ensures
        spec_dewarp_gcode(lines, t, m, z_offset) == Result::<Seq<Seq<u8>>, DewarpError>::Ok(lines),
{
    lemma_passive_fold(lines, ToolState::spec_initial(), t, m, z_offset);
}

/// Extrusion conservation: where the Jacobian determinant is one constant
/// `k` along a motion, the corrected extrusion gained over the motion is the
/// source extrusion delta scaled by `SCALE / k`, to within one rounding
/// quantum for each sub-segment.
pub proof fn lemma_extrusion_conservation(
    t: Transform,
    center: Vector,
    from: Vec4,
    to: Vec4,
    n: int,
    i: int,
    start: int,
    k: int,
)
    requires
        1 <= n,
        0 <= i <= n,
        k >= 1,
        forall|j: int|
            1 <= j <= n ==> spec_way_jac(t, center, #[trigger] spec_lerp4(from, to, j, n)) == k,
    ensures
        k * (spec_acc_e(t, center, from, to, n, i, start) - start) <= (spec_lerp4(
            from,
            to,
            i,
            n,
        ).e - spec_lerp4(from, to, 0, n).e) * (SCALE as int),
        (spec_lerp4(from, to, i, n).e - spec_lerp4(from, to, 0, n).e) * (SCALE as int) <= k * (
        spec_acc_e(t, center, from, to, n, i, start) - start) + i * k,
    decreases i,
{
    if i == 0 {
        assert(k * (start - start) == 0) by (nonlinear_arith);
    } else {
        lemma_extrusion_conservation(t, center, from, to, n, i - 1, start, k);
        let prev = spec_acc_e(t, center, from, to, n, i - 1, start);
        let cur = spec_acc_e(t, center, from, to, n, i, start);
        let d = spec_lerp4(from, to, i, n).e - spec_lerp4(from, to, i - 1, n).e;
        let inc = d * (SCALE as int) / k;
        lemma_fundamental_div_mod(d * (SCALE as int), k);
        lemma_mod_bound(d * (SCALE as int), k);
        let r = d * (SCALE as int) % k;
        assert(cur == prev + inc);
        assert(k * (cur - start) == k * (prev - start) + k * inc) by (nonlinear_arith)
            requires
                cur == prev + inc,
        ;
        assert(k * inc == d * (SCALE as int) - r) by (nonlinear_arith)
            requires
                d * (SCALE as int) == k * inc + r,
        ;
        let e0 = spec_lerp4(from, to, 0, n).e as int;
        let eprev = spec_lerp4(from, to, i - 1, n).e as int;
        let ecur = spec_lerp4(from, to, i, n).e as int;
        assert((ecur - e0) * (SCALE as int) == (eprev - e0) * (SCALE as int) + d * (SCALE as int))
            by (nonlinear_arith)
            requires
                d == ecur - eprev,
        ;
        assert(i * k == (i - 1) * k + k) by (nonlinear_arith);
    }
}

/// The byte lines a list of line buffers holds.
pub open spec fn lines_view(v: Seq<Vec<u8>>) -> Seq<Seq<u8>> {
    Seq::new(v.len(), |i: int| v[i]@)
}

/// One interpolated coordinate stays between its endpoints.
proof fn lemma_lerp_coord(f: int, t: int, i: int, n: int)
    requires
        1 <= n,
        0 <= i <= n,
    ensures
        f + (t - f) * i / n >= if f <= t {
            f
        } else {
            t
        },
        f + (t - f) * i / n <= if f <= t {
            t
        } else {
            f
        },
{
    let d = t - f;
    if d >= 0 {
        assert(0 * n <= d * i <= d * n) by (nonlinear_arith)
            requires
                0 <= i <= n,
                d >= 0,
        ;
        lemma_div_between(d * i, n, 0, d);
    } else {
        assert(d * n <= d * i <= 0 * n) by (nonlinear_arith)
            requires
                0 <= i <= n,
                d < 0,
        ;
        lemma_div_between(d * i, n, d, 0);
    }
}

/// Every waypoint stays, axis by axis, between the endpoints.
proof fn lemma_lerp4_bounds(from: Vec4, to: Vec4, i: int, n: int)
    requires
        1 <= n,
        0 <= i <= n,
        from.bounded(2 * COORD_LIMIT as int),
        to.bounded(2 * COORD_LIMIT as int),
    ensures
        spec_lerp4(from, to, i, n).x == from.x + (to.x - from.x) * i / n,
        spec_lerp4(from, to, i, n).y == from.y + (to.y - from.y) * i / n,
        spec_lerp4(from, to, i, n).z == from.z + (to.z - from.z) * i / n,
        spec_lerp4(from, to, i, n).e == from.e + (to.e - from.e) * i / n,
        spec_lerp4(from, to, i, n).x >= if from.x <= to.x { from.x as int } else { to.x as int },
        spec_lerp4(from, to, i, n).x <= if from.x <= to.x { to.x as int } else { from.x as int },
        spec_lerp4(from, to, i, n).y >= if from.y <= to.y { from.y as int } else { to.y as int },
        spec_lerp4(from, to, i, n).y <= if from.y <= to.y { to.y as int } else { from.y as int },
        spec_lerp4(from, to, i, n).z >= if from.z <= to.z { from.z as int } else { to.z as int },
        spec_lerp4(from, to, i, n).z <= if from.z <= to.z { to.z as int } else { from.z as int },
        spec_lerp4(from, to, i, n).e >= if from.e <= to.e { from.e as int } else { to.e as int },
        spec_lerp4(from, to, i, n).e <= if from.e <= to.e { to.e as int } else { from.e as int },
{
    lemma_lerp_coord(from.x as int, to.x as int, i, n);
    lemma_lerp_coord(from.y as int, to.y as int, i, n);
    lemma_lerp_coord(from.z as int, to.z as int, i, n);
    lemma_lerp_coord(from.e as int, to.e as int, i, n);
}

/// The first waypoint is the start; the last is the target exactly.
proof fn lemma_lerp4_ends(from: Vec4, to: Vec4, n: int)
    requires
        1 <= n,
        from.bounded(2 * COORD_LIMIT as int),
        to.bounded(2 * COORD_LIMIT as int),
    ensures
        spec_lerp4(from, to, 0, n) == from,
        spec_lerp4(from, to, n, n) == to,
{
    lemma_div_multiples_vanish(0, n);
    lemma_div_multiples_vanish((to.x - from.x) as int, n);
    lemma_div_multiples_vanish((to.y - from.y) as int, n);
    lemma_div_multiples_vanish((to.z - from.z) as int, n);
    lemma_div_multiples_vanish((to.e - from.e) as int, n);
    assert((to.x - from.x) * 0 == n * 0 && (to.y - from.y) * 0 == n * 0 && (to.z - from.z) * 0 == n
        * 0 && (to.e - from.e) * 0 == n * 0) by (nonlinear_arith);
    assert((to.x - from.x) * n == n * ((to.x - from.x) as int)) by (nonlinear_arith);
    assert((to.y - from.y) * n == n * ((to.y - from.y) as int)) by (nonlinear_arith);
    assert((to.z - from.z) * n == n * ((to.z - from.z) as int)) by (nonlinear_arith);
    assert((to.e - from.e) * n == n * ((to.e - from.e) as int)) by (nonlinear_arith);
}

/// The rewritten point of one waypoint: the inverse transform about the
/// centre; x and y pass through.
pub fn dewarp_point(point: Vector, transform: &Transform, center: Vector) -> (r: Vector)
    requires
        transform.wf(),
        -COORD_LIMIT <= point.x <= COORD_LIMIT,
        -COORD_LIMIT <= point.y <= COORD_LIMIT,
        -2 * COORD_LIMIT <= point.z <= 2 * COORD_LIMIT,
        -COORD_LIMIT <= center.x <= COORD_LIMIT,
        -COORD_LIMIT <= center.y <= COORD_LIMIT,
        center.z == 0,
    ensures
        r.x == point.x,
        r.y == point.y,
        r.z == spec_dewarped_z(
            *transform,
            center,
            Vec4 { x: point.x, y: point.y, z: point.z, e: 0 },
        ),
        -POINT_LIMIT - 2 * OFFSET_LIMIT <= r.z <= POINT_LIMIT + 2 * OFFSET_LIMIT,
{
    let q = Vector { x: point.x - center.x, y: point.y - center.y, z: point.z - center.z };
    let w = transform.apply_inverse(q);
    Vector { x: point.x, y: point.y, z: w.z }
}

/// The Jacobian determinant at the unwarped point: divides each extrusion
/// delta.
pub fn extrusion_correction(point: Vector, transform: &Transform, center: Vector) -> (r: i128)
    requires
        transform.wf(),
        -COORD_LIMIT <= point.x <= COORD_LIMIT,
        -COORD_LIMIT <= point.y <= COORD_LIMIT,
        -2 * COORD_LIMIT <= point.z <= 2 * COORD_LIMIT,
        -COORD_LIMIT <= center.x <= COORD_LIMIT,
        -COORD_LIMIT <= center.y <= COORD_LIMIT,
        center.z == 0,
    ensures
        r == spec_way_jac(
            *transform,
            center,
            Vec4 { x: point.x, y: point.y, z: point.z, e: 0 },
        ),
        r >= SCALE,
{
    let q = Vector { x: point.x - center.x, y: point.y - center.y, z: point.z - center.z };
    let u = transform.apply_inverse(q);
    transform.jacobian(u)
}

/// The waypoints of one motion: evenly spaced, the last at the target.
pub fn interpolate(from: &Vec4, to: &Vec4, max_step: i64) -> (r: Vec<Vec4>)
    requires
        from.bounded(2 * COORD_LIMIT as int),
        to.bounded(2 * COORD_LIMIT as int),
        1 <= max_step <= COORD_LIMIT,
    ensures
        r@.len() == spec_nway(*from, *to, max_step),
        1 <= r@.len() <= 80_000_000_000,
        forall|j: int|
            0 <= j < r@.len() ==> r@[j] == spec_lerp4(*from, *to, j + 1, r@.len() as int),
{
    let dx: i64 = to.x - from.x;
    let dy: i64 = to.y - from.y;
    let dz: i64 = to.z - from.z;
    proof {
        crate::vector::lemma_abs_square_bound(dx as int, 4 * COORD_LIMIT as int);
        crate::vector::lemma_abs_square_bound(dy as int, 4 * COORD_LIMIT as int);
        crate::vector::lemma_abs_square_bound(dz as int, 4 * COORD_LIMIT as int);
        assert(3 * ((4 * COORD_LIMIT as int) * (4 * COORD_LIMIT as int)) <= (70_000_000_000 as int)
            * (70_000_000_000 as int)) by (nonlinear_arith);
    }
    let nsq: i128 = (dx as i128) * (dx as i128) + (dy as i128) * (dy as i128) + (dz as i128) * (dz
        as i128);
    let len: u128 = crate::fixed::isqrt(nsq as u128);
    proof {
        lemma_sqrt_floor_is(nsq as int, len as int);
        lemma_sqrt_floor_bound(nsq as int, 70_000_000_000);
        lemma_div_pos_is_pos(len as int, max_step as int);
        vstd::arithmetic::div_mod::lemma_div_nonincreasing(len as int, max_step as int);
    }
    let n0: i128 = floor_div(len as i128, max_step as i128);
    let n: i64 = if n0 < 1 {
        1
    } else {
        n0 as i64
    };
    let mut out: Vec<Vec4> = Vec::new();
    let mut i: i64 = 1;
    while i <= n
        invariant
            1 <= i <= n + 1,
            1 <= n <= 70_000_000_000,
            n == spec_nway(*from, *to, max_step),
            dx == to.x - from.x,
            dy == to.y - from.y,
            dz == to.z - from.z,
            from.bounded(2 * COORD_LIMIT as int),
            to.bounded(2 * COORD_LIMIT as int),
            out@.len() == i - 1,
            forall|j: int|
                0 <= j < out@.len() ==> out@[j] == spec_lerp4(*from, *to, j + 1, n as int),
        decreases n + 1 - i,
    {
        proof {
            lemma_lerp4_bounds(*from, *to, i as int, n as int);
            crate::fixed::lemma_mul_bounds(dx as int, 4 * COORD_LIMIT as int, i as int, n as int);
            crate::fixed::lemma_mul_bounds(dy as int, 4 * COORD_LIMIT as int, i as int, n as int);
            crate::fixed::lemma_mul_bounds(dz as int, 4 * COORD_LIMIT as int, i as int, n as int);
            crate::fixed::lemma_mul_bounds(
                (to.e - from.e) as int,
                4 * COORD_LIMIT as int,
                i as int,
                n as int,
            );
        }
        let px: i64 = from.x + floor_div((dx as i128) * (i as i128), n as i128) as i64;
        let py: i64 = from.y + floor_div((dy as i128) * (i as i128), n as i128) as i64;
        let pz: i64 = from.z + floor_div((dz as i128) * (i as i128), n as i128) as i64;
        let pe: i64 = from.e + floor_div(((to.e - from.e) as i128) * (i as i128), n as i128) as i64;
        out.push(Vec4 { x: px, y: py, z: pz, e: pe });
        i += 1;
    }
    out
}

/// A fresh buffer with the same bytes.
fn copy_line(line: &Vec<u8>) -> (r: Vec<u8>)
    ensures
        r@ == line@,
{
    let mut out: Vec<u8> = Vec::new();
    let mut i: usize = 0;
    while i < line.len()
        invariant
            0 <= i <= line@.len(),
            out@ == line@.take(i as int),
        decreases line@.len() - i,
    {
        out.push(line[i]);
        proof {
            assert(out@ =~= line@.take(i + 1 as int));
        }
        i += 1;
    }
    proof {
        assert(line@.take(line@.len() as int) == line@);
    }
    out
}

/// One motion, executed: track the target, and inside an enabled block
/// subdivide, rewrite, and correct the extrusion of every waypoint.
#[verifier::rlimit(60)]
fn motion_step(
    st: ToolState,
    rapid: bool,
    gx: Option<i64>,
    gy: Option<i64>,
    gz: Option<i64>,
    ga: Option<i64>,
    gb: Option<i64>,
    gc: Option<i64>,
    ge: Option<i64>,
    gf: Option<i64>,
    line: &Vec<u8>,
    transform: &Transform,
    max_line_len: i64,
    z_offset: i64,
) -> (r: Result<(ToolState, Vec<Vec<u8>>), DewarpError>)
    requires
        st.wf(),
        transform.wf(),
        1 <= max_line_len <= COORD_LIMIT,
        -COORD_LIMIT <= z_offset <= COORD_LIMIT,
        gx matches Option::Some(w) ==> -COORD_LIMIT <= w <= COORD_LIMIT,
        gy matches Option::Some(w) ==> -COORD_LIMIT <= w <= COORD_LIMIT,
        gz matches Option::Some(w) ==> -COORD_LIMIT <= w <= COORD_LIMIT,
        ga matches Option::Some(w) ==> -COORD_LIMIT <= w <= COORD_LIMIT,
        gb matches Option::Some(w) ==> -COORD_LIMIT <= w <= COORD_LIMIT,
        gc matches Option::Some(w) ==> -COORD_LIMIT <= w <= COORD_LIMIT,
        ge matches Option::Some(w) ==> -COORD_LIMIT <= w <= COORD_LIMIT,
        gf matches Option::Some(w) ==> -COORD_LIMIT <= w <= COORD_LIMIT,
    ensures
        match r {
            Result::Ok((st2, outs)) => spec_motion_step(
                st,
                rapid,
                gx,
                gy,
                gz,
                ga,
                gb,
                gc,
                ge,
                gf,
                line@,
                *transform,
                max_line_len,
                z_offset,
            ) == Result::<(ToolState, Seq<Seq<u8>>), DewarpError>::Ok((st2, lines_view(outs@)))
                && st2.wf(),
            Result::Err(e) => spec_motion_step(
                st,
                rapid,
                gx,
                gy,
                gz,
                ga,
                gb,
                gc,
                ge,
                gf,
                line@,
                *transform,
                max_line_len,
                z_offset,
            ) == Result::<(ToolState, Seq<Seq<u8>>), DewarpError>::Err(e),
        },
{
    let to = Vec4 {
        x: match gx {
            Option::Some(v) => v,
            Option::None => st.last_pos.x,
        },
        y: match gy {
            Option::Some(v) => v,
            Option::None => st.last_pos.y,
        },
        z: match gz {
            Option::Some(zv) => if st.enabled {
                zv + z_offset
            } else {
                zv
            },
            Option::None => st.last_pos.z,
        },
        e: match ge {
            Option::Some(v) => v,
            Option::None => st.last_pos.e,
        },
    };
    if !st.enabled {
        let mut outs: Vec<Vec<u8>> = Vec::new();
        outs.push(copy_line(line));
        proof {
            assert(lines_view(outs@) =~= seq![line@]);
        }
        Ok((ToolState { last_pos: to, ..st }, outs))
    } else {
        let from = st.last_pos;
        let ghost tt = *transform;
        let ghost start: int = st.corrected_e as int;
        let ways: Vec<Vec4> = interpolate(&from, &to, max_line_len);
        let n: usize = ways.len();
        let ghost nn: int = n as int;
        let mut acc: i64 = st.corrected_e;
        let mut prev_e: i64 = from.e;
        let mut outs: Vec<Vec<u8>> = Vec::new();
        proof {
            lemma_lerp4_ends(from, to, nn);
        }
        let mut k: usize = 0;
        while k < n
            invariant
                0 <= k <= n,
                nn == n as int,
                1 <= nn <= 80_000_000_000,
                nn == spec_nway(from, to, max_line_len),
                ways@.len() == nn,
                forall|j: int| 0 <= j < nn ==> ways@[j] == spec_lerp4(from, to, j + 1, nn),
                st.wf(),
                tt.wf(),
                tt == *transform,
                from == st.last_pos,
                start == st.corrected_e as int,
                st.enabled,
                to == spec_target(st.last_pos, gx, gy, gz, ge, st.enabled, z_offset),
                1 <= max_line_len <= COORD_LIMIT,
                -COORD_LIMIT <= z_offset <= COORD_LIMIT,
                from.bounded(2 * COORD_LIMIT as int),
                to.bounded(2 * COORD_LIMIT as int),
                -COORD_LIMIT <= from.x <= COORD_LIMIT,
                -COORD_LIMIT <= from.y <= COORD_LIMIT,
                -COORD_LIMIT <= from.e <= COORD_LIMIT,
                -COORD_LIMIT <= to.x <= COORD_LIMIT,
                -COORD_LIMIT <= to.y <= COORD_LIMIT,
                -COORD_LIMIT <= to.e <= COORD_LIMIT,
                1 <= max_line_len <= COORD_LIMIT,
                acc == spec_acc_e(tt, st.center, from, to, nn, k as int, start),
                -CORRECTED_E_LIMIT <= acc <= CORRECTED_E_LIMIT,
                prev_e == spec_lerp4(from, to, k as int, nn).e,
                -COORD_LIMIT <= prev_e <= COORD_LIMIT,
                outs@.len() == k,
                forall|j: int|
                    0 <= j < k ==> (#[trigger] outs@[j])@ == spec_motion_line(
                        rapid,
                        ga,
                        gb,
                        gc,
                        gf,
                        tt,
                        st.center,
                        from,
                        to,
                        nn,
                        j + 1,
                        start,
                    ),
                forall|j: int|
                    1 <= j <= k ==> -CORRECTED_E_LIMIT <= #[trigger] spec_acc_e(
                        tt,
                        st.center,
                        from,
                        to,
                        nn,
                        j,
                        start,
                    ) <= CORRECTED_E_LIMIT,
                gx matches Option::Some(w) ==> -COORD_LIMIT <= w <= COORD_LIMIT,
                ga matches Option::Some(w) ==> -COORD_LIMIT <= w <= COORD_LIMIT,
                gb matches Option::Some(w) ==> -COORD_LIMIT <= w <= COORD_LIMIT,
                gc matches Option::Some(w) ==> -COORD_LIMIT <= w <= COORD_LIMIT,
                gf matches Option::Some(w) ==> -COORD_LIMIT <= w <= COORD_LIMIT,
            decreases n - k,
        {
            let p: Vec4 = ways[k];
            proof {
                lemma_lerp4_bounds(from, to, k + 1 as int, nn);
            }
            let d: i64 = p.e - prev_e;
            let jac: i128 = extrusion_correction(
                Vector { x: p.x, y: p.y, z: p.z },
                transform,
                st.center,
            );
            proof {
                assert(-(20_000_000_001 as int) * jac <= (d as int) * (SCALE as int)
                    <= (20_000_000_001 as int) * jac) by (nonlinear_arith)
                    requires
                        -20_000_000_000 <= d <= 20_000_000_000,
                        jac >= 100_000,
                        SCALE == 100_000,
                ;
                lemma_div_between(
                    (d as int) * (SCALE as int),
                    jac as int,
                    -(20_000_000_001 as int),
                    20_000_000_001 as int,
                );
            }
            let inc: i128 = floor_div((d as i128) * (SCALE as i128), jac);
            let acc2: i128 = (acc as i128) + inc;
            proof {
                assert(spec_way_jac(tt, st.center, spec_lerp4(from, to, k + 1 as int, nn))
                    == spec_way_jac(tt, st.center, Vec4 { x: p.x, y: p.y, z: p.z, e: 0 }));
                assert(acc2 as int == spec_acc_e(tt, st.center, from, to, nn, k + 1 as int, start));
            }
            if acc2 > CORRECTED_E_LIMIT as i128 || acc2 < -CORRECTED_E_LIMIT as i128 {
                proof {
                    assert(to == spec_target(st.last_pos, gx, gy, gz, ge, st.enabled, z_offset));
                    assert(spec_acc_e(tt, st.center, from, to, nn, k + 1 as int, start)
                        > CORRECTED_E_LIMIT || spec_acc_e(tt, st.center, from, to, nn, k + 1
                        as int, start) < -CORRECTED_E_LIMIT);
                    assert(!spec_acc_in_range(tt, st.center, from, to, nn, start));
                    assert(spec_motion_step(
                        st,
                        rapid,
                        gx,
                        gy,
                        gz,
                        ga,
                        gb,
                        gc,
                        ge,
                        gf,
                        line@,
                        tt,
                        max_line_len,
                        z_offset,
                    ) == Result::<(ToolState, Seq<Seq<u8>>), DewarpError>::Err(
                        DewarpError::ExtrusionOutOfRange,
                    ));
                }
                return Err(DewarpError::ExtrusionOutOfRange);
            }
            acc = acc2 as i64;
            let dw: Vector = dewarp_point(
                Vector { x: p.x, y: p.y, z: p.z },
                transform,
                st.center,
            );
            let zc: i64 = if dw.z < 0 {
                0
            } else {
                dw.z
            };
            let rendered: Vec<u8> = if rapid {
                (G0 {
                    x: Some(p.x),
                    y: Some(p.y),
                    z: Some(zc),
                    a: ga,
                    b: gb,
                    c: gc,
                    e: Some(acc),
                    f: gf,
                }).render()
            } else {
                (G1 {
                    x: Some(p.x),
                    y: Some(p.y),
                    z: Some(zc),
                    a: ga,
                    b: gb,
                    c: gc,
                    e: Some(acc),
                    f: gf,
                }).render()
            };
            outs.push(rendered);
            proof {
                assert(spec_dewarped_z(tt, st.center, spec_lerp4(from, to, k + 1 as int, nn))
                    == spec_dewarped_z(tt, st.center, Vec4 { x: p.x, y: p.y, z: p.z, e: 0 }));
                assert((outs@[k as int])@ == spec_motion_line(
                    rapid,
                    ga,
                    gb,
                    gc,
                    gf,
                    tt,
                    st.center,
                    from,
                    to,
                    nn,
                    k + 1 as int,
                    start,
                ));
            }
            prev_e = p.e;
            k += 1;
        }
        proof {
            assert(spec_acc_in_range(tt, st.center, from, to, nn, start));
            assert(lines_view(outs@) =~= spec_motion_outs(
                rapid,
                ga,
                gb,
                gc,
                gf,
                tt,
                st.center,
                from,
                to,
                nn,
                start,
            ));
        }
        Ok((ToolState { last_pos: to, corrected_e: acc, ..st }, outs))
    }
}

/// One line, executed: exactly what `spec_step` says.
pub fn dewarp_step(
    st: ToolState,
    line: &Vec<u8>,
    transform: &Transform,
    max_line_len: i64,
    z_offset: i64,
) -> (r: Result<(ToolState, Vec<Vec<u8>>), DewarpError>)
    requires
        st.wf(),
        transform.wf(),
        1 <= max_line_len <= COORD_LIMIT,
        -COORD_LIMIT <= z_offset <= COORD_LIMIT,
    ensures
        match r {
            Result::Ok((st2, outs)) => spec_step(st, line@, *transform, max_line_len, z_offset)
                == Result::<(ToolState, Seq<Seq<u8>>), DewarpError>::Ok((st2, lines_view(outs@)))
                && st2.wf(),
            Result::Err(e) => spec_step(st, line@, *transform, max_line_len, z_offset)
                == Result::<(ToolState, Seq<Seq<u8>>), DewarpError>::Err(e),
        },
{
    proof {
        crate::parser::lemma_parse_line_ok(line@);
    }
    match crate::parser::parse_line(line.as_slice()) {
        Option::None => {
            let mut outs: Vec<Vec<u8>> = Vec::new();
            outs.push(copy_line(line));
            proof {
                assert(lines_view(outs@) =~= seq![line@]);
            }
            Ok((st, outs))
        },
        Option::Some(cmd) => match cmd {
            Command::G0(g) => motion_step(
                st,
                true,
                g.x,
                g.y,
                g.z,
                g.a,
                g.b,
                g.c,
                g.e,
                g.f,
                line,
                transform,
                max_line_len,
                z_offset,
            ),
            Command::G1(g) => motion_step(
                st,
                false,
                g.x,
                g.y,
                g.z,
                g.a,
                g.b,
                g.c,
                g.e,
                g.f,
                line,
                transform,
                max_line_len,
                z_offset,
            ),
            Command::G92(g) => {
                let bad: bool = match g.e {
                    Option::Some(ev) => ev != 0,
                    Option::None => false,
                };
                if bad {
                    Err(DewarpError::UnsupportedExtruderReset)
                } else {
                    let to = Vec4 {
                        x: match g.x {
                            Option::Some(v) => v,
                            Option::None => st.last_pos.x,
                        },
                        y: match g.y {
                            Option::Some(v) => v,
                            Option::None => st.last_pos.y,
                        },
                        z: match g.z {
                            Option::Some(v) => v,
                            Option::None => st.last_pos.z,
                        },
                        e: match g.e {
                            Option::Some(v) => v,
                            Option::None => st.last_pos.e,
                        },
                    };
                    let ce: i64 = match g.e {
                        Option::Some(_) => 0,
                        Option::None => st.corrected_e,
                    };
                    let mut outs: Vec<Vec<u8>> = Vec::new();
                    outs.push(copy_line(line));
                    proof {
                        assert(lines_view(outs@) =~= seq![line@]);
                    }
                    Ok((ToolState { last_pos: to, corrected_e: ce, ..st }, outs))
                }
            },
            Command::BEGIN_DEWARP(b) => {
                let bx: i64 = match b.x {
                    Option::Some(v) => v,
                    Option::None => 0,
                };
                let by: i64 = match b.y {
                    Option::Some(v) => v,
                    Option::None => 0,
                };
                let cx: i64 = floor_div(bx as i128, 2) as i64;
                let cy: i64 = floor_div(by as i128, 2) as i64;
                proof {
                    lemma_div_between(bx as int, 2, -(COORD_LIMIT as int), COORD_LIMIT as int);
                    lemma_div_between(by as int, 2, -(COORD_LIMIT as int), COORD_LIMIT as int);
                }
                let outs: Vec<Vec<u8>> = Vec::new();
                proof {
                    assert(lines_view(outs@) =~= Seq::<Seq<u8>>::empty());
                }
                Ok(
                    (
                        ToolState {
                            enabled: true,
                            center: Vector { x: cx, y: cy, z: 0 },
                            ..st
                        },
                        outs,
                    ),
                )
            },
            Command::END_DEWARP(_) => {
                let outs: Vec<Vec<u8>> = Vec::new();
                proof {
                    assert(lines_view(outs@) =~= Seq::<Seq<u8>>::empty());
                }
                Ok((ToolState { enabled: false, ..st }, outs))
            },
        },
    }
}

/// Rewrite a whole stream of lines: exactly what `spec_dewarp_gcode` says.
#[verifier::rlimit(100)]
pub fn dewarp_gcode(
    lines: &Vec<Vec<u8>>,
    transform: &Transform,
    max_line_len: i64,
    z_offset: i64,
) -> (r: Result<Vec<Vec<u8>>, DewarpError>)
    requires
        transform.wf(),
        1 <= max_line_len <= COORD_LIMIT,
        -COORD_LIMIT <= z_offset <= COORD_LIMIT,
    ensures
        match r {
            Result::Ok(outs) => spec_dewarp_gcode(
                lines_view(lines@),
                *transform,
                max_line_len,
                z_offset,
            ) == Result::<Seq<Seq<u8>>, DewarpError>::Ok(lines_view(outs@)),
            Result::Err(e) => spec_dewarp_gcode(
                lines_view(lines@),
                *transform,
                max_line_len,
                z_offset,
            ) == Result::<Seq<Seq<u8>>, DewarpError>::Err(e),
        },
{
    let ghost full: Seq<Seq<u8>> = lines_view(lines@);
    let mut st: ToolState = ToolState::initial();
    let mut out: Vec<Vec<u8>> = Vec::new();
    let mut i: usize = 0;
    proof {
        assert(full.skip(0) == full);
        assert(lines_view(out@) =~= Seq::<Seq<u8>>::empty());
        assert(forall|rest: Seq<Seq<u8>>|
            Seq::<Seq<u8>>::empty() + rest =~= rest);
    }
    while i < lines.len()
        invariant
            0 <= i <= lines@.len(),
            full == lines_view(lines@),
            full.len() == lines@.len(),
            st.wf(),
            transform.wf(),
            1 <= max_line_len <= COORD_LIMIT,
            -COORD_LIMIT <= z_offset <= COORD_LIMIT,
            match spec_dewarp_lines(full.skip(i as int), st, *transform, max_line_len, z_offset) {
                Result::Ok((stf, rest)) => spec_dewarp_lines(
                    full,
                    ToolState::spec_initial(),
                    *transform,
                    max_line_len,
                    z_offset,
                ) == Result::<(ToolState, Seq<Seq<u8>>), DewarpError>::Ok(
                    (stf, lines_view(out@) + rest),
                ),
                Result::Err(e) => spec_dewarp_lines(
                    full,
                    ToolState::spec_initial(),
                    *transform,
                    max_line_len,
                    z_offset,
                ) == Result::<(ToolState, Seq<Seq<u8>>), DewarpError>::Err(e),
            },
        decreases lines@.len() - i,
    {
        let ghost pre_out = out@;
        let ghost pre_st = st;
        proof {
            assert(full.skip(i as int)[0] == full[i as int]);
            assert(full[i as int] == lines@[i as int]@);
            assert(full.skip(i as int).skip(1) =~= full.skip(i + 1 as int));
        }
        match dewarp_step(st, &lines[i], transform, max_line_len, z_offset) {
            Result::Ok((st2, mut outs)) => {
                let ghost outs_v = lines_view(outs@);
                out.append(&mut outs);
                st = st2;
                proof {
                    assert(lines_view(out@) =~= lines_view(pre_out) + outs_v);
                    assert(forall|rest: Seq<Seq<u8>>|
                        (lines_view(pre_out) + outs_v) + rest =~= lines_view(pre_out) + (outs_v
                            + rest));
                }
            },
            Result::Err(e) => {
                return Err(e);
            },
        }
        i += 1;
    }
    proof {
        assert(full.skip(lines@.len() as int) =~= Seq::<Seq<u8>>::empty());
        assert(lines_view(out@) + Seq::<Seq<u8>>::empty() =~= lines_view(out@));
    }
    Ok(out)
}

} // verus!
