//! Rewriter behaviour.

use nonplanar::dewarp::{dewarp_gcode, interpolate, DewarpError};
use nonplanar::transform::Transform;
use nonplanar::vector::Vec4;
use nonplanar::fixed::SCALE;

const MM: i64 = 100_000;

fn lines(texts: &[&[u8]]) -> Vec<Vec<u8>> {
    texts.iter().map(|t| t.to_vec()).collect()
}

#[test]
fn stream_without_markers_passes_through_unchanged() {
    let input = lines(&[
        b"; a comment",
        b"G1 X5 Y1 E0.2",
        b"",
        b"M105",
        b"G92 E0",
        b"G0 Z3",
    ]);
    let t = Transform::Conical { slope: SCALE, flat_bottom: 0 };
    let out = dewarp_gcode(&input, &t, MM, 0).unwrap();
    assert_eq!(out, input);
}

#[test]
fn enabled_motion_is_subdivided_with_corrected_extrusion() {
    let input = lines(&[b"G1 X0 Y0 E0", b"BEGIN_DEWARP", b"G1 X10 Y0 E1", b"END_DEWARP"]);
    // Slope tangent one, no blend: the Jacobian is one everywhere.
    let t = Transform::Conical { slope: SCALE, flat_bottom: 0 };
    let out = dewarp_gcode(&input, &t, MM, 0).unwrap();

    // The disabled motion echoes; the markers emit nothing; the enabled
    // 10 mm motion becomes ten one-millimetre linear moves.
    assert_eq!(out.len(), 11);
    assert_eq!(out[0], b"G1 X0 Y0 E0".to_vec());
    assert_eq!(out[1], b"G1 X1.00000 Y0.00000 Z0.00000 E0.10000".to_vec());
    assert_eq!(out[2], b"G1 X2.00000 Y0.00000 Z0.00000 E0.20000".to_vec());
    assert_eq!(out[10], b"G1 X10.00000 Y0.00000 Z0.00000 E1.00000".to_vec());
}

#[test]
fn set_position_resets_the_corrected_accumulator() {
    let input = lines(&[
        b"G1 X0 Y0 E0",
        b"BEGIN_DEWARP",
        b"G1 X10 Y0 E1",
        b"G92 E0",
        b"G1 X0 Y0 E0.5",
    ]);
    let t = Transform::Conical { slope: SCALE, flat_bottom: 0 };
    let out = dewarp_gcode(&input, &t, MM, 0).unwrap();

    assert_eq!(out.len(), 22);
    // The reset line echoes verbatim.
    assert_eq!(out[11], b"G92 E0".to_vec());
    // The next motion's corrected extrusion starts from zero again.
    assert_eq!(out[12], b"G1 X9.00000 Y0.00000 Z0.00000 E0.05000".to_vec());
    assert_eq!(out[21], b"G1 X0.00000 Y0.00000 Z0.00000 E0.50000".to_vec());
}

#[test]
fn set_position_to_nonzero_extrusion_fails_fast() {
    let input = lines(&[b"G92 E1"]);
    let t = Transform::Conical { slope: SCALE, flat_bottom: 0 };
    let r = dewarp_gcode(&input, &t, MM, 0);
    assert_eq!(r, Err(DewarpError::UnsupportedExtruderReset));
    assert_eq!(
        DewarpError::UnsupportedExtruderReset.describe(),
        "G92 to a nonzero E is not supported"
    );
}

#[test]
fn rapid_moves_keep_their_kind_and_extra_axes() {
    let input = lines(&[b"BEGIN_DEWARP", b"G0 X2 F1200"]);
    let t = Transform::Conical { slope: 0, flat_bottom: 0 };
    let out = dewarp_gcode(&input, &t, MM, 0).unwrap();
    assert_eq!(out.len(), 2);
    assert_eq!(out[0], b"G0 X1.00000 Y0.00000 Z0.00000 E0.00000 F1200.00000".to_vec());
    assert_eq!(out[1], b"G0 X2.00000 Y0.00000 Z0.00000 E0.00000 F1200.00000".to_vec());
}

#[test]
fn explicit_z_gains_the_warped_box_offset_only_while_enabled() {
    // With a zero transform the only rewriting effect on z is the offset.
    let t = Transform::Conical { slope: 0, flat_bottom: 0 };
    let input = lines(&[b"G1 Z1", b"BEGIN_DEWARP", b"G1 Z2"]);
    let out = dewarp_gcode(&input, &t, MM, 3 * MM).unwrap();
    assert_eq!(out[0], b"G1 Z1".to_vec());
    // z = 2 + 3 offset, moving from z = 1: length 4 mm, four waypoints.
    assert_eq!(out.len(), 5);
    assert_eq!(out[4], b"G1 X0.00000 Y0.00000 Z5.00000 E0.00000".to_vec());
}

#[test]
fn subdivision_count_is_the_length_over_the_bound() {
    let from = Vec4 { x: 0, y: 0, z: 0, e: 0 };
    let to = Vec4 { x: 10 * MM, y: 0, z: 0, e: 0 };
    // floor(10 / 3) = 3 waypoints; the last lands on the target.
    let ways = interpolate(&from, &to, 3 * MM);
    assert_eq!(ways.len(), 3);
    assert_eq!(ways[2], to);
    // A motion shorter than the bound still gets one waypoint.
    let short = Vec4 { x: MM / 2, y: 0, z: 0, e: 0 };
    let ways = interpolate(&from, &short, MM);
    assert_eq!(ways.len(), 1);
    assert_eq!(ways[0], short);
}

#[test]
fn blended_motion_divides_extrusion_by_the_jacobian() {
    // Slope tangent one blended over 5 mm: at any point the Jacobian is
    // 1 + offset / 5. Along the line y = 0, x from 2 to 2 (no xy motion),
    // a purely vertical move keeps offset 2 mm: determinant 1.4.
    let input = lines(&[b"BEGIN_DEWARP", b"G1 X2", b"G92 E0", b"G1 Z1 E0.7"]);
    let t = Transform::Conical { slope: SCALE, flat_bottom: 5 * MM };
    let out = dewarp_gcode(&input, &t, MM, 0).unwrap();
    // Motion to X2: two waypoints; reset; then one vertical waypoint.
    let last = out.last().unwrap();
    // delta e = 0.7 over one segment at constant determinant 1.4: 0.5;
    // the height maps back through the blend, rounded up to 0.71429.
    assert_eq!(last, &b"G1 X2.00000 Y0.00000 Z0.71429 E0.50000".to_vec());
}
