//! Transform behaviour: forward, inverse, Jacobian.

use nonplanar::transform::Transform;
use nonplanar::vector::Vector;
use nonplanar::fixed::SCALE;

// One millimetre in fixed-point least units.
const MM: i64 = 100_000;

#[test]
fn conical_apply_and_exact_inverse() {
    // A cone whose slope has tangent 0.57735 (about 30 degrees).
    let t = Transform::Conical { slope: 57735, flat_bottom: 0 };
    let p = Vector { x: 3 * MM, y: 4 * MM, z: 0 };
    let w = t.apply(p);
    assert_eq!(w.x, 3 * MM);
    assert_eq!(w.y, 4 * MM);
    // Radius 5 mm: offset is 5 * 0.57735 mm exactly.
    assert_eq!(w.z, 288675);
    let back = t.apply_inverse(w);
    assert_eq!(back, p);
}

#[test]
fn sinusoidal_peak() {
    let t = Transform::Sinusoidal { height: 2 * MM, pitch: 10 * MM, flat_bottom: 0 };
    let p = Vector { x: 250000, y: 0, z: 7 * MM };
    let w = t.apply(p);
    assert_eq!(w.z, 9 * MM);
    let back = t.apply_inverse(w);
    assert_eq!(back, p);
}

#[test]
fn flat_bottom_blend_and_round_trip() {
    // Slope tangent one (45 degrees), blended over the first 5 mm.
    let t = Transform::Conical { slope: SCALE, flat_bottom: 5 * MM };
    let p = Vector { x: MM, y: 0, z: 2 * MM };
    let w = t.apply(p);
    // z' = 2 + (2/5) * 1 = 2.4 mm, exactly.
    assert_eq!(w.z, 240000);
    let back = t.apply_inverse(w);
    assert_eq!(back, p);
}

#[test]
fn jacobian_values() {
    // Without a blend the map shifts columns rigidly: determinant one.
    let flat = Transform::Conical { slope: SCALE, flat_bottom: 0 };
    assert_eq!(flat.jacobian(Vector { x: MM, y: 0, z: 0 }), SCALE as i128);

    // Inside a blend of 5 mm with offset 1 mm: 1 + 1/5.
    let blended = Transform::Conical { slope: SCALE, flat_bottom: 5 * MM };
    assert_eq!(blended.jacobian(Vector { x: MM, y: 0, z: 2 * MM }), 120000);
    // Above the blend the determinant is one again.
    assert_eq!(blended.jacobian(Vector { x: MM, y: 0, z: 6 * MM }), SCALE as i128);
}

#[test]
fn spherical_cap_and_clamp() {
    let t = Transform::Spherical { radius: 5 * MM, flat_bottom: 0 };
    // On the rim the full radius is added.
    let rim = t.apply(Vector { x: 3 * MM, y: 4 * MM, z: 0 });
    assert_eq!(rim.z, 5 * MM);
    // Outside the disc the square root's argument clamps to zero.
    let outside = t.apply(Vector { x: 6 * MM, y: 0, z: 0 });
    assert_eq!(outside.z, 5 * MM);
    // At the centre nothing is added.
    let centre = t.apply(Vector { x: 0, y: 0, z: MM });
    assert_eq!(centre.z, MM);
    // The round trip is exact even where the argument clamps.
    let back = t.apply_inverse(outside);
    assert_eq!(back.z, 0);
}

#[test]
fn round_trips_across_variants() {
    let cases = [
        Transform::Conical { slope: 30000, flat_bottom: 0 },
        Transform::Conical { slope: 75000, flat_bottom: 3 * MM },
        Transform::Sinusoidal { height: MM, pitch: 7 * MM, flat_bottom: 2 * MM },
        Transform::Spherical { radius: 50 * MM, flat_bottom: MM },
    ];
    let points = [
        Vector { x: 0, y: 0, z: 0 },
        Vector { x: 123456, y: -654321, z: 250000 },
        Vector { x: -2 * MM, y: 3 * MM, z: 12 * MM },
        Vector { x: 999999, y: 1, z: 1 },
    ];
    for t in cases.iter() {
        for p in points.iter() {
            let w = t.apply(*p);
            let back = t.apply_inverse(w);
            assert_eq!(back, *p);
        }
    }
}

#[test]
fn wf_check_rejects_blended_downward_cones() {
    assert!(!Transform::Conical { slope: -SCALE, flat_bottom: MM }.wf_check());
    assert!(Transform::Conical { slope: -SCALE, flat_bottom: 0 }.wf_check());
    assert!(!Transform::Sinusoidal { height: MM, pitch: 0, flat_bottom: 0 }.wf_check());
    assert!(Transform::Spherical { radius: MM, flat_bottom: 0 }.wf_check());
}

#[test]
fn negative_height_inverts_the_undulation() {
    // A downward undulation is fine without a blend: at the wave's peak the
    // surface dips by the full two millimetres.
    let t = Transform::Sinusoidal { height: -2 * MM, pitch: 10 * MM, flat_bottom: 0 };
    assert!(t.wf_check());
    let p = Vector { x: 250000, y: 0, z: 7 * MM };
    let w = t.apply(p);
    assert_eq!(w.z, 5 * MM);
    assert_eq!(t.apply_inverse(w), p);
    // With a blend it is rejected, like a downward cone.
    assert!(!Transform::Sinusoidal { height: -2 * MM, pitch: 10 * MM, flat_bottom: MM }.wf_check());
}

#[test]
fn vector_norms() {
    let v = Vector { x: 3 * MM, y: 4 * MM, z: 0 };
    assert_eq!(v.norm_sq(), (5 * MM as i128) * (5 * MM as i128));
    assert_eq!(v.norm(), 5 * MM);
}

#[test]
fn vector_arithmetic() {
    let v = Vector { x: 3 * MM, y: -4 * MM, z: MM };
    let w = Vector { x: MM, y: MM, z: MM };
    assert_eq!(v.add(w), Vector { x: 4 * MM, y: -3 * MM, z: 2 * MM });
    assert_eq!(v.sub(w), Vector { x: 2 * MM, y: -5 * MM, z: 0 });
    // Scaling by the fixed-point value two.
    assert_eq!(v.mul(2 * SCALE), Vector { x: 6 * MM, y: -8 * MM, z: 2 * MM });
    assert_eq!(v.div(2 * SCALE), Vector { x: 150000, y: -2 * MM, z: 50000 });
}
