//! Warp pipeline geometry and the small shared utilities.

use nonplanar::warp::{calc_aabb, calc_center, warp_mesh, unindex_stl, warp_pipeline};
use nonplanar::tessellation::{Mesh, Tri};
use nonplanar::transform::Transform;
use nonplanar::vector::Vector;
use nonplanar::utils::parse_vector;
use nonplanar::printer::{Printer, PrinterType, Point2};
use nonplanar::fixed::SCALE;

const MM: i64 = 100_000;

fn square_mesh() -> Mesh {
    Mesh {
        vertices: vec![
            Vector { x: 0, y: 0, z: 0 },
            Vector { x: 10 * MM, y: 0, z: MM },
            Vector { x: 10 * MM, y: 6 * MM, z: 0 },
            Vector { x: 0, y: 6 * MM, z: 2 * MM },
        ],
        triangles: vec![Tri { a: 0, b: 1, c: 2 }, Tri { a: 0, b: 2, c: 3 }],
    }
}

#[test]
fn aabb_is_the_componentwise_hull() {
    let aabb = calc_aabb(&square_mesh());
    assert_eq!(aabb.origin, Vector { x: 0, y: 0, z: 0 });
    assert_eq!(aabb.size, Vector { x: 10 * MM, y: 6 * MM, z: 2 * MM });
    let c = calc_center(&aabb);
    assert_eq!(c, Vector { x: 5 * MM, y: 3 * MM, z: 0 });
}

#[test]
fn warping_displaces_only_the_height() {
    let mesh = square_mesh();
    let t = Transform::Conical { slope: SCALE, flat_bottom: 0 };
    let center = Vector { x: 5 * MM, y: 3 * MM, z: 0 };
    let warped = warp_mesh(mesh, &t, center);
    // The first vertex moves to (-5, -3) and rises by its radius.
    assert_eq!(warped.vertices[0].x, -5 * MM);
    assert_eq!(warped.vertices[0].y, -3 * MM);
    let r = Vector { x: 5 * MM, y: 3 * MM, z: 0 }.norm();
    assert_eq!(warped.vertices[0].z, r);
    assert_eq!(warped.triangles, square_mesh().triangles);
}

#[test]
fn unindexing_recomputes_normals_from_the_winding() {
    let mesh = Mesh {
        vertices: vec![
            Vector { x: 0, y: 0, z: 0 },
            Vector { x: MM, y: 0, z: 0 },
            Vector { x: 0, y: MM, z: 0 },
        ],
        triangles: vec![Tri { a: 0, b: 1, c: 2 }],
    };
    let facets = unindex_stl(&mesh);
    assert_eq!(facets.len(), 1);
    // (v1 - v0) x (v2 - v1): straight up, with the square-millimetre scale.
    assert_eq!(facets[0].normal, Vector { x: 0, y: 0, z: MM });
    assert_eq!(facets[0].a, mesh.vertices[0]);
}

#[test]
fn pipeline_refines_then_warps_and_boxes() {
    let t = Transform::Conical { slope: SCALE, flat_bottom: 0 };
    let (warped, data) = warp_pipeline(square_mesh(), &t, 2 * MM);
    assert_eq!(data.transform, t);
    // Refinement under a 2 mm bound turns two triangles into many.
    assert!(warped.triangles.len() > 2);
    // The warped box starts no higher than any warped vertex.
    for v in warped.vertices.iter() {
        assert!(data.warped_aabb.origin.z <= v.z);
        assert!(v.z <= data.warped_aabb.origin.z + data.warped_aabb.size.z);
    }
}

#[test]
fn vector_literals_parse_with_defaults() {
    assert_eq!(
        parse_vector(b"1,2,3"),
        Some(Vector { x: MM, y: 2 * MM, z: 3 * MM })
    );
    assert_eq!(parse_vector(b"1.5"), Some(Vector { x: 150000, y: 0, z: 0 }));
    assert_eq!(parse_vector(b"-2,0.25"), Some(Vector { x: -2 * MM, y: 25000, z: 0 }));
    assert_eq!(parse_vector(b""), None);
    assert_eq!(parse_vector(b"1,x"), None);
    assert_eq!(parse_vector(b"1, 2"), None);
}

#[test]
fn printer_types_and_centres() {
    let flat = Printer::ThreeDoF { center: Point2 { x: 4 * MM, y: 5 * MM } };
    assert_eq!(flat.printer_type(), PrinterType::Xyz);
    assert_eq!(flat.center(), Point2 { x: 4 * MM, y: 5 * MM });

    let tilting = Printer::DifferentialTiltingBed {
        pivot: Vector { x: 0, y: 0, z: 0 },
        bed_pivot: MM,
        rot_offset: Vector { x: 0, y: 0, z: 0 },
    };
    assert_eq!(tilting.printer_type(), PrinterType::Xyzab);
    assert_eq!(tilting.center(), Point2 { x: 0, y: 0 });
}
