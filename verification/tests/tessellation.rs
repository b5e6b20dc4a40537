//! Mesh refinement behaviour.

use nonplanar::tessellation::{Mesh, Tri, HalfEdgeKey, tesselate};
use nonplanar::vector::Vector;

const MM: i64 = 100_000;

fn v(x: i64, y: i64, z: i64) -> Vector {
    Vector { x: x * MM, y: y * MM, z: z * MM }
}

fn edge_sq(a: Vector, b: Vector) -> i128 {
    let dx = (a.x - b.x) as i128;
    let dy = (a.y - b.y) as i128;
    let dz = (a.z - b.z) as i128;
    dx * dx + dy * dy + dz * dz
}

fn assert_edges_within(mesh: &Mesh, max_edge_len: i64) {
    let lim = (max_edge_len as i128) * (max_edge_len as i128);
    for tri in mesh.triangles.iter() {
        let a = mesh.vertices[tri.a];
        let b = mesh.vertices[tri.b];
        let c = mesh.vertices[tri.c];
        assert!(edge_sq(a, b) <= lim);
        assert!(edge_sq(b, c) <= lim);
        assert!(edge_sq(c, a) <= lim);
    }
}

#[test]
fn tesselate_test() {
    let max_edge_len = MM;

    // A closed pyramid over a square base.
    let mesh = Mesh {
        vertices: vec![v(-5, 5, 0), v(5, 5, 0), v(5, -5, 0), v(-5, -5, 0), v(0, 0, 10)],
        triangles: vec![
            Tri { a: 0, b: 1, c: 2 },
            Tri { a: 0, b: 2, c: 3 },
            Tri { a: 1, b: 0, c: 4 },
            Tri { a: 0, b: 3, c: 4 },
            Tri { a: 3, b: 2, c: 4 },
            Tri { a: 2, b: 1, c: 4 },
        ],
    };

    let mesh = tesselate(mesh, max_edge_len);

    // Check whether all edges are shorter than `max_edge_len`.
    assert_edges_within(&mesh, max_edge_len);
}

#[test]
fn refinement_keeps_a_closed_mesh_watertight() {
    let mesh = Mesh {
        vertices: vec![v(0, 0, 0), v(8, 0, 0), v(0, 8, 0), v(0, 0, 8)],
        triangles: vec![
            Tri { a: 0, b: 2, c: 1 },
            Tri { a: 0, b: 1, c: 3 },
            Tri { a: 1, b: 2, c: 3 },
            Tri { a: 2, b: 0, c: 3 },
        ],
    };
    let refined = tesselate(mesh, 2 * MM);

    // Every directed edge must occur exactly as often as its reverse.
    let mut halves: Vec<(usize, usize)> = Vec::new();
    for t in refined.triangles.iter() {
        halves.push((t.a, t.b));
        halves.push((t.b, t.c));
        halves.push((t.c, t.a));
    }
    for (p, q) in halves.iter() {
        let fwd = halves.iter().filter(|(u, w)| u == p && w == q).count();
        let rev = halves.iter().filter(|(u, w)| u == q && w == p).count();
        assert_eq!(fwd, rev);
    }
}

#[test]
fn single_triangle_refines_to_many() {
    // A 10 mm right triangle with a 1 mm bound densifies into at least
    // one hundred triangles.
    let mesh = Mesh {
        vertices: vec![v(0, 0, 0), v(10, 0, 0), v(0, 10, 0)],
        triangles: vec![Tri { a: 0, b: 1, c: 2 }],
    };
    let refined = tesselate(mesh, MM);
    assert!(refined.triangles.len() >= 100);
    assert_edges_within(&refined, MM);
    // The input vertices stay at the front of the table.
    assert_eq!(refined.vertices[0], v(0, 0, 0));
    assert_eq!(refined.vertices[1], v(10, 0, 0));
    assert_eq!(refined.vertices[2], v(0, 10, 0));
}

#[test]
fn half_edge_reverse_swaps_endpoints() {
    let e = HalfEdgeKey { origin: 3, destination: 7 };
    let r = e.reverse();
    assert_eq!(r.origin, 7);
    assert_eq!(r.destination, 3);
    assert_eq!(r.reverse(), e);
}
