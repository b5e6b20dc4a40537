//! The warp pipeline's geometry: bounding box, vertex displacement, and the
//! indexed-to-flat conversion with recomputed normals.

use vstd::prelude::*;
use crate::fixed::{SCALE, COORD_LIMIT, floor_div};
use crate::vector::Vector;
use crate::utils::Aabb;
use crate::transform::{Transform, TransformData, POINT_LIMIT, OFFSET_LIMIT};
use crate::tessellation::{Mesh, Tri, tesselate, watertight};

verus! {

/// `aabb` is the bounding box of the vertex list: a corner below every
/// vertex, a far corner above every vertex, both attained on each axis.
pub open spec fn is_aabb_of(verts: Seq<Vector>, aabb: Aabb) -> bool {
    &&& forall|i: int|
        0 <= i < verts.len() ==> aabb.origin.x <= (#[trigger] verts[i]).x <= aabb.origin.x
            + aabb.size.x && aabb.origin.y <= verts[i].y <= aabb.origin.y + aabb.size.y
            && aabb.origin.z <= verts[i].z <= aabb.origin.z + aabb.size.z
    &&& exists|i: int| 0 <= i < verts.len() && (#[trigger] verts[i]).x == aabb.origin.x
    &&& exists|i: int| 0 <= i < verts.len() && (#[trigger] verts[i]).y == aabb.origin.y
    &&& exists|i: int| 0 <= i < verts.len() && (#[trigger] verts[i]).z == aabb.origin.z
    &&& exists|i: int|
        0 <= i < verts.len() && (#[trigger] verts[i]).x == aabb.origin.x + aabb.size.x
    &&& exists|i: int|
        0 <= i < verts.len() && (#[trigger] verts[i]).y == aabb.origin.y + aabb.size.y
    &&& exists|i: int|
        0 <= i < verts.len() && (#[trigger] verts[i]).z == aabb.origin.z + aabb.size.z
}

/// The axis-aligned bounding box of a non-empty vertex list: the
/// componentwise minimum corner and the extent up to the maximum.
pub fn calc_aabb(input: &Mesh) -> (r: Aabb)
    requires
        input.vertices@.len() > 0,
        forall|i: int|
            0 <= i < input.vertices@.len() ==> (#[trigger] input.vertices@[i]).bounded(
                (POINT_LIMIT + OFFSET_LIMIT) as int,
            ),
    ensures
        is_aabb_of(input.vertices@, r),
        r.wf(),
        r.origin.bounded((POINT_LIMIT + OFFSET_LIMIT) as int),
        r.size.bounded(2 * (POINT_LIMIT + OFFSET_LIMIT) as int),
{
    let v0 = input.vertices[0];
    let mut minx: i64 = v0.x;
    let mut miny: i64 = v0.y;
    let mut minz: i64 = v0.z;
    let mut maxx: i64 = v0.x;
    let mut maxy: i64 = v0.y;
    let mut maxz: i64 = v0.z;
    let mut i: usize = 1;
    while i < input.vertices.len()
        invariant
            1 <= i <= input.vertices@.len(),
            forall|j: int|
                0 <= j < input.vertices@.len() ==> (#[trigger] input.vertices@[j]).bounded(
                    (POINT_LIMIT + OFFSET_LIMIT) as int,
                ),
            forall|j: int|
                0 <= j < i ==> minx <= (#[trigger] input.vertices@[j]).x <= maxx && miny
                    <= input.vertices@[j].y <= maxy && minz <= input.vertices@[j].z <= maxz,
            exists|j: int| 0 <= j < i && (#[trigger] input.vertices@[j]).x == minx,
            exists|j: int| 0 <= j < i && (#[trigger] input.vertices@[j]).y == miny,
            exists|j: int| 0 <= j < i && (#[trigger] input.vertices@[j]).z == minz,
            exists|j: int| 0 <= j < i && (#[trigger] input.vertices@[j]).x == maxx,
            exists|j: int| 0 <= j < i && (#[trigger] input.vertices@[j]).y == maxy,
            exists|j: int| 0 <= j < i && (#[trigger] input.vertices@[j]).z == maxz,
            -(POINT_LIMIT + OFFSET_LIMIT) <= minx <= maxx <= POINT_LIMIT + OFFSET_LIMIT,
            -(POINT_LIMIT + OFFSET_LIMIT) <= miny <= maxy <= POINT_LIMIT + OFFSET_LIMIT,
            -(POINT_LIMIT + OFFSET_LIMIT) <= minz <= maxz <= POINT_LIMIT + OFFSET_LIMIT,
        decreases input.vertices@.len() - i,
    {
        let v = input.vertices[i];
        if v.x < minx {
            minx = v.x;
        }
        if v.y < miny {
            miny = v.y;
        }
        if v.z < minz {
            minz = v.z;
        }
        if v.x > maxx {
            maxx = v.x;
        }
        if v.y > maxy {
            maxy = v.y;
        }
        if v.z > maxz {
            maxz = v.z;
        }
        i += 1;
    }
    Aabb {
        origin: Vector { x: minx, y: miny, z: minz },
        size: Vector { x: maxx - minx, y: maxy - miny, z: maxz - minz },
    }
}

/// The centre the pipeline warps about: the middle of the box on x and y,
/// its floor on z, so a blend measures height above the part's bottom.
pub open spec fn spec_center(aabb: Aabb) -> Vector {
    Vector {
        x: (aabb.origin.x + aabb.size.x / 2) as i64,
        y: (aabb.origin.y + aabb.size.y / 2) as i64,
        z: aabb.origin.z,
    }
}

/// The centre, as a value.
pub fn calc_center(aabb: &Aabb) -> (r: Vector)
    requires
        aabb.wf(),
        aabb.origin.bounded(COORD_LIMIT as int),
        aabb.size.bounded(2 * COORD_LIMIT as int),
    ensures
        r == spec_center(*aabb),
        r.bounded(2 * COORD_LIMIT as int),
{
    proof {
        crate::fixed::lemma_div_between(aabb.size.x as int, 2, 0, COORD_LIMIT as int);
        crate::fixed::lemma_div_between(aabb.size.y as int, 2, 0, COORD_LIMIT as int);
    }
    let hx: i64 = floor_div(aabb.size.x as i128, 2) as i64;
    let hy: i64 = floor_div(aabb.size.y as i128, 2) as i64;
    Vector { x: aabb.origin.x + hx, y: aabb.origin.y + hy, z: aabb.origin.z }
}

/// Each vertex displaced by the transform about the centre; the triangles
/// untouched.
pub fn warp_mesh(input: Mesh, transform: &Transform, center: Vector) -> (r: Mesh)
    requires
        input.wf(),
        transform.wf(),
        center.bounded(COORD_LIMIT as int),
        forall|i: int|
            transform.flat_bottom() > 0 && 0 <= i < input.vertices@.len() ==> (
            #[trigger] input.vertices@[i]).z >= center.z,
    ensures
        r.triangles@ == input.triangles@,
        r.vertices@.len() == input.vertices@.len(),
        forall|i: int|
            0 <= i < r.vertices@.len() ==> (#[trigger] r.vertices@[i]).x == input.vertices@[i].x
                - center.x && r.vertices@[i].y == input.vertices@[i].y - center.y
                && r.vertices@[i].z == transform.spec_apply_z(
                input.vertices@[i].x - center.x,
                input.vertices@[i].y - center.y,
                input.vertices@[i].z - center.z,
            ),
        forall|i: int|
            0 <= i < r.vertices@.len() ==> (#[trigger] r.vertices@[i]).bounded(
                (POINT_LIMIT + OFFSET_LIMIT) as int,
            ),
        forall|i: int|
            0 <= i < r.triangles@.len() ==> (#[trigger] r.triangles@[i]).in_bounds(
                r.vertices@.len() as int,
            ),
{
    let Mesh { vertices, triangles } = input;
    let mut out: Vec<Vector> = Vec::new();
    let mut i: usize = 0;
    while i < vertices.len()
        invariant
            0 <= i <= vertices@.len(),
            transform.wf(),
            center.bounded(COORD_LIMIT as int),
            forall|j: int|
                0 <= j < vertices@.len() ==> (#[trigger] vertices@[j]).bounded(COORD_LIMIT as int),
            forall|j: int|
                transform.flat_bottom() > 0 && 0 <= j < vertices@.len() ==> (
                #[trigger] vertices@[j]).z >= center.z,
            out@.len() == i,
            forall|j: int|
                0 <= j < i ==> (#[trigger] out@[j]).x == vertices@[j].x - center.x && out@[j].y
                    == vertices@[j].y - center.y && out@[j].z == transform.spec_apply_z(
                    vertices@[j].x - center.x,
                    vertices@[j].y - center.y,
                    vertices@[j].z - center.z,
                ),
            forall|j: int|
                0 <= j < i ==> (#[trigger] out@[j]).bounded((POINT_LIMIT + OFFSET_LIMIT) as int),
        decreases vertices@.len() - i,
    {
        let v = vertices[i];
        let q = Vector { x: v.x - center.x, y: v.y - center.y, z: v.z - center.z };
        let w = transform.apply(q);
        out.push(w);
        i += 1;
    }
    Mesh { vertices: out, triangles }
}

/// One output triangle of the flat (unindexed) form: its recomputed normal
/// and its three corner positions.
pub struct Facet {
    pub normal: Vector,
    pub a: Vector,
    pub b: Vector,
    pub c: Vector,
}

/// The (unnormalized) cross product, one fixed-point scale out.
pub open spec fn spec_cross(a: Vector, b: Vector) -> Vector {
    Vector {
        x: ((a.y * b.z - a.z * b.y) / (SCALE as int)) as i64,
        y: ((a.z * b.x - a.x * b.z) / (SCALE as int)) as i64,
        z: ((a.x * b.y - a.y * b.x) / (SCALE as int)) as i64,
    }
}

/// Bound within which unindexing can carry a cross product in 64 bits.
pub const NORMAL_LIMIT: i64 = 300_000_000_000;

/// The cross product of two bounded displacements.
fn cross(a: Vector, b: Vector) -> (r: Vector)
    requires
        a.bounded(2 * NORMAL_LIMIT as int),
        b.bounded(2 * NORMAL_LIMIT as int),
    ensures
        r == spec_cross(a, b),
{
    proof {
        crate::fixed::lemma_mul_bounds(a.y as int, 2 * NORMAL_LIMIT as int, b.z as int, 2
            * NORMAL_LIMIT as int);
        crate::fixed::lemma_mul_bounds(a.z as int, 2 * NORMAL_LIMIT as int, b.y as int, 2
            * NORMAL_LIMIT as int);
        crate::fixed::lemma_mul_bounds(a.z as int, 2 * NORMAL_LIMIT as int, b.x as int, 2
            * NORMAL_LIMIT as int);
        crate::fixed::lemma_mul_bounds(a.x as int, 2 * NORMAL_LIMIT as int, b.z as int, 2
            * NORMAL_LIMIT as int);
        crate::fixed::lemma_mul_bounds(a.x as int, 2 * NORMAL_LIMIT as int, b.y as int, 2
            * NORMAL_LIMIT as int);
        crate::fixed::lemma_mul_bounds(a.y as int, 2 * NORMAL_LIMIT as int, b.x as int, 2
            * NORMAL_LIMIT as int);
        assert((2 * NORMAL_LIMIT as int) * (2 * NORMAL_LIMIT as int)
            == 360_000_000_000_000_000_000_000) by (nonlinear_arith);
        assert((-(8_000_000_000_000_000_000 as int)) * (SCALE as int)
            == -800_000_000_000_000_000_000_000) by (nonlinear_arith);
        assert((8_000_000_000_000_000_000 as int) * (SCALE as int)
            == 800_000_000_000_000_000_000_000) by (nonlinear_arith);
        crate::fixed::lemma_div_between(
            (a.y as int) * (b.z as int) - (a.z as int) * (b.y as int),
            SCALE as int,
            -(8_000_000_000_000_000_000 as int),
            8_000_000_000_000_000_000 as int,
        );
        crate::fixed::lemma_div_between(
            (a.z as int) * (b.x as int) - (a.x as int) * (b.z as int),
            SCALE as int,
            -(8_000_000_000_000_000_000 as int),
            8_000_000_000_000_000_000 as int,
        );
        crate::fixed::lemma_div_between(
            (a.x as int) * (b.y as int) - (a.y as int) * (b.x as int),
            SCALE as int,
            -(8_000_000_000_000_000_000 as int),
            8_000_000_000_000_000_000 as int,
        );
    }
    let nx: i64 = floor_div(
        (a.y as i128) * (b.z as i128) - (a.z as i128) * (b.y as i128),
        SCALE as i128,
    ) as i64;
    let ny: i64 = floor_div(
        (a.z as i128) * (b.x as i128) - (a.x as i128) * (b.z as i128),
        SCALE as i128,
    ) as i64;
    let nz: i64 = floor_div(
        (a.x as i128) * (b.y as i128) - (a.y as i128) * (b.x as i128),
        SCALE as i128,
    ) as i64;
    Vector { x: nx, y: ny, z: nz }
}

/// The facet normal convention of the flat mesh form: the cross product of
/// the first and second edges, not normalized.
pub open spec fn spec_facet_normal(va: Vector, vb: Vector, vc: Vector) -> Vector {
    spec_cross(
        Vector { x: (vb.x - va.x) as i64, y: (vb.y - va.y) as i64, z: (vb.z - va.z) as i64 },
        Vector { x: (vc.x - vb.x) as i64, y: (vc.y - vb.y) as i64, z: (vc.z - vb.z) as i64 },
    )
}

/// Flatten an indexed mesh into facets, recomputing each normal from the
/// (possibly warped) corner positions.
pub fn unindex_stl(mesh: &Mesh) -> (r: Vec<Facet>)
    requires
        forall|i: int|
            0 <= i < mesh.triangles@.len() ==> (#[trigger] mesh.triangles@[i]).in_bounds(
                mesh.vertices@.len() as int,
            ),
        forall|i: int|
            0 <= i < mesh.vertices@.len() ==> (#[trigger] mesh.vertices@[i]).bounded(
                NORMAL_LIMIT as int,
            ),
    ensures
        r@.len() == mesh.triangles@.len(),
        forall|i: int|
            0 <= i < r@.len() ==> {
                let t = #[trigger] mesh.triangles@[i];
                &&& r@[i].a == mesh.vertices@[t.a as int]
                &&& r@[i].b == mesh.vertices@[t.b as int]
                &&& r@[i].c == mesh.vertices@[t.c as int]
                &&& r@[i].normal == spec_facet_normal(
                    mesh.vertices@[t.a as int],
                    mesh.vertices@[t.b as int],
                    mesh.vertices@[t.c as int],
                )
            },
{
    let mut out: Vec<Facet> = Vec::new();
    let mut i: usize = 0;
    while i < mesh.triangles.len()
        invariant
            0 <= i <= mesh.triangles@.len(),
            forall|j: int|
                0 <= j < mesh.triangles@.len() ==> (#[trigger] mesh.triangles@[j]).in_bounds(
                    mesh.vertices@.len() as int,
                ),
            forall|j: int|
                0 <= j < mesh.vertices@.len() ==> (#[trigger] mesh.vertices@[j]).bounded(
                    NORMAL_LIMIT as int,
                ),
            out@.len() == i,
            forall|j: int|
                0 <= j < i ==> {
                    let t = #[trigger] mesh.triangles@[j];
                    &&& out@[j].a == mesh.vertices@[t.a as int]
                    &&& out@[j].b == mesh.vertices@[t.b as int]
                    &&& out@[j].c == mesh.vertices@[t.c as int]
                    &&& out@[j].normal == spec_facet_normal(
                        mesh.vertices@[t.a as int],
                        mesh.vertices@[t.b as int],
                        mesh.vertices@[t.c as int],
                    )
                },
        decreases mesh.triangles@.len() - i,
    {
        let t = mesh.triangles[i];
        let va = mesh.vertices[t.a];
        let vb = mesh.vertices[t.b];
        let vc = mesh.vertices[t.c];
        let e1 = Vector { x: vb.x - va.x, y: vb.y - va.y, z: vb.z - va.z };
        let e2 = Vector { x: vc.x - vb.x, y: vc.y - vb.y, z: vc.z - vb.z };
        let n = cross(e1, e2);
        out.push(Facet { normal: n, a: va, b: vb, c: vc });
        i += 1;
    }
    out
}

/// `(out_v, out_t)` is `(rv, rt)` displaced by the transform about the
/// centre of the box `ab` of `rv`: the same triangles, and each vertex
/// re-centred on x and y with its height pushed through the forward map.
pub open spec fn warped_from(
    rv: Seq<Vector>,
    rt: Seq<Tri>,
    ab: Aabb,
    t: Transform,
    out_v: Seq<Vector>,
    out_t: Seq<Tri>,
) -> bool {
    let c = spec_center(ab);
    &&& is_aabb_of(rv, ab)
    &&& out_t == rt
    &&& out_v.len() == rv.len()
    &&& forall|i: int|
        0 <= i < out_v.len() ==> (#[trigger] out_v[i]).x == rv[i].x - c.x && out_v[i].y == rv[i].y
            - c.y && out_v[i].z == t.spec_apply_z(rv[i].x - c.x, rv[i].y - c.y, rv[i].z - c.z)
}

/// The warp pipeline's computation: refine the mesh, displace it about the
/// centre of its footprint, and pair it with the transform and the warped
/// bounding box for the later inverse run. The composition is pinned: some
/// refinement of the input (`is_refined_from`) exists whose displacement
/// about the centre of its own box (`warped_from`) is exactly the returned
/// mesh.
pub fn warp_pipeline(input: Mesh, transform: &Transform, max_edge_len: i64) -> (r: (
    Mesh,
    TransformData,
))
    requires
        input.wf(),
        input.vertices@.len() > 0,
        transform.wf(),
        2 <= max_edge_len <= COORD_LIMIT,
    ensures
        r.1.transform == *transform,
        is_aabb_of(r.0.vertices@, r.1.warped_aabb),
        r.1.warped_aabb.wf(),
        exists|rv: Seq<Vector>, rt: Seq<Tri>, ab: Aabb|
            #[trigger] warped_from(rv, rt, ab, *transform, r.0.vertices@, r.0.triangles@)
                && crate::tessellation::is_refined_from(
                input.vertices@,
                input.triangles@,
                rv,
                rt,
                (max_edge_len as int) * (max_edge_len as int),
            ),
        watertight(input.triangles@) ==> watertight(r.0.triangles@),
        forall|i: int|
            0 <= i < r.0.vertices@.len() ==> (#[trigger] r.0.vertices@[i]).bounded(
                (POINT_LIMIT + OFFSET_LIMIT) as int,
            ),
        forall|i: int|
            0 <= i < r.0.triangles@.len() ==> (#[trigger] r.0.triangles@[i]).in_bounds(
                r.0.vertices@.len() as int,
            ),
{
    let refined = tesselate(input, max_edge_len);
    let aabb = calc_aabb(&refined);
    proof {
        let vs = refined.vertices@;
        let iw = choose|i: int| 0 <= i < vs.len() && (#[trigger] vs[i]).x == aabb.origin.x;
        let jw = choose|i: int|
            0 <= i < vs.len() && (#[trigger] vs[i]).x == aabb.origin.x + aabb.size.x;
        let iy = choose|i: int| 0 <= i < vs.len() && (#[trigger] vs[i]).y == aabb.origin.y;
        let jy = choose|i: int|
            0 <= i < vs.len() && (#[trigger] vs[i]).y == aabb.origin.y + aabb.size.y;
        let iz = choose|i: int| 0 <= i < vs.len() && (#[trigger] vs[i]).z == aabb.origin.z;
        let jz = choose|i: int|
            0 <= i < vs.len() && (#[trigger] vs[i]).z == aabb.origin.z + aabb.size.z;
        assert(vs[iw].bounded(COORD_LIMIT as int));
        assert(vs[jw].bounded(COORD_LIMIT as int));
        assert(vs[iy].bounded(COORD_LIMIT as int));
        assert(vs[jy].bounded(COORD_LIMIT as int));
        assert(vs[iz].bounded(COORD_LIMIT as int));
        assert(vs[jz].bounded(COORD_LIMIT as int));
        crate::fixed::lemma_div_between(aabb.size.x as int, 2, 0, aabb.size.x as int);
        crate::fixed::lemma_div_between(aabb.size.y as int, 2, 0, aabb.size.y as int);
    }
    let center = calc_center(&aabb);
    let warped = warp_mesh(refined, transform, center);
    let warped_aabb = calc_aabb(&warped);
    proof {
        assert(warped_from(
            refined.vertices@,
            refined.triangles@,
            aabb,
            *transform,
            warped.vertices@,
            warped.triangles@,
        ));
        assert(crate::tessellation::is_refined_from(
            input.vertices@,
            input.triangles@,
            refined.vertices@,
            refined.triangles@,
            (max_edge_len as int) * (max_edge_len as int),
        ));
    }
    (warped, TransformData { transform: *transform, warped_aabb })
}

} // verus!
