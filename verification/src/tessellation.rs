//! Mesh refinement.
//!
//! A mesh is a triangle soup over a shared vertex table. Refinement splits
//! every triangle into four through the midpoints of its edges, over and
//! over, until no edge is longer than the configured bound. One midpoint
//! cache per pass is keyed by the unordered vertex pair, so neighbouring
//! triangles share their midpoint vertex and a watertight mesh stays
//! watertight (`tesselate` states both).

use vstd::prelude::*;
use crate::fixed::COORD_LIMIT;
use crate::vector::Vector;
use vstd::arithmetic::div_mod::{lemma_fundamental_div_mod, lemma_mod_bound};
use vstd::multiset::Multiset;

verus! {

/// One triangle: three indices into the vertex table, wound consistently.
#[derive(Clone, Copy, PartialEq, Eq, Structural, Debug)]
pub struct Tri {
    pub a: usize,
    pub b: usize,
    pub c: usize,
}

impl Tri {
    /// All three corners point into a table of `n` vertices.
    pub open spec fn in_bounds(self, n: int) -> bool {
        self.a < n && self.b < n && self.c < n
    }
}

/// An indexed triangle mesh.
pub struct Mesh {
    pub vertices: Vec<Vector>,
    pub triangles: Vec<Tri>,
}

impl Mesh {
    /// Indices in bounds and coordinates within `COORD_LIMIT`.
    pub open spec fn wf(self) -> bool {
        (forall|i: int|
            0 <= i < self.triangles@.len() ==> (#[trigger] self.triangles@[i]).in_bounds(
                self.vertices@.len() as int,
            )) && (forall|i: int|
            0 <= i < self.vertices@.len() ==> (#[trigger] self.vertices@[i]).bounded(
                COORD_LIMIT as int,
            ))
    }
}

/// One directed edge of a triangle, keyed by its endpoints.
#[derive(Clone, Copy, PartialEq, Eq, Structural, Debug)]
pub struct HalfEdgeKey {
    pub origin: usize,
    pub destination: usize,
}

impl HalfEdgeKey {
    /// The edge the neighbouring triangle holds if the mesh is watertight.
    pub fn reverse(&self) -> (r: HalfEdgeKey)
        ensures
            r == self.spec_reverse(),
    {
        HalfEdgeKey { origin: self.destination, destination: self.origin }
    }

    /// The same edge, directed the other way.
    pub open spec fn spec_reverse(self) -> HalfEdgeKey {
        HalfEdgeKey { origin: self.destination, destination: self.origin }
    }
}

/// The squared distance between two points, exactly.
pub open spec fn dist_sq(p: Vector, q: Vector) -> int {
    (p.x - q.x) * (p.x - q.x) + (p.y - q.y) * (p.y - q.y) + (p.z - q.z) * (p.z - q.z)
}

/// The longest squared edge of one triangle.
pub open spec fn tri_max_sq(verts: Seq<Vector>, t: Tri) -> int {
    let ab = dist_sq(verts[t.a as int], verts[t.b as int]);
    let bc = dist_sq(verts[t.b as int], verts[t.c as int]);
    let ca = dist_sq(verts[t.c as int], verts[t.a as int]);
    if ab >= bc && ab >= ca {
        ab
    } else if bc >= ca {
        bc
    } else {
        ca
    }
}

/// The longest squared edge of a whole triangle list (zero when empty).
pub open spec fn worst_sq(verts: Seq<Vector>, tris: Seq<Tri>) -> int
    decreases tris.len(),
{
    if tris.len() == 0 {
        0
    } else {
        let rest = worst_sq(verts, tris.drop_last());
        let last = tri_max_sq(verts, tris.last());
        if last >= rest {
            last
        } else {
            rest
        }
    }
}

/// Every edge of every listed triangle fits under the bound.
pub open spec fn edges_within(verts: Seq<Vector>, tris: Seq<Tri>, limit_sq: int) -> bool {
    forall|i: int|
        0 <= i < tris.len() ==> tri_max_sq(verts, #[trigger] tris[i]) <= limit_sq
}

/// The longest edge bounds each triangle's edges.
proof fn lemma_worst_covers(verts: Seq<Vector>, tris: Seq<Tri>, i: int)
    requires
        0 <= i < tris.len(),
    ensures
        tri_max_sq(verts, tris[i]) <= worst_sq(verts, tris),
        worst_sq(verts, tris) >= 0,
    decreases tris.len(),
{
    lemma_worst_nonneg(verts, tris);
    if i + 1 == tris.len() {
    } else {
        lemma_worst_covers(verts, tris.drop_last(), i);
        assert(tris.drop_last()[i] == tris[i]);
    }
}

/// The longest edge is never negative.
proof fn lemma_worst_nonneg(verts: Seq<Vector>, tris: Seq<Tri>)
    ensures
        worst_sq(verts, tris) >= 0,
    decreases tris.len(),
{
    if tris.len() > 0 {
        lemma_worst_nonneg(verts, tris.drop_last());
    }
}

/// The unordered key of an edge: smaller index first.
pub open spec fn edge_key(u: int, v: int) -> (int, int) {
    if u <= v {
        (u, v)
    } else {
        (v, u)
    }
}

/// The midpoint vertex, componentwise floor of the average.
pub open spec fn spec_mid(p: Vector, q: Vector) -> Vector {
    Vector {
        x: ((p.x + q.x) / 2) as i64,
        y: ((p.y + q.y) / 2) as i64,
        z: ((p.z + q.z) / 2) as i64,
    }
}

/// The four children of a triangle, through the midpoints the map assigns to
/// its edges: three corner triangles and the central one, all wound like the
/// parent.
pub open spec fn child_quad(t: Tri, mm: Map<(int, int), usize>) -> Seq<Tri> {
    let mab = mm[edge_key(t.a as int, t.b as int)];
    let mbc = mm[edge_key(t.b as int, t.c as int)];
    let mca = mm[edge_key(t.c as int, t.a as int)];
    seq![
        Tri { a: t.a, b: mab, c: mca },
        Tri { a: t.b, b: mbc, c: mab },
        Tri { a: t.c, b: mca, c: mbc },
        Tri { a: mab, b: mbc, c: mca },
    ]
}

/// Every triangle of the list split into its four children.
pub open spec fn split_tris(tris: Seq<Tri>, mm: Map<(int, int), usize>) -> Seq<Tri>
    decreases tris.len(),
{
    if tris.len() == 0 {
        Seq::empty()
    } else {
        split_tris(tris.drop_last(), mm) + child_quad(tris.last(), mm)
    }
}

/// Map `m2` keeps every assignment of `m1`.
pub open spec fn map_extends(m1: Map<(int, int), usize>, m2: Map<(int, int), usize>) -> bool {
    forall|k: (int, int)| #[trigger]
        m1.dom().contains(k) ==> m2.dom().contains(k) && m1[k] == m2[k]
}

/// The three edge keys of a triangle are assigned by the map.
pub open spec fn tri_keys_in(t: Tri, mm: Map<(int, int), usize>) -> bool {
    mm.dom().contains(edge_key(t.a as int, t.b as int)) && mm.dom().contains(
        edge_key(t.b as int, t.c as int),
    ) && mm.dom().contains(edge_key(t.c as int, t.a as int))
}

/// A larger map that agrees on the smaller one's domain splits alike.
proof fn lemma_split_tris_stable(tris: Seq<Tri>, mm1: Map<(int, int), usize>, mm2: Map<
    (int, int),
    usize,
>)
    requires
        forall|i: int| 0 <= i < tris.len() ==> tri_keys_in(#[trigger] tris[i], mm1),
        map_extends(mm1, mm2),
    ensures
        split_tris(tris, mm1) == split_tris(tris, mm2),
    decreases tris.len(),
{
    if tris.len() > 0 {
        assert(forall|i: int|
            0 <= i < tris.drop_last().len() ==> tri_keys_in(#[trigger] tris.drop_last()[i], mm1));
        lemma_split_tris_stable(tris.drop_last(), mm1, mm2);
        let t = tris.last();
        assert(tris[tris.len() - 1] == t);
        assert(tri_keys_in(t, mm1));
        assert(mm1.dom().contains(edge_key(t.a as int, t.b as int)));
        assert(mm1.dom().contains(edge_key(t.b as int, t.c as int)));
        assert(mm1.dom().contains(edge_key(t.c as int, t.a as int)));
        assert(mm1[edge_key(t.a as int, t.b as int)] == mm2[edge_key(t.a as int, t.b as int)]);
        assert(mm1[edge_key(t.b as int, t.c as int)] == mm2[edge_key(t.b as int, t.c as int)]);
        assert(mm1[edge_key(t.c as int, t.a as int)] == mm2[edge_key(t.c as int, t.a as int)]);
        assert(child_quad(t, mm1) =~= child_quad(t, mm2));
        assert(split_tris(tris, mm1) =~= split_tris(tris, mm2));
    }
}

/// The map a cache's entry list denotes.
pub open spec fn cache_map(entries: Seq<(usize, usize, usize)>) -> Map<(int, int), usize>
    decreases entries.len(),
{
    if entries.len() == 0 {
        Map::empty()
    } else {
        let e = entries.last();
        cache_map(entries.drop_last()).insert((e.0 as int, e.1 as int), e.2)
    }
}

/// The cache holds normalized, distinct keys of pass-start vertices, and the
/// i-th entry names the vertex appended i-th this pass, which carries the
/// midpoint of its key's endpoints.
pub open spec fn cache_inv(
    entries: Seq<(usize, usize, usize)>,
    verts: Seq<Vector>,
    base: int,
) -> bool {
    &&& verts.len() == base + entries.len()
    &&& forall|i: int|
        0 <= i < entries.len() ==> {
            let e = #[trigger] entries[i];
            &&& e.0 < base
            &&& e.1 < base
            &&& e.0 <= e.1
            &&& e.2 == base + i
            &&& verts[e.2 as int] == spec_mid(verts[e.0 as int], verts[e.1 as int])
        }
    &&& forall|i: int, j: int|
        0 <= i < j < entries.len() ==> ((#[trigger] entries[i]).0, entries[i].1) != ((
        #[trigger] entries[j]).0, entries[j].1)
}

/// What `cache_map` says, read off the entry list: the key of entry `i` maps
/// to its vertex.
proof fn lemma_cache_map_at(entries: Seq<(usize, usize, usize)>, i: int)
    requires
        0 <= i < entries.len(),
        forall|p: int, q: int|
            0 <= p < q < entries.len() ==> ((#[trigger] entries[p]).0, entries[p].1) != ((
            #[trigger] entries[q]).0, entries[q].1),
    ensures
        cache_map(entries).dom().contains((entries[i].0 as int, entries[i].1 as int)),
        cache_map(entries)[(entries[i].0 as int, entries[i].1 as int)] == entries[i].2,
    decreases entries.len(),
{
    if i + 1 == entries.len() {
    } else {
        lemma_cache_map_at(entries.drop_last(), i);
        assert(entries.drop_last()[i] == entries[i]);
        assert((entries[i].0, entries[i].1) != (entries.last().0, entries.last().1));
    }
}

/// A key in the denoted map names some entry.
proof fn lemma_cache_map_dom(entries: Seq<(usize, usize, usize)>, k: (int, int))
    requires
        cache_map(entries).dom().contains(k),
    ensures
        exists|i: int|
            0 <= i < entries.len() && ((#[trigger] entries[i]).0 as int, entries[i].1 as int) == k,
    decreases entries.len(),
{
    if entries.len() > 0 {
        let e = entries.last();
        if (e.0 as int, e.1 as int) == k {
            assert(0 <= entries.len() - 1 < entries.len() && ((entries[entries.len() - 1]).0
                as int, entries[entries.len() - 1].1 as int) == k);
        } else {
            lemma_cache_map_dom(entries.drop_last(), k);
            let i = choose|i: int|
                0 <= i < entries.drop_last().len() && ((#[trigger] entries.drop_last()[i]).0
                    as int, entries.drop_last()[i].1 as int) == k;
            assert(0 <= i < entries.len() && ((entries[i]).0 as int, entries[i].1 as int) == k);
        }
    }
}

/// Injectivity of a midpoint map: distinct edges get distinct midpoints.
pub open spec fn mm_inj(mm: Map<(int, int), usize>) -> bool {
    forall|k1: (int, int), k2: (int, int)|
        mm.dom().contains(k1) && mm.dom().contains(k2) && #[trigger] mm[k1] == #[trigger] mm[k2]
            ==> k1 == k2
}

/// The keys of a midpoint map lie under `base` and are normalized, and the
/// midpoints land at or above `base`.
pub open spec fn mm_shape(mm: Map<(int, int), usize>, base: int) -> bool {
    forall|k: (int, int)|
        #[trigger] mm.dom().contains(k) ==> 0 <= k.0 < base && 0 <= k.1 < base && k.0 <= k.1
            && mm[k] >= base
}

/// The denoted map of a well-formed cache: normalized, injective, and each
/// value names the vertex carrying its key's midpoint.
pub open spec fn mm_good(
    mm: Map<(int, int), usize>,
    verts: Seq<Vector>,
    base: int,
) -> bool {
    &&& mm_shape(mm, base)
    &&& mm_inj(mm)
    &&& forall|k: (int, int)|
        mm.dom().contains(k) ==> (#[trigger] mm[k]) < verts.len() && verts[mm[k] as int]
            == spec_mid(verts[k.0], verts[k.1])
}

/// A well-formed cache denotes a good map.
proof fn lemma_cache_inv_good(entries: Seq<(usize, usize, usize)>, verts: Seq<Vector>, base: int)
    requires
        cache_inv(entries, verts, base),
    ensures
        mm_good(cache_map(entries), verts, base),
{
    let mm = cache_map(entries);
    assert forall|k: (int, int)| #[trigger] mm.dom().contains(k) implies 0 <= k.0 < base && 0
        <= k.1 < base && k.0 <= k.1 && mm[k] >= base && mm[k] < verts.len() && verts[mm[k] as int]
        == spec_mid(verts[k.0], verts[k.1]) by {
        lemma_cache_map_dom(entries, k);
        let i = choose|i: int|
            0 <= i < entries.len() && ((#[trigger] entries[i]).0 as int, entries[i].1 as int) == k;
        lemma_cache_map_at(entries, i);
    }
    assert forall|k1: (int, int), k2: (int, int)|
        mm.dom().contains(k1) && mm.dom().contains(k2) && #[trigger] mm[k1] == #[trigger] mm[k2]
        implies k1 == k2 by {
        lemma_cache_map_dom(entries, k1);
        lemma_cache_map_dom(entries, k2);
        let i1 = choose|i: int|
            0 <= i < entries.len() && ((#[trigger] entries[i]).0 as int, entries[i].1 as int) == k1;
        let i2 = choose|i: int|
            0 <= i < entries.len() && ((#[trigger] entries[i]).0 as int, entries[i].1 as int) == k2;
        lemma_cache_map_at(entries, i1);
        lemma_cache_map_at(entries, i2);
        if i1 != i2 {
            assert(entries[i1].2 != entries[i2].2);
        }
    }
}

/// Find or create the midpoint vertex of the edge `{u, v}`. The cache and
/// the vertex table grow together; the denoted map only ever gains keys.
fn midpoint_index(
    cache: &mut Vec<(usize, usize, usize)>,
    verts: &mut Vec<Vector>,
    Ghost(base): Ghost<int>,
    u: usize,
    v: usize,
) -> (m: usize)
    requires
        cache_inv(old(cache)@, old(verts)@, base),
        u < base,
        v < base,
        forall|i: int|
            0 <= i < old(verts)@.len() ==> (#[trigger] old(verts)@[i]).bounded(COORD_LIMIT as int),
    ensures
        cache_inv(final(cache)@, final(verts)@, base),
        forall|i: int|
            0 <= i < final(verts)@.len() ==> (#[trigger] final(verts)@[i]).bounded(
                COORD_LIMIT as int,
            ),
        old(verts)@.is_prefix_of(final(verts)@),
        map_extends(cache_map(old(cache)@), cache_map(final(cache)@)),
        cache_map(final(cache)@).dom().contains(edge_key(u as int, v as int)),
        m == cache_map(final(cache)@)[edge_key(u as int, v as int)],
        final(verts)@.len() <= old(verts)@.len() + 1,
{
    let (lo, hi): (usize, usize) = if u <= v {
        (u, v)
    } else {
        (v, u)
    };
    proof {
        assert(edge_key(u as int, v as int) == (lo as int, hi as int));
    }
    let mut i: usize = 0;
    while i < cache.len()
        invariant
            0 <= i <= cache@.len(),
            cache@ == old(cache)@,
            verts@ == old(verts)@,
            cache_inv(cache@, verts@, base),
            u < base,
            v < base,
            (lo as int, hi as int) == edge_key(u as int, v as int),
            forall|j: int|
                0 <= j < verts@.len() ==> (#[trigger] verts@[j]).bounded(COORD_LIMIT as int),
            forall|j: int| 0 <= j < i ==> ((#[trigger] cache@[j]).0, cache@[j].1) != (lo, hi),
        decreases cache@.len() - i,
    {
        let e = cache[i];
        if e.0 == lo && e.1 == hi {
            proof {
                lemma_cache_map_at(cache@, i as int);
            }
            return e.2;
        }
        i += 1;
    }
    proof {
        if cache_map(cache@).dom().contains((lo as int, hi as int)) {
            lemma_cache_map_dom(cache@, (lo as int, hi as int));
        }
        assert(!cache_map(cache@).dom().contains((lo as int, hi as int)));
    }
    // Not cached: append the midpoint vertex and record it.
    let p = verts[lo];
    let q = verts[hi];
    let mx: i64 = (crate::fixed::floor_div((p.x + q.x) as i128, 2)) as i64;
    let my: i64 = (crate::fixed::floor_div((p.y + q.y) as i128, 2)) as i64;
    let mz: i64 = (crate::fixed::floor_div((p.z + q.z) as i128, 2)) as i64;
    proof {
        crate::fixed::lemma_div_between((p.x + q.x) as int, 2, -(COORD_LIMIT as int), COORD_LIMIT
            as int);
        crate::fixed::lemma_div_between((p.y + q.y) as int, 2, -(COORD_LIMIT as int), COORD_LIMIT
            as int);
        crate::fixed::lemma_div_between((p.z + q.z) as int, 2, -(COORD_LIMIT as int), COORD_LIMIT
            as int);
    }
    let mid = Vector { x: mx, y: my, z: mz };
    let m: usize = verts.len();
    verts.push(mid);
    let ghost old_entries = cache@;
    cache.push((lo, hi, m));
    proof {
        assert(cache@.drop_last() == old_entries);
        assert(cache@.last() == (lo, hi, m));
        assert(cache_map(cache@) == cache_map(old_entries).insert((lo as int, hi as int), m));
        assert(map_extends(cache_map(old_entries), cache_map(cache@)));
        assert forall|j: int|
            0 <= j < cache@.len() implies {
            let e = #[trigger] cache@[j];
            &&& e.0 < base
            &&& e.1 < base
            &&& e.0 <= e.1
            &&& e.2 == base + j
            &&& final(verts)@[e.2 as int] == spec_mid(
                final(verts)@[e.0 as int],
                final(verts)@[e.1 as int],
            )
        } by {
            if j < old_entries.len() {
                assert(old_entries[j] == cache@[j]);
            }
        }
    }
    m
}

/// The pair (longest edge of a triangle, exactly) as executable arithmetic.
fn edge_sq(p: &Vector, q: &Vector) -> (r: i128)
    requires
        p.bounded(COORD_LIMIT as int),
        q.bounded(COORD_LIMIT as int),
    ensures
        r == dist_sq(*p, *q),
        r >= 0,
{
    let dx: i64 = p.x - q.x;
    let dy: i64 = p.y - q.y;
    let dz: i64 = p.z - q.z;
    proof {
        crate::vector::lemma_abs_square_bound(dx as int, 2 * COORD_LIMIT as int);
        crate::vector::lemma_abs_square_bound(dy as int, 2 * COORD_LIMIT as int);
        crate::vector::lemma_abs_square_bound(dz as int, 2 * COORD_LIMIT as int);
    }
    (dx as i128) * (dx as i128) + (dy as i128) * (dy as i128) + (dz as i128) * (dz as i128)
}

/// The longest squared edge over the whole mesh.
fn compute_worst(mesh: &Mesh) -> (r: i128)
    requires
        mesh.wf(),
    ensures
        r == worst_sq(mesh.vertices@, mesh.triangles@),
{
    let mut worst: i128 = 0;
    let mut i: usize = 0;
    proof {
        assert(mesh.triangles@.take(0) == Seq::<Tri>::empty());
    }
    while i < mesh.triangles.len()
        invariant
            0 <= i <= mesh.triangles@.len(),
            mesh.wf(),
            worst == worst_sq(mesh.vertices@, mesh.triangles@.take(i as int)),
        decreases mesh.triangles@.len() - i,
    {
        let t = mesh.triangles[i];
        let ab: i128 = edge_sq(&mesh.vertices[t.a], &mesh.vertices[t.b]);
        let bc: i128 = edge_sq(&mesh.vertices[t.b], &mesh.vertices[t.c]);
        let ca: i128 = edge_sq(&mesh.vertices[t.c], &mesh.vertices[t.a]);
        let tmax: i128 = if ab >= bc && ab >= ca {
            ab
        } else if bc >= ca {
            bc
        } else {
            ca
        };
        if tmax > worst {
            worst = tmax;
        }
        proof {
            assert(mesh.triangles@.take(i + 1 as int).drop_last() == mesh.triangles@.take(
                i as int,
            ));
            assert(mesh.triangles@.take(i + 1 as int).last() == mesh.triangles@[i as int]);
        }
        i += 1;
    }
    proof {
        assert(mesh.triangles@.take(mesh.triangles@.len() as int) == mesh.triangles@);
    }
    worst
}

/// A vertex appended by refinement: the floor-midpoint of two vertices that
/// stand earlier in the table.
pub open spec fn is_midpoint_of_earlier(verts: Seq<Vector>, j: int) -> bool {
    exists|k0: int, k1: int|
        0 <= k0 < j && 0 <= k1 < j && verts[j] == #[trigger] spec_mid(verts[k0], verts[k1])
}

/// The triangle list after a sequence of splitting passes, each described by
/// its midpoint map (the pass's base vertex count rides along unused here).
pub open spec fn chain_result(tris: Seq<Tri>, steps: Seq<(Map<(int, int), usize>, int)>) -> Seq<
    Tri,
>
    decreases steps.len(),
{
    if steps.len() == 0 {
        tris
    } else {
        split_tris(chain_result(tris, steps.drop_last()), steps.last().0)
    }
}

/// Every pass of the chain is sound: its midpoint map is injective and
/// normalized over the pass's base vertex count, each midpoint vertex of
/// the (final) table carries the floor-midpoint of its key's endpoints, and
/// the map covers the pass's triangles.
pub open spec fn chain_ok(
    tris: Seq<Tri>,
    steps: Seq<(Map<(int, int), usize>, int)>,
    verts: Seq<Vector>,
) -> bool
    decreases steps.len(),
{
    if steps.len() == 0 {
        true
    } else {
        let prev = chain_result(tris, steps.drop_last());
        let mm = steps.last().0;
        let base = steps.last().1;
        &&& chain_ok(tris, steps.drop_last(), verts)
        &&& mm_good(mm, verts, base)
        &&& forall|i: int| 0 <= i < prev.len() ==> tri_keys_in(#[trigger] prev[i], mm)
        &&& forall|i: int| 0 <= i < prev.len() ==> (#[trigger] prev[i]).in_bounds(base)
    }
}

/// `(rv, rt)` refines `(in_v, in_t)`: indices in bounds, coordinates within
/// limits, every edge within the bound, the input vertices kept in place as
/// a prefix, every appended vertex the midpoint of two earlier ones,
/// watertightness preserved, and the triangle list exactly an iterated
/// uniform midpoint 4-split of the input's.
pub open spec fn is_refined_from(
    in_v: Seq<Vector>,
    in_t: Seq<Tri>,
    rv: Seq<Vector>,
    rt: Seq<Tri>,
    limit_sq: int,
) -> bool {
    &&& forall|i: int| 0 <= i < rt.len() ==> (#[trigger] rt[i]).in_bounds(rv.len() as int)
    &&& forall|i: int| 0 <= i < rv.len() ==> (#[trigger] rv[i]).bounded(COORD_LIMIT as int)
    &&& edges_within(rv, rt, limit_sq)
    &&& in_v.is_prefix_of(rv)
    &&& forall|j: int| in_v.len() <= j < rv.len() ==> is_midpoint_of_earlier(rv, j)
    &&& (watertight(in_t) ==> watertight(rt))
    &&& rt.len() >= in_t.len()
    &&& exists|steps: Seq<(Map<(int, int), usize>, int)>|
        #[trigger] chain_ok(in_t, steps, rv) && rt == chain_result(in_t, steps)
}

/// A split has four children per parent.
pub proof fn lemma_split_tris_len(tris: Seq<Tri>, mm: Map<(int, int), usize>)
    ensures
        split_tris(tris, mm).len() == 4 * tris.len(),
    decreases tris.len(),
{
    if tris.len() > 0 {
        lemma_split_tris_len(tris.drop_last(), mm);
    }
}

/// A chain of splits never loses a triangle.
proof fn lemma_chain_len(tris: Seq<Tri>, steps: Seq<(Map<(int, int), usize>, int)>)
    ensures
        chain_result(tris, steps).len() >= tris.len(),
    decreases steps.len(),
{
    if steps.len() > 0 {
        lemma_chain_len(tris, steps.drop_last());
        lemma_split_tris_len(chain_result(tris, steps.drop_last()), steps.last().0);
    }
}

/// A sound chain stays sound when the vertex table is extended: every index
/// any of its maps reads lies under the old length.
proof fn lemma_chain_ok_prefix(
    tris: Seq<Tri>,
    steps: Seq<(Map<(int, int), usize>, int)>,
    v1: Seq<Vector>,
    v2: Seq<Vector>,
)
    requires
        chain_ok(tris, steps, v1),
        v1.is_prefix_of(v2),
    ensures
        chain_ok(tris, steps, v2),
    decreases steps.len(),
{
    if steps.len() > 0 {
        lemma_chain_ok_prefix(tris, steps.drop_last(), v1, v2);
        let mm = steps.last().0;
        let base = steps.last().1;
        assert forall|k: (int, int)| mm.dom().contains(k) implies (#[trigger] mm[k]) < v2.len()
            && v2[mm[k] as int] == spec_mid(v2[k.0], v2[k.1]) by {
            assert(mm[k] < v1.len());
            assert(v2[mm[k] as int] == v1[mm[k] as int]);
            assert(v2[k.0] == v1[k.0]);
            assert(v2[k.1] == v1[k.1]);
        }
    }
}

/// A midpoint certificate survives extending the table.
proof fn lemma_midpoint_prefix(v1: Seq<Vector>, v2: Seq<Vector>, j: int)
    requires
        v1.is_prefix_of(v2),
        0 <= j < v1.len(),
        is_midpoint_of_earlier(v1, j),
    ensures
        is_midpoint_of_earlier(v2, j),
{
    let (k0, k1) = choose|k0: int, k1: int|
        0 <= k0 < j && 0 <= k1 < j && v1[j] == #[trigger] spec_mid(v1[k0], v1[k1]);
    assert(v2[k0] == v1[k0] && v2[k1] == v1[k1] && v2[j] == v1[j]);
    assert(v2[j] == spec_mid(v2[k0], v2[k1]));
}

/// Split every triangle of the mesh in four, sharing midpoints through one
/// cache. Returns the refined mesh and, as a ghost value, the midpoint map
/// of the pass.
fn split_all(mesh: Mesh) -> (r: (Mesh, Ghost<Map<(int, int), usize>>))
    requires
        mesh.wf(),
    ensures
        r.0.wf(),
        r.0.triangles@ == split_tris(mesh.triangles@, r.1@),
        mm_good(r.1@, r.0.vertices@, mesh.vertices@.len() as int),
        forall|i: int|
            0 <= i < mesh.triangles@.len() ==> tri_keys_in(#[trigger] mesh.triangles@[i], r.1@),
        mesh.vertices@.is_prefix_of(r.0.vertices@),
        forall|i: int|
            0 <= i < mesh.triangles@.len() ==> (#[trigger] mesh.triangles@[i]).in_bounds(
                mesh.vertices@.len() as int,
            ),
        forall|j: int|
            mesh.vertices@.len() <= j < r.0.vertices@.len() ==> is_midpoint_of_earlier(
                r.0.vertices@,
                j,
            ),
{
    let Mesh { vertices: mut verts, triangles: tris } = mesh;
    let base: usize = verts.len();
    let ghost v0 = verts@;
    let mut cache: Vec<(usize, usize, usize)> = Vec::new();
    let mut out: Vec<Tri> = Vec::new();
    proof {
        assert(cache@ =~= Seq::<(usize, usize, usize)>::empty());
        assert(cache_inv(cache@, verts@, base as int));
        assert(tris@.take(0) == Seq::<Tri>::empty());
        assert(out@ == split_tris(tris@.take(0), cache_map(cache@)));
    }
    let mut i: usize = 0;
    while i < tris.len()
        invariant
            0 <= i <= tris@.len(),
            base == v0.len(),
            cache_inv(cache@, verts@, base as int),
            forall|j: int|
                0 <= j < verts@.len() ==> (#[trigger] verts@[j]).bounded(COORD_LIMIT as int),
            v0.is_prefix_of(verts@),
            forall|j: int|
                0 <= j < tris@.len() ==> (#[trigger] tris@[j]).in_bounds(base as int),
            forall|j: int|
                0 <= j < i ==> tri_keys_in(#[trigger] tris@[j], cache_map(cache@)),
            out@ == split_tris(tris@.take(i as int), cache_map(cache@)),
            forall|k: int|
                0 <= k < out@.len() ==> (#[trigger] out@[k]).in_bounds(verts@.len() as int),
        decreases tris@.len() - i,
    {
        let t = tris[i];
        let ghost mm_a = cache_map(cache@);
        let mab: usize = midpoint_index(&mut cache, &mut verts, Ghost(base as int), t.a, t.b);
        let ghost mm_b = cache_map(cache@);
        let mbc: usize = midpoint_index(&mut cache, &mut verts, Ghost(base as int), t.b, t.c);
        let ghost mm_c = cache_map(cache@);
        let mca: usize = midpoint_index(&mut cache, &mut verts, Ghost(base as int), t.c, t.a);
        let ghost mm_d = cache_map(cache@);
        proof {
            assert(map_extends(mm_a, mm_d));
            assert(map_extends(mm_b, mm_d));
            assert(map_extends(mm_c, mm_d));
            assert(mab == mm_d[edge_key(t.a as int, t.b as int)]);
            assert(mbc == mm_d[edge_key(t.b as int, t.c as int)]);
            assert(mca == mm_d[edge_key(t.c as int, t.a as int)]);
            lemma_cache_inv_good(cache@, verts@, base as int);
            assert(forall|j: int|
                0 <= j < i ==> tri_keys_in(#[trigger] tris@[j], mm_d));
            lemma_split_tris_stable(tris@.take(i as int), mm_a, mm_d);
        }
        out.push(Tri { a: t.a, b: mab, c: mca });
        out.push(Tri { a: t.b, b: mbc, c: mab });
        out.push(Tri { a: t.c, b: mca, c: mbc });
        out.push(Tri { a: mab, b: mbc, c: mca });
        proof {
            assert(tris@.take(i + 1 as int).drop_last() == tris@.take(i as int));
            assert(tris@.take(i + 1 as int).last() == tris@[i as int]);
            assert(out@ =~= split_tris(tris@.take(i as int), mm_d) + child_quad(tris@[i as int], mm_d));
        }
        i += 1;
    }
    proof {
        assert(tris@.take(tris@.len() as int) == tris@);
        lemma_cache_inv_good(cache@, verts@, base as int);
        assert forall|j: int|
            base <= j < verts@.len() implies is_midpoint_of_earlier(verts@, j) by {
            let e = cache@[j - base];
            assert(e.2 == j && e.0 < base && e.1 < base);
            assert(verts@[j] == spec_mid(verts@[e.0 as int], verts@[e.1 as int]));
        }
    }
    let ghost mm = cache_map(cache@);
    (Mesh { vertices: verts, triangles: out }, Ghost(mm))
}

/// `P` is, componentwise, half of `A + B` rounded down.
pub open spec fn half_of(p: Vector, a: Vector, b: Vector) -> bool {
    &&& 0 <= a.x + b.x - 2 * p.x <= 1
    &&& 0 <= a.y + b.y - 2 * p.y <= 1
    &&& 0 <= a.z + b.z - 2 * p.z <= 1
}

/// A vertex is half of its own doubled sum.
proof fn lemma_half_self(v: Vector)
    ensures
        half_of(v, v, v),
{
}

/// The midpoint is half of the endpoint sum.
proof fn lemma_half_mid(a: Vector, b: Vector)
    requires
        a.bounded(COORD_LIMIT as int),
        b.bounded(COORD_LIMIT as int),
    ensures
        half_of(spec_mid(a, b), a, b),
{
    lemma_fundamental_div_mod(a.x + b.x, 2);
    lemma_mod_bound(a.x + b.x, 2);
    lemma_fundamental_div_mod(a.y + b.y, 2);
    lemma_mod_bound(a.y + b.y, 2);
    lemma_fundamental_div_mod(a.z + b.z, 2);
    lemma_mod_bound(a.z + b.z, 2);
    crate::fixed::lemma_div_between(a.x + b.x, 2, -(COORD_LIMIT as int), COORD_LIMIT as int);
    crate::fixed::lemma_div_between(a.y + b.y, 2, -(COORD_LIMIT as int), COORD_LIMIT as int);
    crate::fixed::lemma_div_between(a.z + b.z, 2, -(COORD_LIMIT as int), COORD_LIMIT as int);
}

/// An edge between two rounded halves is, squared, at most half the parent
/// edge squared, up to the rounding slack.
proof fn lemma_child_edge_sq(p: Vector, q: Vector, a: Vector, b: Vector, c: Vector, d: Vector, e: Vector, f: Vector)
    requires
        half_of(p, a, b),
        half_of(q, c, d),
        a.x + b.x - (c.x + d.x) == e.x - f.x,
        a.y + b.y - (c.y + d.y) == e.y - f.y,
        a.z + b.z - (c.z + d.z) == e.z - f.z,
    ensures
        4 * dist_sq(p, q) <= 2 * dist_sq(e, f) + 6,
{
    lemma_coord_shrink(p.x as int, q.x as int, e.x - f.x);
    lemma_coord_shrink(p.y as int, q.y as int, e.y - f.y);
    lemma_coord_shrink(p.z as int, q.z as int, e.z - f.z);
}

/// One coordinate of the halving argument: if `2 * (pc - qc)` is within one
/// of `d`, then `4 (pc - qc)^2 <= 2 d^2 + 2`.
proof fn lemma_coord_shrink(pc: int, qc: int, d: int)
    requires
        -1 <= 2 * (pc - qc) - d <= 1,
    ensures
        4 * ((pc - qc) * (pc - qc)) <= 2 * (d * d) + 2,
{
    assert(4 * ((pc - qc) * (pc - qc)) <= 2 * (d * d) + 2) by (nonlinear_arith)
        requires
            -1 <= 2 * (pc - qc) - d <= 1,
    ;
}

/// Distances are sums of squares, never negative.
proof fn lemma_dist_sq_nonneg(p: Vector, q: Vector)
    ensures
        dist_sq(p, q) >= 0,
{
    assert((p.x - q.x) * (p.x - q.x) >= 0 && (p.y - q.y) * (p.y - q.y) >= 0 && (p.z - q.z) * (p.z
        - q.z) >= 0) by (nonlinear_arith);
}

/// A bound on every triangle bounds the whole list.
proof fn lemma_worst_le(verts: Seq<Vector>, tris: Seq<Tri>, b: int)
    requires
        0 <= b,
        forall|i: int| 0 <= i < tris.len() ==> tri_max_sq(verts, #[trigger] tris[i]) <= b,
    ensures
        worst_sq(verts, tris) <= b,
    decreases tris.len(),
{
    if tris.len() > 0 {
        assert(forall|i: int|
            0 <= i < tris.drop_last().len() ==> tri_max_sq(verts, #[trigger] tris.drop_last()[i])
                <= b);
        lemma_worst_le(verts, tris.drop_last(), b);
        assert(tris[tris.len() - 1] == tris.last());
    }
}

/// The longest edge of a concatenation is the larger of the two parts'.
proof fn lemma_worst_concat(verts: Seq<Vector>, s1: Seq<Tri>, s2: Seq<Tri>)
    ensures
        worst_sq(verts, s1 + s2) == if worst_sq(verts, s1) >= worst_sq(verts, s2) {
            worst_sq(verts, s1)
        } else {
            worst_sq(verts, s2)
        },
    decreases s2.len(),
{
    lemma_worst_nonneg(verts, s1);
    lemma_worst_nonneg(verts, s2);
    if s2.len() == 0 {
        assert(s1 + s2 =~= s1);
    } else {
        lemma_worst_concat(verts, s1, s2.drop_last());
        assert((s1 + s2).drop_last() == s1 + s2.drop_last());
        assert((s1 + s2).last() == s2.last());
    }
}

/// One pass more than halves the squared length of the longest edge, up to
/// the rounding slack of the integer midpoints.
proof fn lemma_split_shrinks(
    tris: Seq<Tri>,
    mm: Map<(int, int), usize>,
    vout: Seq<Vector>,
    base: int,
)
    requires
        mm_good(mm, vout, base),
        forall|i: int| 0 <= i < tris.len() ==> (#[trigger] tris[i]).in_bounds(base),
        forall|i: int| 0 <= i < tris.len() ==> tri_keys_in(#[trigger] tris[i], mm),
        base <= vout.len(),
        forall|j: int| 0 <= j < vout.len() ==> (#[trigger] vout[j]).bounded(COORD_LIMIT as int),
    ensures
        2 * worst_sq(vout, split_tris(tris, mm)) <= worst_sq(vout, tris) + 3,
    decreases tris.len(),
{
    lemma_worst_nonneg(vout, split_tris(tris, mm));
    lemma_worst_nonneg(vout, tris);
    if tris.len() > 0 {
        let rest = tris.drop_last();
        assert(forall|i: int| 0 <= i < rest.len() ==> (#[trigger] rest[i]).in_bounds(base));
        assert(forall|i: int| 0 <= i < rest.len() ==> tri_keys_in(#[trigger] rest[i], mm));
        lemma_split_shrinks(rest, mm, vout, base);
        let t = tris.last();
        assert(tris[tris.len() - 1] == t);
        lemma_quad_shrinks(t, mm, vout, base);
        lemma_worst_concat(vout, split_tris(rest, mm), child_quad(t, mm));
        let mt = tri_max_sq(vout, t);
        lemma_worst_le(vout, child_quad(t, mm), (mt + 3) / 2);
        assert(2 * ((mt + 3) / 2) <= mt + 3) by {
            lemma_fundamental_div_mod(mt + 3, 2);
            lemma_mod_bound(mt + 3, 2);
        }
        assert(worst_sq(vout, tris) == if mt >= worst_sq(vout, rest) {
            mt
        } else {
            worst_sq(vout, rest)
        });
    }
}

/// Each child of one split triangle has, squared and doubled, edges within
/// the parent's longest edge plus the rounding slack.
proof fn lemma_quad_shrinks(t: Tri, mm: Map<(int, int), usize>, vout: Seq<Vector>, base: int)
    requires
        mm_good(mm, vout, base),
        t.in_bounds(base),
        tri_keys_in(t, mm),
        base <= vout.len(),
        forall|j: int| 0 <= j < vout.len() ==> (#[trigger] vout[j]).bounded(COORD_LIMIT as int),
    ensures
        forall|k: int|
            0 <= k < 4 ==> tri_max_sq(vout, #[trigger] child_quad(t, mm)[k]) <= (tri_max_sq(
                vout,
                t,
            ) + 3) / 2,
        (tri_max_sq(vout, t) + 3) / 2 >= 0,
{
    let va = vout[t.a as int];
    let vb = vout[t.b as int];
    let vc = vout[t.c as int];
    let kab = edge_key(t.a as int, t.b as int);
    let kbc = edge_key(t.b as int, t.c as int);
    let kca = edge_key(t.c as int, t.a as int);
    let vmab = vout[mm[kab] as int];
    let vmbc = vout[mm[kbc] as int];
    let vmca = vout[mm[kca] as int];
    // The cached midpoint vertex is the midpoint of the edge's endpoints,
    // whichever way the key was normalized.
    assert(spec_mid(va, vb) == spec_mid(vb, va)) by {
        assert(va.x + vb.x == vb.x + va.x);
    }
    assert(spec_mid(vb, vc) == spec_mid(vc, vb));
    assert(spec_mid(vc, va) == spec_mid(va, vc));
    assert(vmab == spec_mid(va, vb));
    assert(vmbc == spec_mid(vb, vc));
    assert(vmca == spec_mid(vc, va));
    lemma_half_mid(va, vb);
    lemma_half_mid(vb, vc);
    lemma_half_mid(vc, va);
    assert(half_of(vmab, va, vb) && half_of(vmbc, vb, vc) && half_of(vmca, vc, va));
    lemma_half_self(va);
    lemma_half_self(vb);
    lemma_half_self(vc);
    let mt = tri_max_sq(vout, t);
    lemma_dist_sq_nonneg(va, vb);
    lemma_dist_sq_nonneg(vb, vc);
    lemma_dist_sq_nonneg(vc, va);
    lemma_dist_sq_nonneg(vb, va);
    lemma_dist_sq_nonneg(vc, vb);
    lemma_dist_sq_nonneg(va, vc);
    assert(dist_sq(vb, va) == dist_sq(va, vb) && dist_sq(vc, vb) == dist_sq(vb, vc) && dist_sq(
        va,
        vc,
    ) == dist_sq(vc, va)) by (nonlinear_arith);
    // Child 0: [a, mab, mca].
    lemma_child_edge_sq(va, vmab, va, va, va, vb, va, vb);
    lemma_child_edge_sq(vmab, vmca, va, vb, vc, va, vb, vc);
    lemma_child_edge_sq(vmca, va, vc, va, va, va, vc, va);
    // Child 1: [b, mbc, mab].
    lemma_child_edge_sq(vb, vmbc, vb, vb, vb, vc, vb, vc);
    lemma_child_edge_sq(vmbc, vmab, vb, vc, va, vb, vc, va);
    lemma_child_edge_sq(vmab, vb, va, vb, vb, vb, va, vb);
    // Child 2: [c, mca, mbc].
    lemma_child_edge_sq(vc, vmca, vc, vc, vc, va, vc, va);
    lemma_child_edge_sq(vmca, vmbc, vc, va, vb, vc, va, vb);
    lemma_child_edge_sq(vmbc, vc, vb, vc, vc, vc, vb, vc);
    // Child 3: [mab, mbc, mca].
    lemma_child_edge_sq(vmab, vmbc, va, vb, vb, vc, va, vc);
    lemma_child_edge_sq(vmbc, vmca, vb, vc, vc, va, vb, va);
    lemma_child_edge_sq(vmca, vmab, vc, va, va, vb, vc, vb);
    lemma_fundamental_div_mod(mt + 3, 2);
    lemma_mod_bound(mt + 3, 2);
    assert forall|k: int| 0 <= k < 4 implies tri_max_sq(vout, #[trigger] child_quad(t, mm)[k]) <= (
    mt + 3) / 2 by {
        assert(child_quad(t, mm)[0] == Tri { a: t.a, b: mm[kab], c: mm[kca] });
        assert(child_quad(t, mm)[1] == Tri { a: t.b, b: mm[kbc], c: mm[kab] });
        assert(child_quad(t, mm)[2] == Tri { a: t.c, b: mm[kca], c: mm[kbc] });
        assert(child_quad(t, mm)[3] == Tri { a: mm[kab], b: mm[kbc], c: mm[kca] });
    }
}

/// Refine until every edge's squared length is within the bound's square:
/// uniform midpoint subdivision, one shared-midpoint cache per pass. The
/// input vertices stay, in place, at the front of the table. The bound must
/// be at least two least units: below that the integer grid cannot be
/// refined further.
pub fn tesselate(input: Mesh, max_edge_len: i64) -> (r: Mesh)
    requires
        input.wf(),
        2 <= max_edge_len <= COORD_LIMIT,
    ensures
        r.wf(),
        is_refined_from(
            input.vertices@,
            input.triangles@,
            r.vertices@,
            r.triangles@,
            (max_edge_len as int) * (max_edge_len as int),
        ),
{
    proof {
        crate::vector::lemma_abs_square_bound(max_edge_len as int, COORD_LIMIT as int);
        assert(4 <= (max_edge_len as int) * (max_edge_len as int)) by (nonlinear_arith)
            requires
                2 <= max_edge_len,
        ;
    }
    let limit_sq: i128 = (max_edge_len as i128) * (max_edge_len as i128);
    let ghost v_in = input.vertices@;
    let ghost t_in = input.triangles@;
    let ghost mut steps: Seq<(Map<(int, int), usize>, int)> = Seq::empty();
    let mut mesh = input;
    let mut worst: i128 = compute_worst(&mesh);
    while worst > limit_sq
        invariant
            mesh.wf(),
            worst == worst_sq(mesh.vertices@, mesh.triangles@),
            limit_sq == (max_edge_len as int) * (max_edge_len as int),
            4 <= limit_sq,
            v_in.is_prefix_of(mesh.vertices@),
            watertight(t_in) ==> watertight(mesh.triangles@),
            chain_ok(t_in, steps, mesh.vertices@),
            mesh.triangles@ == chain_result(t_in, steps),
            forall|j: int|
                v_in.len() <= j < mesh.vertices@.len() ==> is_midpoint_of_earlier(
                    mesh.vertices@,
                    j,
                ),
        decreases worst,
    {
        let ghost base_k: int = mesh.vertices@.len() as int;
        let (m2, mm) = split_all(mesh);
        proof {
            if watertight(t_in) {
                lemma_split_watertight(mesh.triangles@, mm@, mesh.vertices@.len() as int);
            }
            lemma_split_shrinks(mesh.triangles@, mm@, m2.vertices@, mesh.vertices@.len() as int);
            lemma_worst_nonneg(m2.vertices@, m2.triangles@);
            assert(worst_sq(mesh.vertices@, mesh.triangles@) == worst_sq(
                m2.vertices@,
                mesh.triangles@,
            )) by {
                lemma_worst_same_prefix(mesh.vertices@, m2.vertices@, mesh.triangles@);
            }
            lemma_prefix_trans(v_in, mesh.vertices@, m2.vertices@);
            // Record the pass in the splitting chain.
            lemma_chain_ok_prefix(t_in, steps, mesh.vertices@, m2.vertices@);
            let steps2 = steps.push((mm@, base_k));
            assert(steps2.drop_last() =~= steps);
            assert(steps2.last() == (mm@, base_k));
            assert(chain_result(t_in, steps2) == split_tris(chain_result(t_in, steps), mm@));
            assert(chain_ok(t_in, steps2, m2.vertices@));
            // Old midpoint certificates survive; the new vertices carry
            // their own from the pass's cache.
            assert forall|j: int|
                v_in.len() <= j < m2.vertices@.len() implies is_midpoint_of_earlier(
                m2.vertices@,
                j,
            ) by {
                if j < base_k {
                    lemma_midpoint_prefix(mesh.vertices@, m2.vertices@, j);
                }
            }
            steps = steps2;
        }
        mesh = m2;
        worst = compute_worst(&mesh);
    }
    proof {
        assert forall|i: int|
            0 <= i < mesh.triangles@.len() implies tri_max_sq(
            mesh.vertices@,
            #[trigger] mesh.triangles@[i],
        ) <= limit_sq by {
            lemma_worst_covers(mesh.vertices@, mesh.triangles@, i);
        }
        lemma_chain_len(t_in, steps);
        assert(chain_ok(t_in, steps, mesh.vertices@) && mesh.triangles@ == chain_result(
            t_in,
            steps,
        ));
        assert(is_refined_from(
            v_in,
            t_in,
            mesh.vertices@,
            mesh.triangles@,
            limit_sq as int,
        ));
    }
    mesh
}

/// The three directed edges of a triangle, as a multiset.
pub open spec fn tri_ms(t: Tri) -> Multiset<HalfEdgeKey> {
    Multiset::empty().insert(HalfEdgeKey { origin: t.a, destination: t.b }).insert(
        HalfEdgeKey { origin: t.b, destination: t.c },
    ).insert(HalfEdgeKey { origin: t.c, destination: t.a })
}

/// All directed edges of a triangle list, with multiplicity.
pub open spec fn he_ms(tris: Seq<Tri>) -> Multiset<HalfEdgeKey>
    decreases tris.len(),
{
    if tris.len() == 0 {
        Multiset::empty()
    } else {
        he_ms(tris.drop_last()).add(tri_ms(tris.last()))
    }
}

/// A watertight triangle list: every directed edge is paired with its
/// reverse, as often as it occurs.
pub open spec fn watertight(tris: Seq<Tri>) -> bool {
    forall|e: HalfEdgeKey| #[trigger] he_ms(tris).count(e) == he_ms(tris).count(e.spec_reverse())
}

/// The two directed child edges that one directed parent edge leaves behind:
/// origin to midpoint, midpoint to destination.
pub open spec fn outer_of(e: HalfEdgeKey, mm: Map<(int, int), usize>) -> Multiset<HalfEdgeKey> {
    let m = mm[edge_key(e.origin as int, e.destination as int)];
    Multiset::empty().insert(HalfEdgeKey { origin: e.origin, destination: m }).insert(
        HalfEdgeKey { origin: m, destination: e.destination },
    )
}

/// The boundary edges of all four children of one triangle.
pub open spec fn outer_of_tri(t: Tri, mm: Map<(int, int), usize>) -> Multiset<HalfEdgeKey> {
    outer_of(HalfEdgeKey { origin: t.a, destination: t.b }, mm).add(
        outer_of(HalfEdgeKey { origin: t.b, destination: t.c }, mm),
    ).add(outer_of(HalfEdgeKey { origin: t.c, destination: t.a }, mm))
}

/// The boundary edges of the children of a whole list.
pub open spec fn outer_ms(tris: Seq<Tri>, mm: Map<(int, int), usize>) -> Multiset<HalfEdgeKey>
    decreases tris.len(),
{
    if tris.len() == 0 {
        Multiset::empty()
    } else {
        outer_ms(tris.drop_last(), mm).add(outer_of_tri(tris.last(), mm))
    }
}

/// The six edges between the midpoints of one triangle: three reverse pairs.
pub open spec fn inner_of(t: Tri, mm: Map<(int, int), usize>) -> Multiset<HalfEdgeKey> {
    let mab = mm[edge_key(t.a as int, t.b as int)];
    let mbc = mm[edge_key(t.b as int, t.c as int)];
    let mca = mm[edge_key(t.c as int, t.a as int)];
    Multiset::empty().insert(HalfEdgeKey { origin: mab, destination: mca }).insert(
        HalfEdgeKey { origin: mca, destination: mab },
    ).insert(HalfEdgeKey { origin: mbc, destination: mab }).insert(
        HalfEdgeKey { origin: mab, destination: mbc },
    ).insert(HalfEdgeKey { origin: mca, destination: mbc }).insert(
        HalfEdgeKey { origin: mbc, destination: mca },
    )
}

/// The midpoint edges of the children of a whole list.
pub open spec fn inner_ms(tris: Seq<Tri>, mm: Map<(int, int), usize>) -> Multiset<HalfEdgeKey>
    decreases tris.len(),
{
    if tris.len() == 0 {
        Multiset::empty()
    } else {
        inner_ms(tris.drop_last(), mm).add(inner_of(tris.last(), mm))
    }
}

/// A split list's edges are exactly the midpoint edges plus the boundary
/// edges of the children.
proof fn lemma_split_decomp(tris: Seq<Tri>, mm: Map<(int, int), usize>)
    ensures
        he_ms(split_tris(tris, mm)) == inner_ms(tris, mm).add(outer_ms(tris, mm)),
    decreases tris.len(),
{
    if tris.len() == 0 {
        assert(he_ms(split_tris(tris, mm)) =~= inner_ms(tris, mm).add(outer_ms(tris, mm)));
    } else {
        let rest = tris.drop_last();
        let t = tris.last();
        lemma_split_decomp(rest, mm);
        lemma_he_ms_concat(split_tris(rest, mm), child_quad(t, mm));
        assert(he_ms(child_quad(t, mm)) =~= inner_of(t, mm).add(outer_of_tri(t, mm))) by {
            let cq = child_quad(t, mm);
            let s3 = cq.drop_last();
            let s2 = s3.drop_last();
            let s1 = s2.drop_last();
            let s0 = s1.drop_last();
            assert(s0.len() == 0);
            assert(he_ms(s0) == Multiset::<HalfEdgeKey>::empty());
            assert(s1.last() == cq[0] && s2.last() == cq[1] && s3.last() == cq[2] && cq.last()
                == cq[3]);
            assert(he_ms(s1) == he_ms(s0).add(tri_ms(cq[0])));
            assert(he_ms(s2) == he_ms(s1).add(tri_ms(cq[1])));
            assert(he_ms(s3) == he_ms(s2).add(tri_ms(cq[2])));
            assert(he_ms(cq) == he_ms(s3).add(tri_ms(cq[3])));
        }
        assert(he_ms(split_tris(tris, mm)) =~= inner_ms(tris, mm).add(outer_ms(tris, mm)));
    }
}

/// Edge multisets concatenate additively.
proof fn lemma_he_ms_concat(s1: Seq<Tri>, s2: Seq<Tri>)
    ensures
        he_ms(s1 + s2) == he_ms(s1).add(he_ms(s2)),
    decreases s2.len(),
{
    if s2.len() == 0 {
        assert(s1 + s2 =~= s1);
        assert(he_ms(s1 + s2) =~= he_ms(s1).add(he_ms(s2)));
    } else {
        lemma_he_ms_concat(s1, s2.drop_last());
        assert((s1 + s2).drop_last() =~= s1 + s2.drop_last());
        assert((s1 + s2).last() == s2.last());
        assert(he_ms(s1 + s2) =~= he_ms(s1).add(he_ms(s2)));
    }
}

/// The midpoint edges pair each directed edge with its reverse within the
/// same parent.
proof fn lemma_inner_sym(tris: Seq<Tri>, mm: Map<(int, int), usize>, x: HalfEdgeKey)
    ensures
        inner_ms(tris, mm).count(x) == inner_ms(tris, mm).count(x.spec_reverse()),
    decreases tris.len(),
{
    if tris.len() > 0 {
        lemma_inner_sym(tris.drop_last(), mm, x);
    }
}

/// Some vertex pairs with `p` across a cached edge whose midpoint is `q`.
pub open spec fn touches(mm: Map<(int, int), usize>, p: int, q: usize) -> bool {
    exists|v: int| mm.dom().contains(#[trigger] edge_key(p, v)) && mm[edge_key(p, v)] == q
}

/// The vertex on the far side of the cached edge through `p` whose midpoint
/// is `q`.
pub open spec fn partner(mm: Map<(int, int), usize>, p: int, q: usize) -> int {
    choose|v: int| mm.dom().contains(#[trigger] edge_key(p, v)) && mm[edge_key(p, v)] == q
}

/// With an injective midpoint map, the partner is pinned by any witness.
proof fn lemma_partner_unique(mm: Map<(int, int), usize>, p: int, q: usize, v: int)
    requires
        mm_inj(mm),
        mm.dom().contains(edge_key(p, v)),
        mm[edge_key(p, v)] == q,
    ensures
        touches(mm, p, q),
        partner(mm, p, q) == v,
{
    assert(mm.dom().contains(edge_key(p, v)) && mm[edge_key(p, v)] == q);
    let w = partner(mm, p, q);
    assert(mm.dom().contains(edge_key(p, w)) && mm[edge_key(p, w)] == q);
    assert(edge_key(p, w) == edge_key(p, v));
}

/// How often `x` occurs among the boundary edges, in terms of the parent
/// edges: once for each parent edge from `x.origin` across the cached pair
/// whose midpoint is `x.destination`, and once for each parent edge into
/// `x.destination` across the cached pair whose midpoint is `x.origin`.
spec fn outer_formula(tris: Seq<Tri>, mm: Map<(int, int), usize>, x: HalfEdgeKey) -> int {
    (if touches(mm, x.origin as int, x.destination) {
        he_ms(tris).count(
            HalfEdgeKey {
                origin: x.origin,
                destination: partner(mm, x.origin as int, x.destination) as usize,
            },
        ) as int
    } else {
        0
    }) + (if touches(mm, x.destination as int, x.origin) {
        he_ms(tris).count(
            HalfEdgeKey {
                origin: partner(mm, x.destination as int, x.origin) as usize,
                destination: x.destination,
            },
        ) as int
    } else {
        0
    })
}

/// Counting the boundary edges: each directed parent edge `(u, v)` leaves
/// one `(u, m)` and one `(m, v)`, and the injective cache lets the count be
/// read back off the parent edge multiset.
proof fn lemma_outer_count(tris: Seq<Tri>, mm: Map<(int, int), usize>, base: int, x: HalfEdgeKey)
    requires
        mm_inj(mm),
        mm_shape(mm, base),
        forall|i: int| 0 <= i < tris.len() ==> tri_keys_in(#[trigger] tris[i], mm),
        forall|i: int| 0 <= i < tris.len() ==> (#[trigger] tris[i]).in_bounds(base),
    ensures
        outer_ms(tris, mm).count(x) == outer_formula(tris, mm, x),
    decreases tris.len(),
{
    if tris.len() == 0 {
    } else {
        let rest = tris.drop_last();
        let t = tris.last();
        assert(tris[tris.len() - 1] == t);
        assert(forall|i: int| 0 <= i < rest.len() ==> tri_keys_in(#[trigger] rest[i], mm));
        assert(forall|i: int| 0 <= i < rest.len() ==> (#[trigger] rest[i]).in_bounds(base));
        lemma_outer_count(rest, mm, base, x);
        lemma_outer_step(t, mm, base, x);
        assert(he_ms(tris) == he_ms(rest).add(tri_ms(t)));
        assert(outer_ms(tris, mm).count(x) == outer_ms(rest, mm).count(x) + outer_of_tri(
            t,
            mm,
        ).count(x));
    }
}

/// One triangle's step of `lemma_outer_count`.
proof fn lemma_outer_step(t: Tri, mm: Map<(int, int), usize>, base: int, x: HalfEdgeKey)
    requires
        mm_inj(mm),
        mm_shape(mm, base),
        tri_keys_in(t, mm),
        t.in_bounds(base),
    ensures
        outer_of_tri(t, mm).count(x) == (if touches(mm, x.origin as int, x.destination) {
            tri_ms(t).count(
                HalfEdgeKey {
                    origin: x.origin,
                    destination: partner(mm, x.origin as int, x.destination) as usize,
                },
            ) as int
        } else {
            0
        }) + (if touches(mm, x.destination as int, x.origin) {
            tri_ms(t).count(
                HalfEdgeKey {
                    origin: partner(mm, x.destination as int, x.origin) as usize,
                    destination: x.destination,
                },
            ) as int
        } else {
            0
        }),
{
    let eab = HalfEdgeKey { origin: t.a, destination: t.b };
    let ebc = HalfEdgeKey { origin: t.b, destination: t.c };
    let eca = HalfEdgeKey { origin: t.c, destination: t.a };
    lemma_outer_pair(eab, mm, base, x);
    lemma_outer_pair(ebc, mm, base, x);
    lemma_outer_pair(eca, mm, base, x);
}

/// One directed parent edge's two boundary children, counted against `x`.
proof fn lemma_outer_pair(e: HalfEdgeKey, mm: Map<(int, int), usize>, base: int, x: HalfEdgeKey)
    requires
        mm_inj(mm),
        mm_shape(mm, base),
        mm.dom().contains(edge_key(e.origin as int, e.destination as int)),
        e.origin < base,
        e.destination < base,
    ensures
        outer_of(e, mm).count(x) == (if touches(mm, x.origin as int, x.destination) && e == (
        HalfEdgeKey {
            origin: x.origin,
            destination: partner(mm, x.origin as int, x.destination) as usize,
        }) {
            1int
        } else {
            0
        }) + (if touches(mm, x.destination as int, x.origin) && e == (HalfEdgeKey {
            origin: partner(mm, x.destination as int, x.origin) as usize,
            destination: x.destination,
        }) {
            1int
        } else {
            0
        }),
{
    let k = edge_key(e.origin as int, e.destination as int);
    let m = mm[k];
    let first = HalfEdgeKey { origin: e.origin, destination: m };
    let second = HalfEdgeKey { origin: m, destination: e.destination };
    assert(outer_of(e, mm).count(x) == (if first == x {
        1int
    } else {
        0
    }) + (if second == x {
        1int
    } else {
        0
    }));
    assert(k == edge_key(e.origin as int, e.destination as int));
    // First child matches x exactly when x runs from its origin to the
    // midpoint of the edge toward the partner.
    if first == x {
        lemma_partner_unique(mm, e.origin as int, m, e.destination as int);
    }
    if touches(mm, x.origin as int, x.destination) && e == (HalfEdgeKey {
        origin: x.origin,
        destination: partner(mm, x.origin as int, x.destination) as usize,
    }) {
        let v = partner(mm, x.origin as int, x.destination);
        assert(mm.dom().contains(edge_key(x.origin as int, v)) && mm[edge_key(x.origin as int, v)]
            == x.destination);
        assert(0 <= v < base);
        assert(edge_key(e.origin as int, e.destination as int) == edge_key(x.origin as int, v));
        assert(first == x);
    }
    if second == x {
        lemma_partner_unique(mm, e.destination as int, m, e.origin as int);
        assert(edge_key(e.destination as int, e.origin as int) == edge_key(
            e.origin as int,
            e.destination as int,
        ));
    }
    if touches(mm, x.destination as int, x.origin) && e == (HalfEdgeKey {
        origin: partner(mm, x.destination as int, x.origin) as usize,
        destination: x.destination,
    }) {
        let v = partner(mm, x.destination as int, x.origin);
        assert(mm.dom().contains(edge_key(x.destination as int, v)) && mm[edge_key(
            x.destination as int,
            v,
        )] == x.origin);
        assert(0 <= v < base);
        assert(edge_key(e.origin as int, e.destination as int) == edge_key(
            x.destination as int,
            v,
        ));
        assert(second == x);
    }
}

/// Splitting a watertight list leaves a watertight list: the midpoint edges
/// pair within each parent, and the boundary edges inherit the parents'
/// pairing through the shared midpoint cache.
pub proof fn lemma_split_watertight(
    tris: Seq<Tri>,
    mm: Map<(int, int), usize>,
    base: int,
)
    requires
        mm_inj(mm),
        mm_shape(mm, base),
        forall|i: int| 0 <= i < tris.len() ==> tri_keys_in(#[trigger] tris[i], mm),
        forall|i: int| 0 <= i < tris.len() ==> (#[trigger] tris[i]).in_bounds(base),
        watertight(tris),
    ensures
        watertight(split_tris(tris, mm)),
{
    lemma_split_decomp(tris, mm);
    assert forall|x: HalfEdgeKey|
        #[trigger] he_ms(split_tris(tris, mm)).count(x) == he_ms(split_tris(tris, mm)).count(
        x.spec_reverse()) by {
        lemma_inner_sym(tris, mm, x);
        lemma_outer_count(tris, mm, base, x);
        lemma_outer_count(tris, mm, base, x.spec_reverse());
        let rx = x.spec_reverse();
        // The two formula terms swap roles between x and its reverse, and
        // each parent-edge count flips by the parents' own watertightness.
        if touches(mm, x.origin as int, x.destination) {
            let v = partner(mm, x.origin as int, x.destination);
            let fwd = HalfEdgeKey { origin: x.origin, destination: v as usize };
            assert(he_ms(tris).count(fwd) == he_ms(tris).count(fwd.spec_reverse()));
        }
        if touches(mm, x.destination as int, x.origin) {
            let v = partner(mm, x.destination as int, x.origin);
            let bwd = HalfEdgeKey { origin: v as usize, destination: x.destination };
            assert(he_ms(tris).count(bwd) == he_ms(tris).count(bwd.spec_reverse()));
        }
    }
}

/// Being a prefix carries over a longer extension.
proof fn lemma_prefix_trans(a: Seq<Vector>, b: Seq<Vector>, c: Seq<Vector>)
    requires
        a.is_prefix_of(b),
        b.is_prefix_of(c),
    ensures
        a.is_prefix_of(c),
{
    assert(a =~= c.subrange(0, a.len() as int));
}

/// Distances read only the indexed vertices, so extending the table does not
/// change any listed triangle's edges.
proof fn lemma_worst_same_prefix(v1: Seq<Vector>, v2: Seq<Vector>, tris: Seq<Tri>)
    requires
        v1.is_prefix_of(v2),
        forall|i: int| 0 <= i < tris.len() ==> (#[trigger] tris[i]).in_bounds(v1.len() as int),
    ensures
        worst_sq(v1, tris) == worst_sq(v2, tris),
    decreases tris.len(),
{
    if tris.len() > 0 {
        assert(forall|i: int|
            0 <= i < tris.drop_last().len() ==> (#[trigger] tris.drop_last()[i]).in_bounds(
                v1.len() as int,
            ));
        lemma_worst_same_prefix(v1, v2, tris.drop_last());
        let t = tris.last();
        assert(tris[tris.len() - 1] == t);
        assert(v2[t.a as int] == v1[t.a as int]);
        assert(v2[t.b as int] == v1[t.b as int]);
        assert(v2[t.c as int] == v1[t.c as int]);
    }
}

} // verus!
