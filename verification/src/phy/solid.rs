//! Solids: hulls that share one array of points, ready to be laid out.
use std::collections::HashMap;
use vstd::prelude::*;

use super::edges::{back_edge_fits, build_reverse_edges, edge_error, edges_pair_up};
use super::error::{complains, PhyError};
use super::tree::{build_tree, tree, TreeNode};
use crate::seqs::{
    add_distinct, distinct, distinct_holds_each_once, distinct_keeps_prefix, position,
    position_is_unique,
};
use crate::single::{finite, is_finite};
use crate::text::{decimal, push_decimal};

verus! {

broadcast use vstd::std_specs::hash::group_hash_axioms;

/// The size of a hull's header in bytes.
pub const LEDGE_HEADER_SIZE: usize = 16;

/// The size of a triangle in bytes.
pub const TRIANGLE_SIZE: usize = 16;

/// The size of a point in bytes.
pub const POINT_SIZE: usize = 16;

/// The size of a surface header in bytes.
pub const COMPACT_SURFACE_SIZE: usize = 48;

/// The most triangles a hull may have, so that a distance between edges fits 15 bits.
pub const MAX_TRIANGLES_PER_HULL: usize = 4096;

/// The most points a solid may have, so that an index fits 16 bits.
pub const MAX_POINTS_PER_SOLID: usize = 65535;

/// A convex hull: corners, as the bit patterns of their coordinates, and triangles over them.
#[derive(Debug, Clone)]
pub struct PhyHull {
    /// The corners.
    pub vertices: Vec<[u32; 3]>,
    /// The triangles.
    pub faces: Vec<[u32; 3]>,
}

/// A hull as a mathematical value.
pub struct HullView {
    /// The corners.
    pub vertices: Seq<[u32; 3]>,
    /// The triangles.
    pub faces: Seq<[u32; 3]>,
}

impl View for PhyHull {
    type V = HullView;

    open spec fn view(&self) -> HullView {
        HullView { vertices: self.vertices@, faces: self.faces@ }
    }
}

/// Hulls as mathematical values.
pub open spec fn hull_views(hulls: Seq<PhyHull>) -> Seq<HullView> {
    Seq::new(hulls.len(), |h: int| hulls[h]@)
}

/// A hull over the shared points.
#[derive(Debug, Clone)]
pub struct PreparedHull {
    /// The triangles, as indices into the shared points.
    pub tris: Vec<[u32; 3]>,
    /// For each edge the triangle and the side of the edge that runs back.
    pub reverse: Vec<[u32; 2]>,
    /// The points that the hull uses, in increasing order.
    pub used: Vec<u32>,
    /// Where the hull starts, in bytes from the first hull.
    pub offset: usize,
}

/// A solid that is ready to be laid out.
#[derive(Debug, Clone)]
pub struct PreparedSolid {
    /// The shared points.
    pub points: Vec<[u32; 3]>,
    /// The hulls.
    pub hulls: Vec<PreparedHull>,
    /// The tree over the hulls.
    pub nodes: Vec<TreeNode>,
    /// The size of the hulls and the points in bytes.
    pub ledge_region_size: usize,
    /// The size of the whole surface in bytes.
    pub surface_size: i32,
}

/// The corner at which edge `e` of a hull starts.
pub open spec fn corner(hull: HullView, e: int) -> [u32; 3] {
    hull.vertices[hull.faces[e / 3]@[e % 3] as int]
}

/// The corners of the first `n` edges of a hull.
pub open spec fn hull_corners(hull: HullView, n: int) -> Seq<[u32; 3]> {
    Seq::new(n as nat, |e: int| corner(hull, e))
}

/// The corners of all edges of the first `n` hulls.
pub open spec fn corners(hulls: Seq<HullView>, n: int) -> Seq<[u32; 3]>
    decreases n,
{
    if n <= 0 {
        Seq::empty()
    } else {
        corners(hulls, n - 1) + hull_corners(hulls[n - 1], 3 * hulls[n - 1].faces.len() as int)
    }
}

/// The points that the first `n` hulls share: their corners, each once.
pub open spec fn shared_points(hulls: Seq<HullView>, n: int) -> Seq<[u32; 3]> {
    distinct(corners(hulls, n))
}

/// Triangle `f` of a hull, as indices into `points`.
pub open spec fn tri(points: Seq<[u32; 3]>, hull: HullView, f: int) -> [u32; 3] {
    [
        position(points, corner(hull, 3 * f)) as u32,
        position(points, corner(hull, 3 * f + 1)) as u32,
        position(points, corner(hull, 3 * f + 2)) as u32,
    ]
}

/// The triangles of hull `h`, as indices into the shared points.
pub open spec fn tris(hulls: Seq<HullView>, h: int) -> Seq<[u32; 3]> {
    Seq::new(hulls[h].faces.len(), |f: int| tri(shared_points(hulls, h + 1), hulls[h], f))
}

/// A point has finite coordinates.
pub open spec fn finite_point(p: [u32; 3]) -> bool {
    is_finite(p@[0]) && is_finite(p@[1]) && is_finite(p@[2])
}

/// All vertices of a hull are finite.
pub open spec fn finite_hull(hull: HullView) -> bool {
    forall|i: int| 0 <= i < hull.vertices.len() ==> finite_point(#[trigger] hull.vertices[i])
}

/// The vertex that edge `e` of a hull starts at exists.
pub open spec fn index_exists(hull: HullView, e: int) -> bool {
    hull.faces[e / 3]@[e % 3] < hull.vertices.len()
}

/// All vertices that a hull's faces name exist.
pub open spec fn indices_exist(hull: HullView) -> bool {
    forall|e: int| 0 <= e < 3 * hull.faces.len() ==> #[trigger] index_exists(hull, e)
}

/// A hull can be taken into a solid, as far as the hull alone decides it.
pub open spec fn hull_fits(hull: HullView) -> bool {
    &&& hull.vertices.len() >= 4
    &&& finite_hull(hull)
    &&& 0 < hull.faces.len() <= MAX_TRIANGLES_PER_HULL
    &&& indices_exist(hull)
}

/// Hull `h` can be taken into a solid: it fits and its surface is closed.
pub open spec fn hull_good(hulls: Seq<HullView>, h: int) -> bool {
    hull_fits(hulls[h]) && edges_pair_up(tris(hulls, h), false)
}

/// What is wrong with hull `h` of solid `solid`.
pub open spec fn hull_error(solid: usize, hulls: Seq<HullView>, h: int, e: PhyError) -> bool {
    let hull = hulls[h];
    if hull.vertices.len() < 4 {
        e == (PhyError::HullTooFewPoints { solid, points: hull.vertices.len() as usize })
    } else if !finite_hull(hull) {
        &&& e matches PhyError::NonFinitePoint { solid: s, point }
        &&& s == solid
        &&& point < hull.vertices.len()
        &&& !finite_point(hull.vertices[point as int])
        &&& forall|i: int| 0 <= i < point ==> finite_point(#[trigger] hull.vertices[i])
    } else if hull.faces.len() == 0 {
        e matches PhyError::HullDegenerate { solid: s, detail } && s == solid && detail@ == "第 "@
            + decimal(h as nat) + " 个凸块的面表是空的"@
    } else if hull.faces.len() > MAX_TRIANGLES_PER_HULL {
        e == (PhyError::TooManyTriangles {
            solid,
            triangles: hull.faces.len() as usize,
            max: MAX_TRIANGLES_PER_HULL,
        })
    } else if !indices_exist(hull) {
        exists|i: int|
            {
                &&& 0 <= i < 3 * hull.faces.len()
                &&& !#[trigger] index_exists(hull, i)
                &&& forall|j: int| 0 <= j < i ==> #[trigger] index_exists(hull, j)
                &&& e == (PhyError::IndexOutOfRange {
                    solid,
                    face: (i / 3) as usize,
                    index: hull.faces[i / 3]@[i % 3],
                    vertex_count: hull.vertices.len() as usize,
                })
            }
    } else {
        edge_error(tris(hulls, h), solid, e)
    }
}

/// Where hull `n` starts, in bytes from the first hull.
pub open spec fn ledge_offset(hulls: Seq<HullView>, n: int) -> int
    decreases n,
{
    if n <= 0 {
        0
    } else {
        ledge_offset(hulls, n - 1) + 16 + 16 * hulls[n - 1].faces.len()
    }
}

/// The size of the hulls and the points of a solid in bytes.
pub open spec fn region_size(hulls: Seq<HullView>) -> int {
    ledge_offset(hulls, hulls.len() as int) + 16 * shared_points(hulls, hulls.len() as int).len()
}

/// The size of the surface of a solid in bytes.
pub open spec fn surface_size(hulls: Seq<HullView>) -> int {
    48 + region_size(hulls) + 28 * (2 * hulls.len() - 1)
}

/// All hulls can be taken into a solid.
pub open spec fn hulls_good(hulls: Seq<HullView>) -> bool {
    forall|h: int| 0 <= h < hulls.len() ==> #[trigger] hull_good(hulls, h)
}

/// The hulls make up a solid.
pub open spec fn solid_good(hulls: Seq<HullView>) -> bool {
    &&& hulls.len() > 0
    &&& hulls_good(hulls)
    &&& shared_points(hulls, hulls.len() as int).len() <= MAX_POINTS_PER_SOLID
    &&& surface_size(hulls) <= i32::MAX
}

/// What keeps hulls from making up a solid.
pub open spec fn solid_error(solid: usize, hulls: Seq<HullView>, e: PhyError) -> bool {
    if hulls.len() == 0 {
        complains(e, "hulls"@, "solid["@ + decimal(solid as nat) + "] 一个凸块都没有"@)
    } else if !hulls_good(hulls) {
        exists|h: int|
            {
                &&& 0 <= h < hulls.len()
                &&& !#[trigger] hull_good(hulls, h)
                &&& forall|g: int| 0 <= g < h ==> #[trigger] hull_good(hulls, g)
                &&& hull_error(solid, hulls, h, e)
            }
    } else if shared_points(hulls, hulls.len() as int).len() > MAX_POINTS_PER_SOLID {
        &&& e matches PhyError::TooManyPoints { solid: s, points }
        &&& s == solid
        &&& points == shared_points(hulls, hulls.len() as int).len()
    } else {
        complains(e, "surfaceSize"@, decimal(surface_size(hulls) as nat) + " 超出 i32"@)
    }
}

/// `used` lists the points that `tris` names, in increasing order.
pub open spec fn lists_used(used: Seq<u32>, tris: Seq<[u32; 3]>) -> bool {
    &&& forall|i: int, j: int| 0 <= i < j < used.len() ==> used[i] < used[j]
    &&& forall|g: u32| #[trigger] used.contains(g) <==> names_point(tris, g)
}

/// Some triangle has point `g` as a corner.
pub open spec fn names_point(tris: Seq<[u32; 3]>, g: u32) -> bool {
    exists|e: int| 0 <= e < 3 * tris.len() && #[trigger] tri_point(tris, e) == g
}

/// The point at which edge `e` starts.
pub open spec fn tri_point(tris: Seq<[u32; 3]>, e: int) -> u32 {
    tris[e / 3]@[e % 3]
}

/// `p` is hull `h`, over the shared points.
pub open spec fn prepares_hull(p: PreparedHull, hulls: Seq<HullView>, h: int) -> bool {
    &&& p.tris@ == tris(hulls, h)
    &&& p.reverse@.len() == 3 * p.tris@.len()
    &&& forall|e: int|
        0 <= e < p.reverse@.len() ==> back_edge_fits(p.tris@, #[trigger] p.reverse@[e], e)
    &&& lists_used(p.used@, p.tris@)
    &&& p.offset == ledge_offset(hulls, h)
}

/// `p` is the solid that the hulls make up.
pub open spec fn prepares(p: PreparedSolid, hulls: Seq<HullView>) -> bool {
    &&& solid_good(hulls)
    &&& p.points@ == shared_points(hulls, hulls.len() as int)
    &&& p.hulls@.len() == hulls.len()
    &&& forall|h: int| 0 <= h < hulls.len() ==> prepares_hull(#[trigger] p.hulls@[h], hulls, h)
    &&& p.nodes@ == tree(0, hulls.len())
    &&& p.nodes@.len() == 2 * hulls.len() - 1
    &&& p.ledge_region_size == region_size(hulls)
    &&& p.surface_size == surface_size(hulls)
}

/// One number for a point.
pub open spec fn point_key(p: [u32; 3]) -> u128 {
    (p@[0] + p@[1] * 4294967296 + p@[2] * 18446744073709551616) as u128
}

proof fn point_key_is_injective(p: [u32; 3], q: [u32; 3])
    requires
        point_key(p) == point_key(q),
    ensures
        p == q,
{
    assert(p@ =~= q@);
}

fn key_of(p: [u32; 3]) -> (r: u128)
    ensures
        r == point_key(p),
{
    p[0] as u128 + p[1] as u128 * 4294967296 + p[2] as u128 * 18446744073709551616
}

/// `seen` gives the place of each point of `points`, by its key.
pub open spec fn indexes(seen: Map<u128, u32>, points: Seq<[u32; 3]>) -> bool {
    &&& forall|k: u128| #[trigger]
        seen.contains_key(k) ==> seen[k] < points.len() && point_key(points[seen[k] as int]) == k
    &&& forall|i: int| 0 <= i < points.len() ==> seen.contains_key(#[trigger] point_key(points[i]))
}

/// The place of `q` in `points`, to which it is added where it is missing.
pub(crate) fn intern(points: &mut Vec<[u32; 3]>, seen: &mut HashMap<u128, u32>, q: [u32; 3]) -> (r: u32)
    requires
        indexes(old(seen)@, old(points)@),
        old(points)@.no_duplicates(),
        old(points)@.len() < u32::MAX,
    ensures
        indexes(final(seen)@, final(points)@),
        final(points)@ == add_distinct(old(points)@, q),
        final(points)@.no_duplicates(),
        r < final(points)@.len(),
        final(points)@[r as int] == q,
{
    let k: u128 = key_of(q);
    match seen.get(&k) {
        Some(g) => {
            let g: u32 = *g;
            proof {
                point_key_is_injective(points@[g as int], q);
                assert(points@.contains(q));
            }
            g
        },
        None => {
            let g: u32 = points.len() as u32;
            let ghost before = points@;
            let ghost seen_before = seen@;
            assert(!points@.contains(q)) by {
                if points@.contains(q) {
                    let i = choose|i: int| 0 <= i < points@.len() && points@[i] == q;
                    assert(seen@.contains_key(point_key(points@[i])));
                }
            }
            points.push(q);
            seen.insert(k, g);
            assert(indexes(seen@, points@)) by {
                assert forall|i: int| 0 <= i < points@.len() implies seen@.contains_key(
                    #[trigger] point_key(points@[i]),
                ) by {
                    if i < before.len() {
                        assert(points@[i] == before[i]);
                        assert(seen_before.contains_key(point_key(before[i])));
                    }
                }
            }
            g
        },
    }
}

/// The positions in a prefix of a sequence without repeats are those in the whole.
proof fn position_in_prefix<A>(s: Seq<A>, t: Seq<A>, x: A)
    requires
        s.is_prefix_of(t),
        t.no_duplicates(),
        s.contains(x),
    ensures
        position(s, x) == position(t, x),
{
    let i = position(s, x);
    assert(s[i] == t[i]);
    position_is_unique(t, i);
}

/// The first vertex that is not finite.
fn first_not_finite(hull: &PhyHull) -> (r: Option<usize>)
    ensures
        match r {
            Some(i) => {
                &&& i < hull@.vertices.len()
                &&& !finite_point(hull@.vertices[i as int])
                &&& forall|j: int| 0 <= j < i ==> finite_point(#[trigger] hull@.vertices[j])
                &&& !finite_hull(hull@)
            },
            None => finite_hull(hull@),
        },
{
    let mut i: usize = 0;
    while i < hull.vertices.len()
        invariant
            i <= hull.vertices@.len(),
            forall|j: int| 0 <= j < i ==> finite_point(#[trigger] hull.vertices@[j]),
        decreases hull.vertices@.len() - i,
    {
        let p: [u32; 3] = hull.vertices[i];
        if !(finite(p[0]) && finite(p[1]) && finite(p[2])) {
            assert(!finite_point(hull@.vertices[i as int]));
            return Some(i);
        }
        i = i + 1;
    }
    None
}

/// The first edge that starts at a vertex that does not exist.
fn first_bad_index(hull: &PhyHull) -> (r: Option<usize>)
    requires
        hull@.faces.len() <= MAX_TRIANGLES_PER_HULL,
    ensures
        match r {
            Some(e) => {
                &&& e < 3 * hull@.faces.len()
                &&& !index_exists(hull@, e as int)
                &&& forall|d: int| 0 <= d < e ==> #[trigger] index_exists(hull@, d)
            },
            None => indices_exist(hull@),
        },
{
    let n: usize = 3 * hull.faces.len();
    let mut e: usize = 0;
    while e < n
        invariant
            e <= n,
            n == 3 * hull@.faces.len(),
            forall|d: int| 0 <= d < e ==> #[trigger] index_exists(hull@, d),
        decreases n - e,
    {
        let f: usize = e / 3;
        let i: usize = e % 3;
        if hull.faces[f][i] as usize >= hull.vertices.len() {
            return Some(e);
        }
        assert(index_exists(hull@, e as int));
        e = e + 1;
    }
    None
}

/// What the hull alone shows to be wrong with it, as hull `h` of its solid.
fn check_hull(solid: usize, hull: &PhyHull, h: usize, Ghost(hulls): Ghost<Seq<HullView>>) -> (r:
    Result<(), PhyError>)
    requires
        h < hulls.len(),
        hulls[h as int] == hull@,
    ensures
        match r {
            Ok(_) => hull_fits(hull@),
            Err(e) => !hull_fits(hull@) && hull_error(solid, hulls, h as int, e),
        },
{
    if hull.vertices.len() < 4 {
        return Err(PhyError::HullTooFewPoints { solid, points: hull.vertices.len() });
    }
    if let Some(i) = first_not_finite(hull) {
        return Err(PhyError::NonFinitePoint { solid, point: i });
    }
    if hull.faces.len() == 0 {
        let mut detail: String = "第 ".to_owned();
        push_decimal(&mut detail, h as u64);
        detail.push_str(" 个凸块的面表是空的");
        return Err(PhyError::HullDegenerate { solid, detail });
    }
    if hull.faces.len() > MAX_TRIANGLES_PER_HULL {
        return Err(
            PhyError::TooManyTriangles {
                solid,
                triangles: hull.faces.len(),
                max: MAX_TRIANGLES_PER_HULL,
            },
        );
    }
    if let Some(e) = first_bad_index(hull) {
        let f: usize = e / 3;
        let i: usize = e % 3;
        assert(!index_exists(hulls[h as int], e as int));
        return Err(
            PhyError::IndexOutOfRange {
                solid,
                face: f,
                index: hull.faces[f][i],
                vertex_count: hull.vertices.len(),
            },
        );
    }
    Ok(())
}

/// Adds the corners of a hull to the shared points and returns its triangles over them.
fn share_points(
    hull: &PhyHull,
    points: &mut Vec<[u32; 3]>,
    seen: &mut HashMap<u128, u32>,
    Ghost(hulls): Ghost<Seq<HullView>>,
    Ghost(h): Ghost<int>,
) -> (r: Vec<[u32; 3]>)
    requires
        0 <= h < hulls.len(),
        hulls[h] == hull@,
        hull_fits(hull@),
        indexes(old(seen)@, old(points)@),
        old(points)@ == shared_points(hulls, h),
        corners(hulls, h + 1).len() < u32::MAX,
    ensures
        indexes(final(seen)@, final(points)@),
        final(points)@ == shared_points(hulls, h + 1),
        r@ == tris(hulls, h),
        forall|e: int| 0 <= e < 3 * r@.len() ==> #[trigger] tri_point(r@, e) < final(points)@.len(),
{
    let ghost base = corners(hulls, h);
    let mut out: Vec<[u32; 3]> = Vec::new();
    let mut f: usize = 0;
    proof {
        assert(base + hull_corners(hull@, 0) =~= base);
        distinct_holds_each_once(base);
    }
    while f < hull.faces.len()
        invariant
            0 <= h < hulls.len(),
            hulls[h] == hull@,
            hull_fits(hull@),
            f <= hull@.faces.len(),
            out@.len() == f,
            indexes(seen@, points@),
            points@.no_duplicates(),
            points@ == distinct(base + hull_corners(hull@, 3 * f)),
            base == corners(hulls, h),
            corners(hulls, h + 1).len() < u32::MAX,
            forall|e: int|
                0 <= e < 3 * f ==> {
                    &&& #[trigger] tri_point(out@, e) < points@.len()
                    &&& points@[tri_point(out@, e) as int] == corner(hull@, e)
                },
        decreases hull@.faces.len() - f,
    {
        let face: [u32; 3] = hull.faces[f];
        let ghost h0 = base + hull_corners(hull@, 3 * f);
        let ghost h1 = base + hull_corners(hull@, 3 * f + 1);
        let ghost h2 = base + hull_corners(hull@, 3 * f + 2);
        let ghost h3 = base + hull_corners(hull@, 3 * f + 3);
        let ghost p0 = points@;
        proof {
            assert(index_exists(hull@, 3 * f + 0));
            assert(index_exists(hull@, 3 * f + 1));
            assert(index_exists(hull@, 3 * f + 2));
            distinct_holds_each_once(h0);
            distinct_holds_each_once(h1);
            distinct_holds_each_once(h2);
            assert(h1.drop_last() =~= h0);
            assert(h2.drop_last() =~= h1);
            assert(h3.drop_last() =~= h2);
        }
        let a: u32 = intern(points, seen, hull.vertices[face[0] as usize]);
        let ghost p1 = points@;
        assert(p1 == distinct(h1));
        let b: u32 = intern(points, seen, hull.vertices[face[1] as usize]);
        let ghost p2 = points@;
        assert(p2 == distinct(h2));
        let c: u32 = intern(points, seen, hull.vertices[face[2] as usize]);
        assert(points@ == distinct(h3));
        let ghost before = out@;
        out.push([a, b, c]);
        assert forall|e: int| 0 <= e < 3 * f + 3 implies {
            &&& #[trigger] tri_point(out@, e) < points@.len()
            &&& points@[tri_point(out@, e) as int] == corner(hull@, e)
        } by {
            if e < 3 * f {
                assert(out@[e / 3] == before[e / 3]);
                assert(tri_point(out@, e) == tri_point(before, e));
            }
        }
        f = f + 1;
    }
    proof {
        assert(base + hull_corners(hull@, 3 * f) =~= corners(hulls, h + 1));
        assert(out@ =~= tris(hulls, h)) by {
            assert forall|g: int| 0 <= g < out@.len() implies out@[g] == tri(points@, hull@, g) by {
                assert(tri_point(out@, 3 * g) < points@.len());
                assert(tri_point(out@, 3 * g + 1) < points@.len());
                assert(tri_point(out@, 3 * g + 2) < points@.len());
                assert(out@[g]@[0] == tri_point(out@, 3 * g));
                assert(out@[g]@[1] == tri_point(out@, 3 * g + 1));
                assert(out@[g]@[2] == tri_point(out@, 3 * g + 2));
                position_is_unique(points@, out@[g]@[0] as int);
                position_is_unique(points@, out@[g]@[1] as int);
                position_is_unique(points@, out@[g]@[2] as int);
                assert(out@[g]@ =~= tri(points@, hull@, g)@);
            }
        }
    }
    out
}

/// The points that triangles name, in increasing order.
pub fn used_points(tris: &Vec<[u32; 3]>, n: usize) -> (r: Vec<u32>)
    requires
        tris@.len() <= 32767,
        n <= u32::MAX,
        forall|e: int| 0 <= e < 3 * tris@.len() ==> #[trigger] tri_point(tris@, e) < n,
    ensures
        lists_used(r@, tris@),
        r@.len() <= n,
        forall|i: int| 0 <= i < r@.len() ==> #[trigger] r@[i] < n,
{
    let mut marks: Vec<bool> = Vec::new();
    let mut i: usize = 0;
    while i < n
        invariant
            i <= n,
            marks@.len() == i,
            forall|j: int| 0 <= j < i ==> !#[trigger] marks@[j],
        decreases n - i,
    {
        marks.push(false);
        i = i + 1;
    }
    let m: usize = 3 * tris.len();
    let mut e: usize = 0;
    while e < m
        invariant
            e <= m,
            m == 3 * tris@.len(),
            marks@.len() == n,
            forall|d: int| 0 <= d < 3 * tris@.len() ==> #[trigger] tri_point(tris@, d) < n,
            forall|g: int|
                0 <= g < n ==> (#[trigger] marks@[g] <==> exists|d: int|
                    0 <= d < e && #[trigger] tri_point(tris@, d) == g),
        decreases m - e,
    {
        let f: usize = e / 3;
        let k: usize = e % 3;
        let p: u32 = tris[f][k];
        let ghost before = marks@;
        assert(p == tri_point(tris@, e as int));
        marks.set(p as usize, true);
        assert forall|g: int| 0 <= g < n implies (#[trigger] marks@[g] <==> exists|d: int|
            0 <= d < e + 1 && #[trigger] tri_point(tris@, d) == g) by {
            if g == p {
                assert(tri_point(tris@, e as int) == g);
            } else {
                assert(marks@[g] == before[g]);
                if before[g] {
                    let d = choose|d: int| 0 <= d < e && #[trigger] tri_point(tris@, d) == g;
                    assert(tri_point(tris@, d) == g);
                }
            }
        }
        e = e + 1;
    }
    let mut out: Vec<u32> = Vec::new();
    let mut i: usize = 0;
    while i < n
        invariant
            i <= n,
            n <= u32::MAX,
            marks@.len() == n,
            out@.len() <= i,
            forall|j: int| 0 <= j < out@.len() ==> #[trigger] out@[j] < i,
            forall|j: int, k: int| 0 <= j < k < out@.len() ==> out@[j] < out@[k],
            forall|g: u32| #[trigger] out@.contains(g) <==> g < i && marks@[g as int],
        decreases n - i,
    {
        let ghost before = out@;
        if marks[i] {
            out.push(i as u32);
            assert forall|g: u32| #[trigger] out@.contains(g) <==> g < i + 1 && marks@[g as int] by {
                if g == i {
                    assert(out@[before.len() as int] == g);
                } else {
                    if before.contains(g) {
                        let j = choose|j: int| 0 <= j < before.len() && before[j] == g;
                        assert(out@[j] == g);
                    }
                    if out@.contains(g) {
                        let j = choose|j: int| 0 <= j < out@.len() && out@[j] == g;
                        assert(before[j] == g);
                    }
                }
            }
        }
        i = i + 1;
    }
    assert(lists_used(out@, tris@)) by {
        assert forall|g: u32| #[trigger] out@.contains(g) <==> names_point(tris@, g) by {
            if names_point(tris@, g) {
                let d = choose|d: int|
                    0 <= d < 3 * tris@.len() && #[trigger] tri_point(tris@, d) == g;
                assert(tri_point(tris@, d) == g);
                assert(marks@[g as int]);
            }
        }
    }
    out
}

/// A prefix of the hulls has no more corners than all of them.
proof fn corners_grow(hulls: Seq<HullView>, m: int, n: int)
    requires
        0 <= m <= n,
    ensures
        corners(hulls, m).len() <= corners(hulls, n).len(),
    decreases n - m,
{
    if m < n {
        corners_grow(hulls, m, n - 1);
    }
}

/// The triangles of a hull are the same over the points of the first hulls and over all points.
pub proof fn tris_over_all_points(hulls: Seq<HullView>, h: int, n: int)
    requires
        0 <= h < n <= hulls.len(),
    ensures
        forall|f: int|
            0 <= f < hulls[h].faces.len() ==> #[trigger] tris(hulls, h)[f] == tri(
                shared_points(hulls, n),
                hulls[h],
                f,
            ),
        shared_points(hulls, h + 1).len() <= shared_points(hulls, n).len(),
        shared_points(hulls, h + 1).is_prefix_of(shared_points(hulls, n)),
{
    let few = corners(hulls, h + 1);
    let all = corners(hulls, n);
    corners_extend(hulls, h + 1, n);
    let rest = choose|rest: Seq<[u32; 3]>| all == few + rest;
    distinct_keeps_prefix(few, rest);
    distinct_holds_each_once(few);
    distinct_holds_each_once(all);
    assert forall|f: int| 0 <= f < hulls[h].faces.len() implies #[trigger] tris(hulls, h)[f] == tri(
        shared_points(hulls, n),
        hulls[h],
        f,
    ) by {
        let hc = hull_corners(hulls[h], 3 * hulls[h].faces.len() as int);
        let base = corners(hulls, h);
        assert(few == base + hc);
        assert(few[base.len() + 3 * f] == hc[3 * f]);
        assert(few[base.len() + 3 * f + 1] == hc[3 * f + 1]);
        assert(few[base.len() + 3 * f + 2] == hc[3 * f + 2]);
        assert(few.contains(corner(hulls[h], 3 * f)));
        assert(few.contains(corner(hulls[h], 3 * f + 1)));
        assert(few.contains(corner(hulls[h], 3 * f + 2)));
        position_in_prefix(distinct(few), distinct(all), corner(hulls[h], 3 * f));
        position_in_prefix(distinct(few), distinct(all), corner(hulls[h], 3 * f + 1));
        position_in_prefix(distinct(few), distinct(all), corner(hulls[h], 3 * f + 2));
    }
}

/// The points that a hull's triangles name are shared points.
pub proof fn tri_points_exist(hulls: Seq<HullView>, h: int, e: int)
    requires
        0 <= h < hulls.len(),
        0 <= e < 3 * hulls[h].faces.len(),
        shared_points(hulls, h + 1).len() <= u32::MAX,
    ensures
        tri_point(tris(hulls, h), e) < shared_points(hulls, h + 1).len(),
        shared_points(hulls, h + 1)[tri_point(tris(hulls, h), e) as int] == corner(hulls[h], e),
{
    let few = corners(hulls, h + 1);
    let points = distinct(few);
    distinct_holds_each_once(few);
    let hc = hull_corners(hulls[h], 3 * hulls[h].faces.len() as int);
    let base = corners(hulls, h);
    assert(few == base + hc);
    assert(few[base.len() + e] == hc[e]);
    assert(few.contains(corner(hulls[h], e)));
    assert(points.contains(corner(hulls[h], e)));
    let i = position(points, corner(hulls[h], e));
    assert(0 <= i < points.len() && points[i] == corner(hulls[h], e));
    let f = e / 3;
    assert(tris(hulls, h)[f] == tri(points, hulls[h], f));
}

/// The corners of all hulls start with those of the first.
proof fn corners_extend(hulls: Seq<HullView>, m: int, n: int)
    requires
        0 <= m <= n,
    ensures
        exists|rest: Seq<[u32; 3]>| #[trigger] (corners(hulls, m) + rest) == corners(hulls, n),
    decreases n - m,
{
    if m == n {
        assert(corners(hulls, m) + Seq::empty() =~= corners(hulls, n));
    } else {
        corners_extend(hulls, m, n - 1);
        let rest = choose|rest: Seq<[u32; 3]>| #[trigger]
            (corners(hulls, m) + rest) == corners(hulls, n - 1);
        let more = hull_corners(hulls[n - 1], 3 * hulls[n - 1].faces.len() as int);
        assert(corners(hulls, m) + (rest + more) =~= corners(hulls, n));
    }
}

/// The offsets of the hulls do not decrease, and each hull takes at least its header.
pub proof fn offsets_grow(hulls: Seq<HullView>, m: int, n: int)
    requires
        0 <= m <= n,
    ensures
        ledge_offset(hulls, m) + 16 * (n - m) <= ledge_offset(hulls, n),
        0 <= ledge_offset(hulls, m),
    decreases n,
{
    if m < n {
        offsets_grow(hulls, m, n - 1);
    } else if 0 < m {
        offsets_grow(hulls, m - 1, m - 1);
    }
}

/// Lays hulls over one array of points, and a tree over the hulls.
///
/// The corners of all faces together must be countable in 32 bits.
pub fn prepare_solid(solid: usize, hulls: &Vec<PhyHull>) -> (r: Result<PreparedSolid, PhyError>)
    requires
        corners(hull_views(hulls@), hulls@.len() as int).len() < u32::MAX,
    ensures
        match r {
            Ok(p) => prepares(p, hull_views(hulls@)),
            Err(e) => !solid_good(hull_views(hulls@)) && solid_error(solid, hull_views(hulls@), e),
        },
{
    let ghost hv = hull_views(hulls@);
    let ghost total = hulls@.len() as int;
    if hulls.len() == 0 {
        let mut detail: String = "solid[".to_owned();
        push_decimal(&mut detail, solid as u64);
        detail.push_str("] 一个凸块都没有");
        return Err(PhyError::BadParameter { what: "hulls", detail });
    }
    let mut points: Vec<[u32; 3]> = Vec::new();
    let mut seen: HashMap<u128, u32> = HashMap::new();
    let mut out: Vec<PreparedHull> = Vec::new();
    let mut cursor: u64 = 0;
    let mut h: usize = 0;
    while h < hulls.len()
        invariant
            h <= hulls@.len(),
            hv == hull_views(hulls@),
            total == hulls@.len(),
            corners(hv, total).len() < u32::MAX,
            indexes(seen@, points@),
            points@ == shared_points(hv, h as int),
            out@.len() == h,
            forall|g: int| 0 <= g < h ==> #[trigger] hull_good(hv, g),
            cursor == ledge_offset(hv, h as int),
            3 * cursor == 48 * h + 16 * corners(hv, h as int).len(),
            3 * h <= corners(hv, h as int).len() <= corners(hv, total).len(),
            cursor < 0x8000_0000 ==> forall|g: int|
                0 <= g < h ==> prepares_hull(#[trigger] out@[g], hv, g),
        decreases hulls@.len() - h,
    {
        proof {
            distinct_holds_each_once(corners(hv, h as int));
            distinct_holds_each_once(corners(hv, h + 1));
            corners_grow(hv, h as int, total);
            corners_grow(hv, h + 1, total);
        }
        let hull: &PhyHull = &hulls[h];
        match check_hull(solid, hull, h, Ghost(hv)) {
            Ok(_) => {},
            Err(e) => {
                assert(!hull_good(hv, h as int));
                return Err(e);
            },
        }
        let tris: Vec<[u32; 3]> = share_points(
            hull,
            &mut points,
            &mut seen,
            Ghost(hv),
            Ghost(h as int),
        );
        let used: Vec<u32> = used_points(&tris, points.len());
        let reverse: Vec<[u32; 2]> = match build_reverse_edges(&tris, solid) {
            Ok(reverse) => reverse,
            Err(e) => {
                assert(!hull_good(hv, h as int));
                return Err(e);
            },
        };
        assert(hull_good(hv, h as int));
        let size: u64 = 16 + 16 * tris.len() as u64;
        out.push(PreparedHull { tris, reverse, used, offset: cursor as usize });
        if cursor < 0x8000_0000 {
            assert(prepares_hull(out@[h as int], hv, h as int));
        }
        cursor = cursor + size;
        h = h + 1;
    }
    if points.len() > MAX_POINTS_PER_SOLID {
        return Err(PhyError::TooManyPoints { solid, points: points.len() });
    }
    proof {
        offsets_grow(hv, 0, total);
    }
    let nodes_size: u64 = 28 * (2 * hulls.len() as u64 - 1);
    let size: u64 = 48 + cursor + 16 * points.len() as u64 + nodes_size;
    if size > 0x7FFF_FFFF {
        let mut detail: String = String::new();
        push_decimal(&mut detail, size);
        detail.push_str(" 超出 i32");
        return Err(PhyError::BadParameter { what: "surfaceSize", detail });
    }
    let nodes: Vec<TreeNode> = build_tree(hulls.len());
    Ok(
        PreparedSolid {
            ledge_region_size: cursor as usize + POINT_SIZE * points.len(),
            points,
            hulls: out,
            nodes,
            surface_size: size as i32,
        },
    )
}

/// The place of `g` in a list that increases and holds it.
fn place_of(used: &Vec<u32>, g: u32) -> (r: usize)
    requires
        used@.contains(g),
        forall|i: int, j: int| 0 <= i < j < used@.len() ==> used@[i] < used@[j],
    ensures
        r < used@.len(),
        used@[r as int] == g,
{
    let mut lo: usize = 0;
    let mut hi: usize = used.len();
    let ghost at = choose|i: int| 0 <= i < used@.len() && used@[i] == g;
    while lo + 1 < hi
        invariant
            lo <= at < hi <= used@.len(),
            used@[at] == g,
            forall|i: int, j: int| 0 <= i < j < used@.len() ==> used@[i] < used@[j],
        decreases hi - lo,
    {
        let mid: usize = lo + (hi - lo) / 2;
        if used[mid] <= g {
            lo = mid;
        } else {
            hi = mid;
        }
    }
    lo
}

/// The triangles of a hull as places in the list of points that it uses.
pub fn local_tris(h: &PreparedHull) -> (r: Vec<[u32; 3]>)
    requires
        lists_used(h.used@, h.tris@),
        h.used@.len() <= u32::MAX,
    ensures
        r@.len() == h.tris@.len(),
        forall|f: int, c: int|
            0 <= f < r@.len() && 0 <= c < 3 ==> {
                &&& (#[trigger] r@[f]@[c]) < h.used@.len()
                &&& h.used@[r@[f]@[c] as int] == h.tris@[f]@[c]
            },
{
    let mut r: Vec<[u32; 3]> = Vec::new();
    let mut f: usize = 0;
    while f < h.tris.len()
        invariant
            f <= h.tris@.len(),
            r@.len() == f,
            lists_used(h.used@, h.tris@),
            h.used@.len() <= u32::MAX,
            forall|g: int, c: int|
                0 <= g < f && 0 <= c < 3 ==> {
                    &&& (#[trigger] r@[g]@[c]) < h.used@.len()
                    &&& h.used@[r@[g]@[c] as int] == h.tris@[g]@[c]
                },
        decreases h.tris@.len() - f,
    {
        let t: [u32; 3] = h.tris[f];
        proof {
            assert(tri_point(h.tris@, 3 * f + 0) == t@[0]);
            assert(tri_point(h.tris@, 3 * f + 1) == t@[1]);
            assert(tri_point(h.tris@, 3 * f + 2) == t@[2]);
            assert(names_point(h.tris@, t@[0]));
            assert(names_point(h.tris@, t@[1]));
            assert(names_point(h.tris@, t@[2]));
        }
        let a: usize = place_of(&h.used, t[0]);
        let b: usize = place_of(&h.used, t[1]);
        let c: usize = place_of(&h.used, t[2]);
        r.push([a as u32, b as u32, c as u32]);
        f = f + 1;
    }
    r
}

} // verus!
