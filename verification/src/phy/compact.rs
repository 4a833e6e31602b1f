//! The corners of a hull, of which near ones count as one.
use vstd::prelude::*;

use super::bounds::MINUS_INFINITE;
use super::pieces::{go, way};
use super::placed::SOURCE_TO_IVP;
use super::solid::{HullView, PhyHull};
use crate::arith::{
    abs, absolute, at_most, below, difference, less, minus, not_above, over, plus, product,
    quotient, sqrt, sum, times,
};
use crate::single::{is_nan, negate, negated, INFINITE};
use crate::tangent::{cross, cross_product, dot, dot_product, length, triple};

verus! {

/// Points closer than this, `0.01` metres, are one.
pub const COMPACT_RADIUS_M: u32 = 0x3C23_D70A;

/// A point no farther outside a plane than this, `0.0001` metres, is inside.
pub const COMPACT_INSIDE_EPS_M: u32 = 0x38D1_B717;

/// With more planes than this, only the corners themselves are looked at.
pub const MAX_COMPACT_PLANES: usize = 256;

/// A face whose normal is no longer than this, `1e-10`, has no plane.
pub const NO_NORMAL: u32 = 0x2EDB_E6FF;

/// Planes are one where the cosine between them is greater than this, `0.9999`.
pub const COS_MERGE: u32 = 0x3F7F_F972;

/// Planes whose determinant is smaller than this, `1e-12`, meet in no point.
pub const NO_POINT: u32 = 0x2B8C_BCCC;

/// A plane `n * x + d = 0`; `n` has length one and points outwards.
#[derive(Debug, Clone, Copy)]
pub struct HullPlane {
    /// The direction.
    pub n: [u32; 3],
    /// The distance.
    pub d: u32,
}

/// A plane as a mathematical value.
#[verifier::ext_equal]
pub struct PlaneView {
    /// The direction.
    pub n: (u32, u32, u32),
    /// The distance.
    pub d: u32,
}

impl View for HullPlane {
    type V = PlaneView;

    open spec fn view(&self) -> PlaneView {
        PlaneView { n: triple(self.n), d: self.d }
    }
}

/// Planes as mathematical values.
pub open spec fn plane_views(s: Seq<HullPlane>) -> Seq<PlaneView> {
    Seq::new(s.len(), |i: int| s[i]@)
}

/// The faces of a hull name corners that exist.
pub open spec fn corners_exist(h: HullView) -> bool {
    forall|f: int|
        0 <= f < h.faces.len() ==> {
            &&& (#[trigger] h.faces[f])@[0] < h.vertices.len()
            &&& h.faces[f]@[1] < h.vertices.len()
            &&& h.faces[f]@[2] < h.vertices.len()
        }
}

/// How far a point is outside a plane.
pub open spec fn height(p: PlaneView, v: (u32, u32, u32)) -> u32 {
    sum(dot_product(p.n, v), p.d)
}

/// The greatest of the heights of the first `n` points.
pub open spec fn topmost(p: PlaneView, points: Seq<[u32; 3]>, n: int) -> u32
    decreases n,
{
    if n <= 0 {
        MINUS_INFINITE
    } else {
        let before = topmost(p, points, n - 1);
        let h = height(p, triple(points[n - 1]));
        if below(before, h) {
            h
        } else {
            before
        }
    }
}

/// The least of the heights of the first `n` points.
pub open spec fn bottommost(p: PlaneView, points: Seq<[u32; 3]>, n: int) -> u32
    decreases n,
{
    if n <= 0 {
        INFINITE
    } else {
        let before = bottommost(p, points, n - 1);
        let h = height(p, triple(points[n - 1]));
        if below(h, before) {
            h
        } else {
            before
        }
    }
}

/// The plane with its direction turned round.
pub open spec fn turned_plane(p: PlaneView) -> PlaneView {
    PlaneView { n: (negated(p.n.0), negated(p.n.1), negated(p.n.2)), d: negated(p.d) }
}

/// The plane of a face, with the points on its inner side.
pub open spec fn face_plane(points: Seq<[u32; 3]>, f: [u32; 3]) -> Option<PlaneView> {
    let a = points[f@[0] as int];
    let n = cross_product(way(a, points[f@[1] as int]), way(a, points[f@[2] as int]));
    let len = length(n);
    if is_nan(len) || at_most(len, NO_NORMAL) {
        None
    } else {
        let u = (quotient(n.0, len), quotient(n.1, len), quotient(n.2, len));
        let p = PlaneView { n: u, d: negated(dot_product(u, triple(a))) };
        let k = points.len() as int;
        if below(absolute(bottommost(p, points, k)), absolute(topmost(p, points, k))) {
            Some(turned_plane(p))
        } else {
            Some(p)
        }
    }
}

/// Two planes are nearly parallel.
pub open spec fn parallel(p: PlaneView, q: PlaneView) -> bool {
    below(COS_MERGE, dot_product(p.n, q.n))
}

/// One of the planes is nearly parallel to `p` and lies farther out.
pub open spec fn is_covered(list: Seq<PlaneView>, p: PlaneView) -> bool {
    exists|i: int|
        0 <= i < list.len() && parallel(#[trigger] list[i], p) && below(list[i].d, p.d)
}

/// The last item goes into the place of item `i`.
pub open spec fn swapped_out<A>(s: Seq<A>, i: int) -> Seq<A> {
    s.update(i, s.last()).drop_last()
}

/// The planes without those among the first `i` that are nearly parallel to `p`, taken out from the
/// last on.
pub open spec fn uncovered(list: Seq<PlaneView>, p: PlaneView, i: int) -> Seq<PlaneView>
    decreases i,
{
    if i <= 0 || i > list.len() {
        list
    } else if parallel(list[i - 1], p) {
        uncovered(swapped_out(list, i - 1), p, i - 1)
    } else {
        uncovered(list, p, i - 1)
    }
}

/// The planes of the first `n` faces; of nearly parallel ones the outermost.
pub open spec fn planes_of(h: HullView, n: int) -> Seq<PlaneView>
    decreases n,
{
    if n <= 0 {
        Seq::empty()
    } else {
        let list = planes_of(h, n - 1);
        match face_plane(h.vertices, h.faces[n - 1]) {
            None => list,
            Some(p) => if is_covered(list, p) {
                list
            } else {
                uncovered(list, p, list.len() as int).push(p)
            },
        }
    }
}

/// One number of the point on three planes.
pub open spec fn solved(
    a: PlaneView,
    b: PlaneView,
    c: PlaneView,
    x: u32,
    y: u32,
    z: u32,
    det: u32,
) -> u32 {
    quotient(
        difference(
            difference(product(negated(a.d), x), product(b.d, y)),
            product(c.d, z),
        ),
        det,
    )
}

/// The point on three planes, unless two of them are parallel.
pub open spec fn common_point(a: PlaneView, b: PlaneView, c: PlaneView) -> Option<
    (u32, u32, u32),
> {
    let x = cross_product(b.n, c.n);
    let y = cross_product(c.n, a.n);
    let z = cross_product(a.n, b.n);
    let det = dot_product(a.n, x);
    if below(absolute(det), NO_POINT) {
        None
    } else {
        Some(
            (
                solved(a, b, c, x.0, y.0, z.0, det),
                solved(a, b, c, x.1, y.1, z.1, det),
                solved(a, b, c, x.2, y.2, z.2, det),
            ),
        )
    }
}

/// A point is farther outside some plane than `eps`.
pub open spec fn is_outside(planes: Seq<PlaneView>, v: (u32, u32, u32), eps: u32) -> bool {
    exists|i: int| 0 <= i < planes.len() && below(eps, height(#[trigger] planes[i], v))
}

/// The square of the distance of two points.
pub open spec fn gap(a: (u32, u32, u32), b: (u32, u32, u32)) -> u32 {
    let d = (difference(a.0, b.0), difference(a.1, b.1), difference(a.2, b.2));
    dot_product(d, d)
}

/// A point is closer to one of the points than `r`.
pub open spec fn is_near(list: Seq<(u32, u32, u32)>, v: (u32, u32, u32), r: u32) -> bool {
    exists|i: int| 0 <= i < list.len() && below(gap(#[trigger] list[i], v), product(r, r))
}

/// The points with one more, unless one of them is near.
pub open spec fn with_point(list: Seq<(u32, u32, u32)>, v: (u32, u32, u32), r: u32) -> Seq<
    (u32, u32, u32),
> {
    if is_near(list, v, r) {
        list
    } else {
        list.push(v)
    }
}

/// The points with that of the planes `i`, `j` and `k`.
pub open spec fn with_corner(
    planes: Seq<PlaneView>,
    list: Seq<(u32, u32, u32)>,
    i: int,
    j: int,
    k: int,
    r: u32,
    eps: u32,
) -> Seq<(u32, u32, u32)> {
    match common_point(planes[i], planes[j], planes[k]) {
        None => list,
        Some(v) => if is_outside(planes, v, eps) {
            list
        } else {
            with_point(list, v, r)
        },
    }
}

/// The points with those of the planes `i` and `j` and each from `k` on.
pub open spec fn corners_of_two(
    planes: Seq<PlaneView>,
    list: Seq<(u32, u32, u32)>,
    i: int,
    j: int,
    k: int,
    r: u32,
    eps: u32,
) -> Seq<(u32, u32, u32)>
    decreases planes.len() - k,
{
    if k >= planes.len() {
        list
    } else {
        corners_of_two(planes, with_corner(planes, list, i, j, k, r, eps), i, j, k + 1, r, eps)
    }
}

/// The points with those of the plane `i` and each two from `j` on.
pub open spec fn corners_of_one(
    planes: Seq<PlaneView>,
    list: Seq<(u32, u32, u32)>,
    i: int,
    j: int,
    r: u32,
    eps: u32,
) -> Seq<(u32, u32, u32)>
    decreases planes.len() - j,
{
    if j >= planes.len() {
        list
    } else {
        corners_of_one(planes, corners_of_two(planes, list, i, j, j + 1, r, eps), i, j + 1, r, eps)
    }
}

/// The points with those of each three planes from `i` on.
pub open spec fn corners_of_all(
    planes: Seq<PlaneView>,
    list: Seq<(u32, u32, u32)>,
    i: int,
    r: u32,
    eps: u32,
) -> Seq<(u32, u32, u32)>
    decreases planes.len() - i,
{
    if i >= planes.len() {
        list
    } else {
        corners_of_all(planes, corners_of_one(planes, list, i, i + 1, r, eps), i + 1, r, eps)
    }
}

/// The first `n` points, of which near ones count as one.
pub open spec fn thinned(points: Seq<[u32; 3]>, n: int, r: u32) -> Seq<(u32, u32, u32)>
    decreases n,
{
    if n <= 0 {
        Seq::empty()
    } else {
        with_point(thinned(points, n - 1, r), triple(points[n - 1]), r)
    }
}

/// The corners of a hull, of which near ones count as one. Fewer than four planes or corners give
/// nothing.
pub open spec fn compacted(h: HullView) -> Option<Seq<(u32, u32, u32)>> {
    let r = quotient(COMPACT_RADIUS_M, SOURCE_TO_IVP);
    let eps = quotient(COMPACT_INSIDE_EPS_M, SOURCE_TO_IVP);
    let planes = planes_of(h, h.faces.len() as int);
    let list = if planes.len() <= MAX_COMPACT_PLANES {
        corners_of_all(planes, Seq::empty(), 0, r, eps)
    } else {
        thinned(h.vertices, h.vertices.len() as int, r)
    };
    if planes.len() < 4 || list.len() < 4 {
        None
    } else {
        Some(list)
    }
}

/// Points as mathematical values.
pub open spec fn triples(s: Seq<[u32; 3]>) -> Seq<(u32, u32, u32)> {
    Seq::new(s.len(), |i: int| triple(s[i]))
}

/// How far a point is outside a plane.
fn measure_height(p: HullPlane, v: [u32; 3]) -> (r: u32)
    ensures
        r == height(p@, triple(v)),
{
    plus(dot(p.n, v), p.d)
}

/// The plane of a face, with the points on its inner side.
fn find_plane(points: &Vec<[u32; 3]>, f: [u32; 3]) -> (r: Option<HullPlane>)
    requires
        f@[0] < points@.len() && f@[1] < points@.len() && f@[2] < points@.len(),
    ensures
        match r {
            Some(p) => face_plane(points@, f) == Some(p@),
            None => face_plane(points@, f) is None,
        },
{
    let a: [u32; 3] = points[f[0] as usize];
    let n: [u32; 3] = cross(go(a, points[f[1] as usize]), go(a, points[f[2] as usize]));
    let len: u32 = sqrt(dot(n, n));
    if len % 0x8000_0000 > INFINITE || not_above(len, NO_NORMAL) {
        return None;
    }
    let u: [u32; 3] = [over(n[0], len), over(n[1], len), over(n[2], len)];
    let p: HullPlane = HullPlane { n: u, d: negate(dot(u, a)) };
    let mut high: u32 = MINUS_INFINITE;
    let mut low: u32 = INFINITE;
    let mut i: usize = 0;
    while i < points.len()
        invariant
            i <= points@.len(),
            high == topmost(p@, points@, i as int),
            low == bottommost(p@, points@, i as int),
        decreases points@.len() - i,
    {
        let h: u32 = measure_height(p, points[i]);
        if less(high, h) {
            high = h;
        }
        if less(h, low) {
            low = h;
        }
        i = i + 1;
    }
    if less(abs(low), abs(high)) {
        let m: [u32; 3] = [negate(u[0]), negate(u[1]), negate(u[2])];
        Some(HullPlane { n: m, d: negate(p.d) })
    } else {
        Some(p)
    }
}

/// Tells whether two planes are nearly parallel.
fn are_parallel(p: HullPlane, q: HullPlane) -> (r: bool)
    ensures
        r == parallel(p@, q@),
{
    less(COS_MERGE, dot(p.n, q.n))
}

/// Tells whether one of the planes covers another.
fn covers(list: &Vec<HullPlane>, p: HullPlane) -> (r: bool)
    ensures
        r == is_covered(plane_views(list@), p@),
{
    let mut i: usize = 0;
    while i < list.len()
        invariant
            i <= list@.len(),
            forall|j: int|
                0 <= j < i ==> !(parallel(#[trigger] plane_views(list@)[j], p@) && below(
                    plane_views(list@)[j].d,
                    p@.d,
                )),
        decreases list@.len() - i,
    {
        assert(plane_views(list@)[i as int] == list@[i as int]@);
        if are_parallel(list[i], p) && less(list[i].d, p.d) {
            return true;
        }
        i = i + 1;
    }
    false
}

/// Takes out the planes that another covers.
fn uncover(list: &mut Vec<HullPlane>, p: HullPlane)
    ensures
        plane_views(final(list)@) == uncovered(
            plane_views(old(list)@),
            p@,
            old(list)@.len() as int,
        ),
{
    let mut i: usize = list.len();
    let ghost want = uncovered(plane_views(list@), p@, list@.len() as int);
    while i > 0
        invariant
            i <= list@.len(),
            want == uncovered(plane_views(list@), p@, i as int),
        decreases i,
    {
        let q: HullPlane = list[i - 1];
        assert(plane_views(list@)[i - 1] == q@);
        if are_parallel(q, p) {
            let ghost before = list@;
            list.swap_remove(i - 1);
            assert(plane_views(list@) =~= swapped_out(plane_views(before), i - 1));
        }
        i = i - 1;
    }
}

/// The planes of the faces of a hull; of nearly parallel ones the outermost.
pub fn hull_planes(h: &PhyHull) -> (r: Vec<HullPlane>)
    requires
        corners_exist(h@),
    ensures
        plane_views(r@) == planes_of(h@, h@.faces.len() as int),
{
    let mut out: Vec<HullPlane> = Vec::new();
    assert(plane_views(out@) =~= Seq::empty());
    let mut i: usize = 0;
    while i < h.faces.len()
        invariant
            i <= h.faces@.len(),
            corners_exist(h@),
            plane_views(out@) == planes_of(h@, i as int),
        decreases h.faces@.len() - i,
    {
        let ghost f = h@.faces[i as int];
        assert(f@[0] < h@.vertices.len());
        let ghost before = plane_views(out@);
        if let Some(p) = find_plane(&h.vertices, h.faces[i]) {
            if !covers(&out, p) {
                uncover(&mut out, p);
                let ghost kept = plane_views(out@);
                out.push(p);
                assert(plane_views(out@) =~= kept.push(p@));
            }
        }
        i = i + 1;
    }
    out
}

/// One number of the point on three planes.
fn solve_one(a: HullPlane, b: HullPlane, c: HullPlane, x: u32, y: u32, z: u32, det: u32) -> (r: u32)
    ensures
        r == solved(a@, b@, c@, x, y, z, det),
{
    over(minus(minus(times(negate(a.d), x), times(b.d, y)), times(c.d, z)), det)
}

/// The point on three planes, unless two of them are parallel.
pub fn solve_three_planes(a: HullPlane, b: HullPlane, c: HullPlane) -> (r: Option<[u32; 3]>)
    ensures
        match r {
            Some(v) => common_point(a@, b@, c@) == Some(triple(v)),
            None => common_point(a@, b@, c@) is None,
        },
{
    let x: [u32; 3] = cross(b.n, c.n);
    let y: [u32; 3] = cross(c.n, a.n);
    let z: [u32; 3] = cross(a.n, b.n);
    let det: u32 = dot(a.n, x);
    if less(abs(det), NO_POINT) {
        return None;
    }
    Some(
        [
            solve_one(a, b, c, x[0], y[0], z[0], det),
            solve_one(a, b, c, x[1], y[1], z[1], det),
            solve_one(a, b, c, x[2], y[2], z[2], det),
        ],
    )
}

/// Tells whether a point is farther outside some plane than `eps`.
fn lies_outside(planes: &Vec<HullPlane>, v: [u32; 3], eps: u32) -> (r: bool)
    ensures
        r == is_outside(plane_views(planes@), triple(v), eps),
{
    let mut i: usize = 0;
    while i < planes.len()
        invariant
            i <= planes@.len(),
            forall|j: int|
                0 <= j < i ==> !below(
                    eps,
                    height(#[trigger] plane_views(planes@)[j], triple(v)),
                ),
        decreases planes@.len() - i,
    {
        assert(plane_views(planes@)[i as int] == planes@[i as int]@);
        if less(eps, measure_height(planes[i], v)) {
            return true;
        }
        i = i + 1;
    }
    false
}

/// Adds a point, unless one is near.
pub fn push_unique(reps: &mut Vec<[u32; 3]>, p: [u32; 3], r: u32)
    ensures
        triples(final(reps)@) == with_point(triples(old(reps)@), triple(p), r),
{
    let square: u32 = times(r, r);
    let ghost start = triples(reps@);
    let mut i: usize = 0;
    while i < reps.len()
        invariant
            i <= reps@.len(),
            reps@ == old(reps)@,
            start == triples(reps@),
            square == product(r, r),
            forall|j: int|
                0 <= j < i ==> !below(gap(#[trigger] start[j], triple(p)), product(r, r)),
        decreases reps@.len() - i,
    {
        assert(start[i as int] == triple(reps@[i as int]));
        let q: [u32; 3] = reps[i];
        let d: [u32; 3] = [minus(q[0], p[0]), minus(q[1], p[1]), minus(q[2], p[2])];
        if less(dot(d, d), square) {
            return ;
        }
        i = i + 1;
    }
    reps.push(p);
    assert(triples(reps@) =~= start.push(triple(p)));
}

/// Adds the points of two planes and each from `j + 1` on.
fn add_corners_of_two(
    planes: &Vec<HullPlane>,
    reps: &mut Vec<[u32; 3]>,
    i: usize,
    j: usize,
    r: u32,
    eps: u32,
)
    requires
        i < planes@.len(),
        j < planes@.len(),
    ensures
        triples(final(reps)@) == corners_of_two(
            plane_views(planes@),
            triples(old(reps)@),
            i as int,
            j as int,
            j + 1,
            r,
            eps,
        ),
{
    let ghost ps = plane_views(planes@);
    let ghost want = corners_of_two(ps, triples(reps@), i as int, j as int, j + 1, r, eps);
    let total: usize = planes.len();
    assert(j < total);
    let mut k: usize = j + 1;
    while k < planes.len()
        invariant
            ps == plane_views(planes@),
            i < planes@.len(),
            j < planes@.len(),
            k <= planes@.len(),
            want == corners_of_two(ps, triples(reps@), i as int, j as int, k as int, r, eps),
        decreases planes@.len() - k,
    {
        assert(ps[i as int] == planes@[i as int]@);
        assert(ps[j as int] == planes@[j as int]@);
        assert(ps[k as int] == planes@[k as int]@);
        if let Some(v) = solve_three_planes(planes[i], planes[j], planes[k]) {
            if !lies_outside(planes, v, eps) {
                push_unique(reps, v, r);
            }
        }
        k = k + 1;
    }
}

/// Adds the points of a plane and each two behind it.
fn add_corners_of_one(
    planes: &Vec<HullPlane>,
    reps: &mut Vec<[u32; 3]>,
    i: usize,
    r: u32,
    eps: u32,
)
    requires
        i < planes@.len(),
    ensures
        triples(final(reps)@) == corners_of_one(
            plane_views(planes@),
            triples(old(reps)@),
            i as int,
            i + 1,
            r,
            eps,
        ),
{
    let ghost ps = plane_views(planes@);
    let ghost want = corners_of_one(ps, triples(reps@), i as int, i + 1, r, eps);
    let total: usize = planes.len();
    assert(i < total);
    let mut j: usize = i + 1;
    while j < planes.len()
        invariant
            ps == plane_views(planes@),
            i < planes@.len(),
            j <= planes@.len(),
            want == corners_of_one(ps, triples(reps@), i as int, j as int, r, eps),
        decreases planes@.len() - j,
    {
        add_corners_of_two(planes, reps, i, j, r, eps);
        j = j + 1;
    }
}

/// The points of each three planes, of which near ones count as one.
fn list_corners(planes: &Vec<HullPlane>, r: u32, eps: u32) -> (out: Vec<[u32; 3]>)
    ensures
        triples(out@) == corners_of_all(plane_views(planes@), Seq::empty(), 0, r, eps),
{
    let mut reps: Vec<[u32; 3]> = Vec::new();
    assert(triples(reps@) =~= Seq::empty());
    let ghost ps = plane_views(planes@);
    let ghost want = corners_of_all(ps, Seq::empty(), 0, r, eps);
    let mut i: usize = 0;
    while i < planes.len()
        invariant
            ps == plane_views(planes@),
            i <= planes@.len(),
            want == corners_of_all(ps, triples(reps@), i as int, r, eps),
        decreases planes@.len() - i,
    {
        add_corners_of_one(planes, &mut reps, i, r, eps);
        i = i + 1;
    }
    reps
}

/// Points of which near ones count as one.
fn thin(points: &Vec<[u32; 3]>, r: u32) -> (out: Vec<[u32; 3]>)
    ensures
        triples(out@) == thinned(points@, points@.len() as int, r),
{
    let mut reps: Vec<[u32; 3]> = Vec::new();
    assert(triples(reps@) =~= Seq::empty());
    let mut i: usize = 0;
    while i < points.len()
        invariant
            i <= points@.len(),
            triples(reps@) == thinned(points@, i as int, r),
        decreases points@.len() - i,
    {
        push_unique(&mut reps, points[i], r);
        i = i + 1;
    }
    reps
}

/// The corners of a hull, of which near ones count as one. The compact hull is the one around them;
/// where there are fewer than four planes or corners, the hull stays what it is.
pub fn compact_corners(h: &PhyHull) -> (r: Option<Vec<[u32; 3]>>)
    requires
        corners_exist(h@),
    ensures
        match r {
            Some(list) => compacted(h@) == Some(triples(list@)),
            None => compacted(h@) is None,
        },
{
    let radius: u32 = over(COMPACT_RADIUS_M, SOURCE_TO_IVP);
    let eps: u32 = over(COMPACT_INSIDE_EPS_M, SOURCE_TO_IVP);
    let planes: Vec<HullPlane> = hull_planes(h);
    assert(plane_views(planes@).len() == planes@.len());
    if planes.len() < 4 {
        return None;
    }
    let list: Vec<[u32; 3]> = if planes.len() <= MAX_COMPACT_PLANES {
        list_corners(&planes, radius, eps)
    } else {
        thin(&h.vertices, radius)
    };
    assert(triples(list@).len() == list@.len());
    if list.len() < 4 {
        return None;
    }
    Some(list)
}

/// No two of the points are closer than `r`.
pub open spec fn all_apart(list: Seq<(u32, u32, u32)>, r: u32) -> bool {
    forall|i: int, j: int|
        0 <= i < j < list.len() ==> !below(gap(#[trigger] list[i], #[trigger] list[j]), product(r, r))
}

proof fn corner_stays_apart(
    planes: Seq<PlaneView>,
    list: Seq<(u32, u32, u32)>,
    i: int,
    j: int,
    k: int,
    r: u32,
    eps: u32,
)
    requires
        all_apart(list, r),
    ensures
        all_apart(corners_of_two(planes, list, i, j, k, r, eps), r),
    decreases planes.len() - k,
{
    if k < planes.len() {
        let next = with_corner(planes, list, i, j, k, r, eps);
        assert(all_apart(next, r));
        corner_stays_apart(planes, next, i, j, k + 1, r, eps);
    }
}

proof fn plane_stays_apart(
    planes: Seq<PlaneView>,
    list: Seq<(u32, u32, u32)>,
    i: int,
    j: int,
    r: u32,
    eps: u32,
)
    requires
        all_apart(list, r),
    ensures
        all_apart(corners_of_one(planes, list, i, j, r, eps), r),
    decreases planes.len() - j,
{
    if j < planes.len() {
        corner_stays_apart(planes, list, i, j, j + 1, r, eps);
        plane_stays_apart(
            planes,
            corners_of_two(planes, list, i, j, j + 1, r, eps),
            i,
            j + 1,
            r,
            eps,
        );
    }
}

proof fn planes_stay_apart(
    planes: Seq<PlaneView>,
    list: Seq<(u32, u32, u32)>,
    i: int,
    r: u32,
    eps: u32,
)
    requires
        all_apart(list, r),
    ensures
        all_apart(corners_of_all(planes, list, i, r, eps), r),
    decreases planes.len() - i,
{
    if i < planes.len() {
        plane_stays_apart(planes, list, i, i + 1, r, eps);
        planes_stay_apart(planes, corners_of_one(planes, list, i, i + 1, r, eps), i + 1, r, eps);
    }
}

proof fn thinned_stay_apart(points: Seq<[u32; 3]>, n: int, r: u32)
    ensures
        all_apart(thinned(points, n, r), r),
    decreases n,
{
    if n > 0 {
        thinned_stay_apart(points, n - 1, r);
    }
}

/// No two corners of a compact hull are closer than the radius within which points are one.
pub proof fn compact_corners_are_apart(h: HullView)
    ensures
        match compacted(h) {
            Some(list) => all_apart(list, quotient(COMPACT_RADIUS_M, SOURCE_TO_IVP)),
            None => true,
        },
{
    let r = quotient(COMPACT_RADIUS_M, SOURCE_TO_IVP);
    let eps = quotient(COMPACT_INSIDE_EPS_M, SOURCE_TO_IVP);
    planes_stay_apart(planes_of(h, h.faces.len() as int), Seq::empty(), 0, r, eps);
    thinned_stay_apart(h.vertices, h.vertices.len() as int, r);
}

} // verus!
