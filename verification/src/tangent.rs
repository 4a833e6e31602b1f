//! Tangents of a mesh, for normal maps. All numbers are held as bit patterns.
use vstd::prelude::*;

use crate::arith::{
    abs, absolute, below, difference, is_infinite, is_zero, less, minus, over, plus, product,
    quotient, root, sqrt, sum, times, zero_plus_zero, zero_times_anything,
};
use crate::single::{are_equal, equal, is_nan, negate, negated, ONE};

verus! {

/// A triangle whose texture area is no greater than this (`1e-12`) gives no direction.
pub const SMALL_FLOAT: u32 = 0x2B8C_BCCC;

/// The number minus one.
pub const MINUS_ONE: u32 = 0xBF80_0000;

/// The number `0.9`.
pub const NEARLY_ONE: u32 = 0x3F66_6666;

/// A vertex of a mesh.
#[derive(Debug, Clone, Copy)]
pub struct Vertex {
    /// The position.
    pub pos: [u32; 3],
    /// The normal.
    pub normal: [u32; 3],
    /// The place on the texture.
    pub uv: [u32; 2],
}

/// A tangent as a vertex file holds it.
#[derive(Debug, Clone, Copy)]
pub struct VvdTangent {
    /// The direction.
    pub xyz: [u32; 3],
    /// The handedness: one or minus one.
    pub w: u32,
}

/// The three numbers of a vector.
pub open spec fn triple(v: [u32; 3]) -> (u32, u32, u32) {
    (v[0], v[1], v[2])
}

/// The two numbers of a place on a texture.
pub open spec fn pair(v: [u32; 2]) -> (u32, u32) {
    (v[0], v[1])
}

/// The cross product.
pub open spec fn cross_product(a: (u32, u32, u32), b: (u32, u32, u32)) -> (u32, u32, u32) {
    (
        difference(product(a.1, b.2), product(a.2, b.1)),
        difference(product(a.2, b.0), product(a.0, b.2)),
        difference(product(a.0, b.1), product(a.1, b.0)),
    )
}

/// The dot product.
pub open spec fn dot_product(a: (u32, u32, u32), b: (u32, u32, u32)) -> u32 {
    sum(sum(product(a.0, b.0), product(a.1, b.1)), product(a.2, b.2))
}

/// The length of a vector.
pub open spec fn length(v: (u32, u32, u32)) -> u32 {
    root(dot_product(v, v))
}

/// The vector of length one in the same direction; a vector of length zero stays what it is.
pub open spec fn unit(v: (u32, u32, u32)) -> (u32, u32, u32) {
    let len = length(v);
    if are_equal(len, 0) {
        v
    } else {
        (quotient(v.0, len), quotient(v.1, len), quotient(v.2, len))
    }
}

/// The sum of two vectors.
pub open spec fn vector_sum(a: (u32, u32, u32), b: (u32, u32, u32)) -> (u32, u32, u32) {
    (sum(a.0, b.0), sum(a.1, b.1), sum(a.2, b.2))
}

/// How a position changes along the two directions of the texture, for one axis.
pub open spec fn slopes(
    p: (u32, u32, u32),
    t0: (u32, u32),
    t1: (u32, u32),
    t2: (u32, u32),
) -> (u32, u32) {
    let c = cross_product(
        (difference(p.1, p.0), difference(t1.0, t0.0), difference(t1.1, t0.1)),
        (difference(p.2, p.0), difference(t2.0, t0.0), difference(t2.1, t0.1)),
    );
    if below(SMALL_FLOAT, absolute(c.0)) {
        (sum(0, quotient(negated(c.1), c.0)), sum(0, quotient(negated(c.2), c.0)))
    } else {
        (0, 0)
    }
}

/// The two directions of the texture on a triangle, each of length one.
pub open spec fn directions(
    p0: (u32, u32, u32),
    p1: (u32, u32, u32),
    p2: (u32, u32, u32),
    t0: (u32, u32),
    t1: (u32, u32),
    t2: (u32, u32),
) -> ((u32, u32, u32), (u32, u32, u32)) {
    let x = slopes((p0.0, p1.0, p2.0), t0, t1, t2);
    let y = slopes((p0.1, p1.1, p2.1), t0, t1, t2);
    let z = slopes((p0.2, p1.2, p2.2), t0, t1, t2);
    (unit((x.0, y.0, z.0)), unit((x.1, y.1, z.1)))
}

/// The two directions turn the other way round about the normal.
pub open spec fn left_handed(
    s: (u32, u32, u32),
    t: (u32, u32, u32),
    normal: (u32, u32, u32),
) -> bool {
    below(dot_product(cross_product(s, t), normal), 0)
}

/// The tangent across a normal, and its handedness.
pub open spec fn upright(
    s: (u32, u32, u32),
    t: (u32, u32, u32),
    normal: (u32, u32, u32),
) -> ((u32, u32, u32), u32) {
    if left_handed(s, t, normal) {
        (unit(cross_product(normal, cross_product(s, normal))), MINUS_ONE)
    } else {
        (unit(cross_product(cross_product(normal, s), normal)), ONE)
    }
}

/// The cross product.
pub fn cross(a: [u32; 3], b: [u32; 3]) -> (r: [u32; 3])
    ensures
        triple(r) == cross_product(triple(a), triple(b)),
{
    [
        minus(times(a[1], b[2]), times(a[2], b[1])),
        minus(times(a[2], b[0]), times(a[0], b[2])),
        minus(times(a[0], b[1]), times(a[1], b[0])),
    ]
}

/// The dot product.
pub fn dot(a: [u32; 3], b: [u32; 3]) -> (r: u32)
    ensures
        r == dot_product(triple(a), triple(b)),
{
    plus(plus(times(a[0], b[0]), times(a[1], b[1])), times(a[2], b[2]))
}

/// Gives a vector the length one and returns its length; a vector of length zero stays what it
/// is.
fn normalize(v: &mut [u32; 3]) -> (r: u32)
    ensures
        r == length(triple(*old(v))),
        triple(*final(v)) == unit(triple(*old(v))),
{
    let w: [u32; 3] = *v;
    let len: u32 = sqrt(dot(w, w));
    if !equal(len, 0) {
        *v = [over(w[0], len), over(w[1], len), over(w[2], len)];
    }
    len
}

/// How a position changes along the two directions of the texture, for one axis.
fn axis_slopes(p: [u32; 3], t0: [u32; 2], t1: [u32; 2], t2: [u32; 2]) -> (r: (u32, u32))
    ensures
        r == slopes(triple(p), pair(t0), pair(t1), pair(t2)),
{
    let e01: [u32; 3] = [minus(p[1], p[0]), minus(t1[0], t0[0]), minus(t1[1], t0[1])];
    let e02: [u32; 3] = [minus(p[2], p[0]), minus(t2[0], t0[0]), minus(t2[1], t0[1])];
    let c: [u32; 3] = cross(e01, e02);
    if less(SMALL_FLOAT, abs(c[0])) {
        (plus(0, over(negate(c[1]), c[0])), plus(0, over(negate(c[2]), c[0])))
    } else {
        (0, 0)
    }
}

/// The two directions of the texture on a triangle, each of length one. A triangle without area
/// on the texture gives two zero vectors.
pub fn triangle_tangent_space(
    p0: [u32; 3],
    p1: [u32; 3],
    p2: [u32; 3],
    t0: [u32; 2],
    t1: [u32; 2],
    t2: [u32; 2],
) -> (r: ([u32; 3], [u32; 3]))
    ensures
        (triple(r.0), triple(r.1)) == directions(
            triple(p0),
            triple(p1),
            triple(p2),
            pair(t0),
            pair(t1),
            pair(t2),
        ),
{
    let x: (u32, u32) = axis_slopes([p0[0], p1[0], p2[0]], t0, t1, t2);
    let y: (u32, u32) = axis_slopes([p0[1], p1[1], p2[1]], t0, t1, t2);
    let z: (u32, u32) = axis_slopes([p0[2], p1[2], p2[2]], t0, t1, t2);
    let mut s: [u32; 3] = [x.0, y.0, z.0];
    let mut t: [u32; 3] = [x.1, y.1, z.1];
    normalize(&mut s);
    normalize(&mut t);
    (s, t)
}

/// The tangent of a vertex, from the sums of the directions of its triangles.
pub fn orthonormalize(acc_s: [u32; 3], acc_t: [u32; 3], normal: [u32; 3]) -> (r: VvdTangent)
    ensures
        (triple(r.xyz), r.w) == upright(triple(acc_s), triple(acc_t), triple(normal)),
{
    let tmp: [u32; 3] = cross(acc_s, acc_t);
    if less(dot(tmp, normal), 0) {
        let t: [u32; 3] = cross(acc_s, normal);
        let mut s: [u32; 3] = cross(normal, t);
        normalize(&mut s);
        VvdTangent { xyz: s, w: MINUS_ONE }
    } else {
        let t: [u32; 3] = cross(normal, acc_s);
        let mut s: [u32; 3] = cross(t, normal);
        normalize(&mut s);
        VvdTangent { xyz: s, w: ONE }
    }
}

/// The corners of a triangle are vertices.
pub open spec fn in_range(tri: [u32; 3], count: nat) -> bool {
    tri[0] < count && tri[1] < count && tri[2] < count
}

/// The two directions of the texture on a triangle of a mesh.
pub open spec fn triangle_directions(v: Seq<Vertex>, tri: [u32; 3]) -> (
    (u32, u32, u32),
    (u32, u32, u32),
) {
    directions(
        triple(v[tri[0] as int].pos),
        triple(v[tri[1] as int].pos),
        triple(v[tri[2] as int].pos),
        pair(v[tri[0] as int].uv),
        pair(v[tri[1] as int].uv),
        pair(v[tri[2] as int].uv),
    )
}

/// The sums of a vertex after one more corner, which adds to them where it is that vertex.
pub open spec fn corner_added(
    acc: ((u32, u32, u32), (u32, u32, u32)),
    d: ((u32, u32, u32), (u32, u32, u32)),
    corner: u32,
    k: int,
) -> ((u32, u32, u32), (u32, u32, u32)) {
    if corner == k {
        (vector_sum(acc.0, d.0), vector_sum(acc.1, d.1))
    } else {
        acc
    }
}

/// The sums of a vertex after one more triangle; a triangle out of range adds nothing.
pub open spec fn triangle_added(
    acc: ((u32, u32, u32), (u32, u32, u32)),
    v: Seq<Vertex>,
    tri: [u32; 3],
    k: int,
) -> ((u32, u32, u32), (u32, u32, u32)) {
    let d = triangle_directions(v, tri);
    if in_range(tri, v.len()) {
        corner_added(corner_added(corner_added(acc, d, tri[0], k), d, tri[1], k), d, tri[2], k)
    } else {
        acc
    }
}

/// The sums of the directions of the triangles at vertex `k`, in order.
pub open spec fn gathered(v: Seq<Vertex>, tris: Seq<[u32; 3]>, k: int) -> (
    (u32, u32, u32),
    (u32, u32, u32),
)
    decreases tris.len(),
{
    if tris.len() == 0 {
        ((0, 0, 0), (0, 0, 0))
    } else {
        triangle_added(gathered(v, tris.drop_last(), k), v, tris.last(), k)
    }
}

/// The tangent of vertex `k`, and its handedness.
pub open spec fn vertex_tangent(v: Seq<Vertex>, tris: Seq<[u32; 3]>, k: int) -> (
    (u32, u32, u32),
    u32,
) {
    let acc = gathered(v, tris, k);
    upright(acc.0, acc.1, triple(v[k].normal))
}

/// Adds the directions of a triangle to the sums of one of its corners.
fn add_corner(acc: &mut Vec<([u32; 3], [u32; 3])>, s: [u32; 3], t: [u32; 3], corner: u32)
    requires
        corner < old(acc)@.len(),
    ensures
        final(acc)@.len() == old(acc)@.len(),
        forall|k: int|
            0 <= k < old(acc)@.len() ==> sums(#[trigger] final(acc)@[k]) == corner_added(
                sums(old(acc)@[k]),
                (triple(s), triple(t)),
                corner,
                k,
            ),
{
    let i: usize = corner as usize;
    let (a, b): ([u32; 3], [u32; 3]) = acc[i];
    let c: [u32; 3] = [plus(a[0], s[0]), plus(a[1], s[1]), plus(a[2], s[2])];
    let d: [u32; 3] = [plus(b[0], t[0]), plus(b[1], t[1]), plus(b[2], t[2])];
    acc.set(i, (c, d));
}

/// The sums of a vertex.
pub open spec fn sums(a: ([u32; 3], [u32; 3])) -> ((u32, u32, u32), (u32, u32, u32)) {
    (triple(a.0), triple(a.1))
}

/// Adds the directions of a triangle to the sums of its corners.
fn add_triangle(acc: &mut Vec<([u32; 3], [u32; 3])>, vertices: &Vec<Vertex>, tri: [u32; 3])
    requires
        old(acc)@.len() == vertices@.len(),
    ensures
        final(acc)@.len() == vertices@.len(),
        forall|k: int|
            0 <= k < vertices@.len() ==> sums(#[trigger] final(acc)@[k]) == triangle_added(
                sums(old(acc)@[k]),
                vertices@,
                tri,
                k,
            ),
{
    let n: usize = vertices.len();
    if (tri[0] as usize) < n && (tri[1] as usize) < n && (tri[2] as usize) < n {
        let v0: Vertex = vertices[tri[0] as usize];
        let v1: Vertex = vertices[tri[1] as usize];
        let v2: Vertex = vertices[tri[2] as usize];
        let (s, t): ([u32; 3], [u32; 3]) = triangle_tangent_space(
            v0.pos,
            v1.pos,
            v2.pos,
            v0.uv,
            v1.uv,
            v2.uv,
        );
        add_corner(acc, s, t, tri[0]);
        let ghost one = acc@;
        add_corner(acc, s, t, tri[1]);
        let ghost two = acc@;
        add_corner(acc, s, t, tri[2]);
        assert forall|k: int| 0 <= k < vertices@.len() implies sums(#[trigger] acc@[k])
            == triangle_added(sums(old(acc)@[k]), vertices@, tri, k) by {
            let x = one[k];
            let y = two[k];
        }
    }
}

/// The sums of the directions of the triangles at each vertex.
fn gather(vertices: &Vec<Vertex>, triangles: &Vec<[u32; 3]>) -> (r: Vec<([u32; 3], [u32; 3])>)
    ensures
        r@.len() == vertices@.len(),
        forall|k: int|
            0 <= k < r@.len() ==> sums(#[trigger] r@[k]) == gathered(
                vertices@,
                triangles@,
                k,
            ),
{
    let mut acc: Vec<([u32; 3], [u32; 3])> = Vec::new();
    let mut i: usize = 0;
    while i < vertices.len()
        invariant
            i <= vertices@.len(),
            acc@.len() == i,
            forall|k: int|
                0 <= k < i ==> sums(#[trigger] acc@[k]) == gathered(
                    vertices@,
                    triangles@.take(0),
                    k,
                ),
        decreases vertices@.len() - i,
    {
        acc.push(([0, 0, 0], [0, 0, 0]));
        i = i + 1;
    }
    let mut j: usize = 0;
    while j < triangles.len()
        invariant
            j <= triangles@.len(),
            acc@.len() == vertices@.len(),
            forall|k: int|
                0 <= k < acc@.len() ==> sums(#[trigger] acc@[k]) == gathered(
                    vertices@,
                    triangles@.take(j as int),
                    k,
                ),
        decreases triangles@.len() - j,
    {
        let ghost before = acc@;
        add_triangle(&mut acc, vertices, triangles[j]);
        j = j + 1;
        assert(triangles@.take(j as int).drop_last() =~= triangles@.take(j - 1));
        assert forall|k: int| 0 <= k < acc@.len() implies sums(#[trigger] acc@[k]) == gathered(
            vertices@,
            triangles@.take(j as int),
            k,
        ) by {
            let x = before[k];
        }
    }
    assert(triangles@.take(j as int) =~= triangles@);
    acc
}

/// The tangent of each vertex of a mesh. A triangle that names a vertex that does not exist is
/// passed over.
pub fn tangents_for_mesh(vertices: &Vec<Vertex>, triangles: &Vec<[u32; 3]>) -> (r: Vec<VvdTangent>)
    ensures
        r@.len() == vertices@.len(),
        forall|k: int|
            0 <= k < r@.len() ==> told(#[trigger] r@[k]) == vertex_tangent(
                vertices@,
                triangles@,
                k,
            ),
{
    let acc: Vec<([u32; 3], [u32; 3])> = gather(vertices, triangles);
    let mut out: Vec<VvdTangent> = Vec::new();
    let mut i: usize = 0;
    while i < vertices.len()
        invariant
            i <= vertices@.len(),
            acc@.len() == vertices@.len(),
            out@.len() == i,
            forall|k: int|
                0 <= k < acc@.len() ==> sums(#[trigger] acc@[k]) == gathered(
                    vertices@,
                    triangles@,
                    k,
                ),
            forall|k: int|
                0 <= k < i ==> told(#[trigger] out@[k]) == vertex_tangent(
                    vertices@,
                    triangles@,
                    k,
                ),
        decreases vertices@.len() - i,
    {
        assert(sums(acc@[i as int]) == gathered(vertices@, triangles@, i as int));
        let t: VvdTangent = orthonormalize(acc[i].0, acc[i].1, vertices[i].normal);
        out.push(t);
        i = i + 1;
    }
    out
}

/// A tangent as a mathematical value.
pub open spec fn told(t: VvdTangent) -> ((u32, u32, u32), u32) {
    (triple(t.xyz), t.w)
}

/// The tangent for a vertex that has only a normal: across the normal and the axis that is
/// farther from it.
pub open spec fn fallback(normal: (u32, u32, u32)) -> ((u32, u32, u32), u32) {
    let n = unit(normal);
    if are_equal(length(normal), 0) {
        ((ONE, 0, 0), ONE)
    } else if below(absolute(n.0), NEARLY_ONE) {
        (unit(cross_product((ONE, 0, 0), n)), ONE)
    } else {
        (unit(cross_product((0, ONE, 0), n)), ONE)
    }
}

/// The tangent for a vertex that has only a normal.
pub fn fallback_tangent_from_normal(normal: [u32; 3]) -> (r: VvdTangent)
    ensures
        told(r) == fallback(triple(normal)),
{
    let mut n: [u32; 3] = normal;
    let len: u32 = normalize(&mut n);
    if equal(len, 0) {
        return VvdTangent { xyz: [ONE, 0, 0], w: ONE };
    }
    let axis: [u32; 3] = if less(abs(n[0]), NEARLY_ONE) {
        [ONE, 0, 0]
    } else {
        [0, ONE, 0]
    };
    let mut t: [u32; 3] = cross(axis, n);
    normalize(&mut t);
    VvdTangent { xyz: t, w: ONE }
}

/// All three numbers are zero.
pub open spec fn no_direction(v: (u32, u32, u32)) -> bool {
    are_equal(v.0, 0) && are_equal(v.1, 0) && are_equal(v.2, 0)
}

/// The tangent of each vertex of a mesh; where it would be zero, one that follows from the
/// normal.
pub fn tangents_for_mesh_with_fallback(vertices: &Vec<Vertex>, triangles: &Vec<[u32; 3]>) -> (r:
    Vec<VvdTangent>)
    ensures
        r@.len() == vertices@.len(),
        forall|k: int|
            0 <= k < r@.len() ==> told(#[trigger] r@[k]) == (if no_direction(
                vertex_tangent(vertices@, triangles@, k).0,
            ) {
                fallback(triple(vertices@[k].normal))
            } else {
                vertex_tangent(vertices@, triangles@, k)
            }),
{
    let plain: Vec<VvdTangent> = tangents_for_mesh(vertices, triangles);
    let mut out: Vec<VvdTangent> = Vec::new();
    let mut i: usize = 0;
    while i < plain.len()
        invariant
            i <= plain@.len(),
            plain@.len() == vertices@.len(),
            out@.len() == i,
            forall|k: int|
                0 <= k < plain@.len() ==> told(#[trigger] plain@[k]) == vertex_tangent(
                    vertices@,
                    triangles@,
                    k,
                ),
            forall|k: int|
                0 <= k < i ==> told(#[trigger] out@[k]) == (if no_direction(
                    vertex_tangent(vertices@, triangles@, k).0,
                ) {
                    fallback(triple(vertices@[k].normal))
                } else {
                    vertex_tangent(vertices@, triangles@, k)
                }),
        decreases plain@.len() - i,
    {
        let t: VvdTangent = plain[i];
        assert(told(plain@[i as int]) == vertex_tangent(vertices@, triangles@, i as int));
        if equal(t.xyz[0], 0) && equal(t.xyz[1], 0) && equal(t.xyz[2], 0) {
            out.push(fallback_tangent_from_normal(vertices[i].normal));
        } else {
            out.push(t);
        }
        i = i + 1;
    }
    out
}

/// All three numbers are zeros.
spec fn zeros(v: (u32, u32, u32)) -> bool {
    is_zero(v.0) && is_zero(v.1) && is_zero(v.2)
}

/// All three numbers are finite.
pub open spec fn all_finite(v: (u32, u32, u32)) -> bool {
    &&& !is_nan(v.0) && !is_infinite(v.0)
    &&& !is_nan(v.1) && !is_infinite(v.1)
    &&& !is_nan(v.2) && !is_infinite(v.2)
}

/// A difference of products of which each has a zero is zero.
proof fn minor_of_zeros(a: u32, b: u32, c: u32, d: u32)
    requires
        is_zero(a) && is_zero(c) || is_zero(b) && is_zero(d),
        !is_nan(a) && !is_infinite(a),
        !is_nan(b) && !is_infinite(b),
        !is_nan(c) && !is_infinite(c),
        !is_nan(d) && !is_infinite(d),
    ensures
        is_zero(difference(product(a, b), product(c, d))),
{
    zero_times_anything(a, b);
    zero_times_anything(c, d);
    zero_plus_zero(product(a, b), negated(product(c, d)));
}

proof fn cross_of_zeros(a: (u32, u32, u32), b: (u32, u32, u32))
    requires
        zeros(a) || zeros(b),
        all_finite(a),
        all_finite(b),
    ensures
        zeros(cross_product(a, b)),
{
    minor_of_zeros(a.1, b.2, a.2, b.1);
    minor_of_zeros(a.2, b.0, a.0, b.2);
    minor_of_zeros(a.0, b.1, a.1, b.0);
}

proof fn dot_of_zeros(a: (u32, u32, u32), b: (u32, u32, u32))
    requires
        zeros(a),
        all_finite(b),
    ensures
        is_zero(dot_product(a, b)),
{
    zero_times_anything(a.0, b.0);
    zero_times_anything(a.1, b.1);
    zero_times_anything(a.2, b.2);
    zero_plus_zero(product(a.0, b.0), product(a.1, b.1));
    zero_plus_zero(sum(product(a.0, b.0), product(a.1, b.1)), product(a.2, b.2));
}

proof fn unit_of_zeros(v: (u32, u32, u32))
    requires
        zeros(v),
    ensures
        unit(v) == v,
{
    dot_of_zeros(v, v);
    reveal(root);
}

/// A triangle of a mesh has no area on the texture.
pub open spec fn is_flat(v: Seq<Vertex>, tri: [u32; 3]) -> bool {
    let t0 = pair(v[tri[0] as int].uv);
    let t1 = pair(v[tri[1] as int].uv);
    let t2 = pair(v[tri[2] as int].uv);
    !below(
        SMALL_FLOAT,
        absolute(
            difference(
                product(difference(t1.0, t0.0), difference(t2.1, t0.1)),
                product(difference(t1.1, t0.1), difference(t2.0, t0.0)),
            ),
        ),
    )
}

/// A triangle out of range, one that is elsewhere and one without area all add nothing to the
/// sums of a vertex.
proof fn nothing_gathered(v: Seq<Vertex>, tris: Seq<[u32; 3]>, k: int)
    requires
        forall|i: int| 0 <= i < tris.len() ==> adds_nothing(v, #[trigger] tris[i], k),
    ensures
        gathered(v, tris, k) == ((0u32, 0u32, 0u32), (0u32, 0u32, 0u32)),
    decreases tris.len(),
{
    if tris.len() > 0 {
        let tri = tris.last();
        assert(adds_nothing(v, tris[tris.len() - 1], k));
        assert forall|i: int| 0 <= i < tris.drop_last().len() implies adds_nothing(
            v,
            #[trigger] tris.drop_last()[i],
            k,
        ) by {
            assert(adds_nothing(v, tris[i], k));
        }
        nothing_gathered(v, tris.drop_last(), k);
        if is_flat(v, tri) {
            unit_of_zeros((0, 0, 0));
            zero_plus_zero(0, 0);
        }
    }
}

/// A triangle adds nothing to the sums of vertex `k`.
pub open spec fn adds_nothing(v: Seq<Vertex>, tri: [u32; 3], k: int) -> bool {
    ||| !in_range(tri, v.len())
    ||| tri[0] != k && tri[1] != k && tri[2] != k
    ||| is_flat(v, tri)
}

/// A vertex of which every triangle is without area on the texture, or that is in no triangle at
/// all, has the tangent zero and the handedness one.
pub proof fn flat_triangles_give_no_tangent(v: Seq<Vertex>, tris: Seq<[u32; 3]>, k: int)
    requires
        0 <= k < v.len(),
        all_finite(triple(v[k].normal)),
        forall|i: int| 0 <= i < tris.len() ==> adds_nothing(v, #[trigger] tris[i], k),
    ensures
        no_direction(vertex_tangent(v, tris, k).0),
        vertex_tangent(v, tris, k).1 == ONE,
{
    nothing_gathered(v, tris, k);
    let n = triple(v[k].normal);
    let z = (0u32, 0u32, 0u32);
    cross_of_zeros(z, z);
    dot_of_zeros(cross_product(z, z), n);
    cross_of_zeros(n, z);
    cross_of_zeros(cross_product(n, z), n);
    unit_of_zeros(cross_product(cross_product(n, z), n));
}

} // verus!
