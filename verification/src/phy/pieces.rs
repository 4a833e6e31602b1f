//! Taking a concave mesh apart: which vertices are one, which parts are flat, and which parts the
//! mesh has.
use vstd::prelude::*;

use super::parts::{
    agrees, connected_parts, faces_exist, is_one_piece, lists, mark_connected_meshes, parts_from,
    MAX_CONVEX_PIECES,
};
use crate::arith::{abs, absolute, below, difference, less, minus, sqrt};
use crate::single::{are_equal, equal};
use crate::tangent::{cross, cross_product, dot, dot_product, length, triple};
use crate::text::{decimal, push_decimal};

verus! {

/// Normals closer than two degrees are one: the cosine of that angle.
pub const NORMAL_BLEND: u32 = 0x3F7F_D814;

/// A length up to which a vector counts as none, `0.001`.
pub const SHORT: u32 = 0x3A83_126F;

/// A part no thicker than this, `0.5`, is flat.
pub const FLAT: u32 = 0x3F00_0000;

/// Two points are in one place.
pub open spec fn one_place(a: [u32; 3], b: [u32; 3]) -> bool {
    are_equal(a@[0], b@[0]) && are_equal(a@[1], b@[1]) && are_equal(a@[2], b@[2])
}

/// Vertices `i` and `j` are in one place, and their normals are one.
pub open spec fn welds(points: Seq<[u32; 3]>, normals: Seq<[u32; 3]>, i: int, j: int) -> bool {
    &&& one_place(points[i], points[j])
    &&& below(NORMAL_BLEND, dot_product(triple(normals[i]), triple(normals[j])))
}

/// The first vertex from `j` on that vertex `i` is one with; `i` itself where there is none before
/// it.
pub open spec fn weld_from(points: Seq<[u32; 3]>, normals: Seq<[u32; 3]>, i: int, j: int) -> int
    decreases i - j,
{
    if j >= i || welds(points, normals, i, j) {
        if j < i {
            j
        } else {
            i
        }
    } else {
        weld_from(points, normals, i, j + 1)
    }
}

/// For each vertex the first that it is one with.
pub open spec fn weld_table(points: Seq<[u32; 3]>, normals: Seq<[u32; 3]>) -> Seq<u32> {
    Seq::new(points.len(), |i: int| weld_from(points, normals, i, 0) as u32)
}

/// Tells whether two points are in one place.
fn in_one_place(a: [u32; 3], b: [u32; 3]) -> (r: bool)
    ensures
        r == one_place(a, b),
{
    equal(a[0], b[0]) && equal(a[1], b[1]) && equal(a[2], b[2])
}

/// The first vertex that vertex `i` is one with.
fn find_weld(points: &Vec<[u32; 3]>, normals: &Vec<[u32; 3]>, i: usize) -> (r: usize)
    requires
        points@.len() == normals@.len(),
        i < points@.len(),
    ensures
        r == weld_from(points@, normals@, i as int, 0),
        r <= i,
{
    let mut j: usize = 0;
    while j < i
        invariant
            points@.len() == normals@.len(),
            i < points@.len(),
            j <= i,
            weld_from(points@, normals@, i as int, 0) == weld_from(
                points@,
                normals@,
                i as int,
                j as int,
            ),
        decreases i - j,
    {
        if in_one_place(points[i], points[j]) && less(NORMAL_BLEND, dot(normals[i], normals[j])) {
            return j;
        }
        j = j + 1;
    }
    i
}

/// For each vertex the first that it is one with.
pub fn build_weld_table(points: &Vec<[u32; 3]>, normals: &Vec<[u32; 3]>) -> (r: Vec<u32>)
    requires
        points@.len() == normals@.len(),
        points@.len() <= u32::MAX,
    ensures
        r@ == weld_table(points@, normals@),
        forall|i: int| 0 <= i < r@.len() ==> (#[trigger] r@[i]) <= i,
{
    let mut out: Vec<u32> = Vec::new();
    let mut i: usize = 0;
    while i < points.len()
        invariant
            points@.len() == normals@.len(),
            points@.len() <= u32::MAX,
            i <= points@.len(),
            out@ == weld_table(points@, normals@).take(i as int),
            forall|j: int| 0 <= j < i ==> (#[trigger] out@[j]) <= j,
        decreases points@.len() - i,
    {
        out.push(find_weld(points, normals, i) as u32);
        i = i + 1;
        assert(out@ =~= weld_table(points@, normals@).take(i as int));
    }
    assert(out@ =~= weld_table(points@, normals@));
    out
}

/// The way from one point to another.
pub open spec fn way(from: [u32; 3], to: [u32; 3]) -> (u32, u32, u32) {
    (difference(to@[0], from@[0]), difference(to@[1], from@[1]), difference(to@[2], from@[2]))
}

/// A direction across points: that of the first triangle with the first point, from the points `a`
/// and `b` on, that is not too small. Where there is none, that of the last triangle.
pub open spec fn across(points: Seq<[u32; 3]>, a: int, b: int, last: (u32, u32, u32)) -> (
    u32,
    u32,
    u32,
)
    decreases points.len() - b,
{
    if a >= points.len() || b >= points.len() {
        last
    } else {
        let e = way(points[0], points[a]);
        let n = cross_product(e, way(points[0], points[b]));
        if below(SHORT, length(n)) {
            n
        } else if below(length(e), SHORT) {
            across(points, a + 1, b + 1, n)
        } else {
            across(points, a, b + 1, n)
        }
    }
}

/// Points from `i` on reach farther along a direction than `epsilon`, with `low` and `high` reached
/// so far.
pub open spec fn thick(
    points: Seq<[u32; 3]>,
    n: (u32, u32, u32),
    epsilon: u32,
    i: int,
    low: u32,
    high: u32,
) -> bool
    decreases points.len() - i,
{
    if i >= points.len() {
        false
    } else {
        let d = dot_product(triple(points[i]), n);
        let low2 = if below(d, low) {
            d
        } else {
            low
        };
        let high2 = if !below(d, low) && below(high, d) {
            d
        } else {
            high
        };
        below(epsilon, absolute(difference(high2, low2))) || thick(
            points,
            n,
            epsilon,
            i + 1,
            low2,
            high2,
        )
    }
}

/// Points lie in a plane, as far as `epsilon` tells.
pub open spec fn is_planar(points: Seq<[u32; 3]>, epsilon: u32) -> bool {
    let n = across(points, 1, 2, (0, 0, 0));
    let d = dot_product(triple(points[0]), n);
    points.len() < 4 || !thick(points, n, epsilon, 0, d, d)
}

/// The way from one point to another.
pub fn go(from: [u32; 3], to: [u32; 3]) -> (r: [u32; 3])
    ensures
        triple(r) == way(from, to),
{
    [minus(to[0], from[0]), minus(to[1], from[1]), minus(to[2], from[2])]
}

/// A direction across points.
fn find_across(points: &Vec<[u32; 3]>) -> (r: [u32; 3])
    requires
        points@.len() >= 4,
    ensures
        triple(r) == across(points@, 1, 2, (0, 0, 0)),
{
    let mut a: usize = 1;
    let mut b: usize = 2;
    let mut n: [u32; 3] = [0, 0, 0];
    while a < points.len() && b < points.len()
        invariant
            points@.len() >= 4,
            a <= b <= points@.len(),
            across(points@, 1, 2, (0, 0, 0)) == across(points@, a as int, b as int, triple(n)),
        decreases points@.len() - b,
    {
        let e: [u32; 3] = go(points[0], points[a]);
        n = cross(e, go(points[0], points[b]));
        if less(SHORT, sqrt(dot(n, n))) {
            return n;
        }
        if less(sqrt(dot(e, e)), SHORT) {
            a = a + 1;
        }
        b = b + 1;
    }
    n
}

/// Tells whether points lie in a plane, as far as `epsilon` tells. Fewer than four always do.
pub fn is_approximately_planar(points: &Vec<[u32; 3]>, epsilon: u32) -> (r: bool)
    ensures
        r == is_planar(points@, epsilon),
{
    if points.len() < 4 {
        return true;
    }
    let n: [u32; 3] = find_across(points);
    let mut low: u32 = dot(points[0], n);
    let mut high: u32 = low;
    let mut i: usize = 0;
    let ghost start = thick(points@, triple(n), epsilon, 0, low, high);
    while i < points.len()
        invariant
            i <= points@.len(),
            is_planar(points@, epsilon) == !start,
            start == thick(points@, triple(n), epsilon, i as int, low, high),
        decreases points@.len() - i,
    {
        let d: u32 = dot(points[i], n);
        if less(d, low) {
            low = d;
        } else if less(high, d) {
            high = d;
        }
        if less(epsilon, abs(minus(high, low))) {
            return false;
        }
        i = i + 1;
    }
    true
}

/// The points of a part.
pub open spec fn part_points(points: Seq<[u32; 3]>, part: Seq<usize>) -> Seq<[u32; 3]> {
    Seq::new(part.len(), |i: int| points[part[i] as int])
}

/// The corners of `n` triangles that share none.
pub open spec fn loose_faces(n: nat) -> Seq<[u32; 3]> {
    Seq::new(n, |f: int| [(3 * f) as u32, (3 * f + 1) as u32, (3 * f + 2) as u32])
}

/// `marks` mark the connected parts of a mesh: the greatest marks that agree on each face.
pub open spec fn is_marking(weld: Seq<u32>, faces: Seq<[u32; 3]>, marks: Seq<i32>) -> bool {
    &&& agrees(weld, faces, marks)
    &&& forall|x: Seq<i32>| #[trigger] agrees(weld, faces, x) ==> super::parts::below(x, marks)
}

/// What taking a mesh apart returns: its parts, or nothing where it stays in one piece.
pub open spec fn taken_apart(
    r: Result<Option<Vec<Vec<usize>>>, String>,
    points: Seq<[u32; 3]>,
    normals: Seq<[u32; 3]>,
) -> bool {
    if points.len() < 4 {
        r is Err && r->Err_0@ == "只有 "@ + decimal(points.len()) + " 个顶点，凸包至少要 4 个"@
    } else {
        exists|marks: Seq<i32>|
            {
                let parts = parts_from(marks, (points.len() / 3) as int, 0);
                let flat = exists|k: int|
                    0 <= k < parts.len() && is_planar(
                        #[trigger] part_points(points, parts[k]),
                        FLAT,
                    );
                &&& #[trigger] is_marking(
                    weld_table(points, normals),
                    loose_faces(points.len() / 3),
                    marks,
                )
                &&& match r {
                    Err(_) => false,
                    Ok(None) => flat || parts.len() > MAX_CONVEX_PIECES || parts.len() == 0,
                    Ok(Some(list)) => {
                        &&& !(flat || parts.len() > MAX_CONVEX_PIECES || parts.len() == 0)
                        &&& lists(list@) == parts
                    },
                }
            }
    }
}

/// The corners of `n` triangles that share none.
fn list_faces(n: usize) -> (r: Vec<[u32; 3]>)
    requires
        3 * n <= u32::MAX,
    ensures
        r@ == loose_faces(n as nat),
{
    let mut out: Vec<[u32; 3]> = Vec::new();
    let mut f: usize = 0;
    while f < n
        invariant
            3 * n <= u32::MAX,
            f <= n,
            out@ == loose_faces(n as nat).take(f as int),
        decreases n - f,
    {
        let a: u32 = 3 * (f as u32);
        let t: [u32; 3] = [a, a + 1, a + 2];
        assert(t@ =~= loose_faces(n as nat)[f as int]@);
        out.push(t);
        f = f + 1;
        assert(out@ =~= loose_faces(n as nat).take(f as int));
    }
    assert(out@ =~= loose_faces(n as nat));
    out
}

/// The points of a part.
fn list_part(points: &Vec<[u32; 3]>, part: &Vec<usize>) -> (r: Vec<[u32; 3]>)
    requires
        forall|i: int| 0 <= i < part@.len() ==> #[trigger] part@[i] < points@.len(),
    ensures
        r@ == part_points(points@, part@),
{
    let mut out: Vec<[u32; 3]> = Vec::new();
    let mut i: usize = 0;
    while i < part.len()
        invariant
            i <= part@.len(),
            forall|i: int| 0 <= i < part@.len() ==> #[trigger] part@[i] < points@.len(),
            out@ == part_points(points@, part@).take(i as int),
        decreases part@.len() - i,
    {
        assert(part@[i as int] < points@.len());
        out.push(points[part[i]]);
        i = i + 1;
        assert(out@ =~= part_points(points@, part@).take(i as int));
    }
    assert(out@ =~= part_points(points@, part@));
    out
}

/// The vertices of a part exist.
proof fn marked_exist(marks: Seq<i32>, id: i32, k: int)
    requires
        0 <= k,
        marks.len() <= usize::MAX,
    ensures
        forall|i: int|
            0 <= i < super::parts::marked(marks, id, k).len() ==> #[trigger] super::parts::marked(
                marks,
                id,
                k,
            )[i] < marks.len(),
    decreases marks.len() - k,
{
    if k < marks.len() {
        marked_exist(marks, id, k + 1);
        let rest = super::parts::marked(marks, id, k + 1);
        let all = super::parts::marked(marks, id, k);
        assert forall|i: int| 0 <= i < all.len() implies #[trigger] all[i] < marks.len() by {
            if marks[k] == id && i > 0 {
                assert(all[i] == rest[i - 1]);
            } else if marks[k] != id {
                assert(all[i] == rest[i]);
            }
        }
    }
}

/// The vertices of all parts exist.
proof fn parts_exist(marks: Seq<i32>, limit: int, i: int)
    requires
        0 <= i,
        marks.len() <= usize::MAX,
    ensures
        forall|p: int, j: int|
            0 <= p < parts_from(marks, limit, i).len() && 0 <= j < parts_from(
                marks,
                limit,
                i,
            )[p].len() ==> #[trigger] parts_from(marks, limit, i)[p][j] < marks.len(),
    decreases marks.len() - i,
{
    if i < marks.len() {
        parts_exist(marks, limit, i + 1);
        let part = super::parts::marked(marks, marks[i], i);
        marked_exist(marks, marks[i], i);
        let rest = parts_from(marks, limit, i + 1);
        let all = parts_from(marks, limit, i);
        assert forall|p: int, j: int|
            0 <= p < all.len() && 0 <= j < all[p].len() implies #[trigger] all[p][j]
            < marks.len() by {
            if all.len() > rest.len() {
                if p == 0 {
                    assert(all[p] == part);
                } else {
                    assert(all[p] == rest[p - 1]);
                    assert(rest[p - 1][j] < marks.len());
                }
            } else {
                assert(all[p] == rest[p]);
                assert(rest[p][j] < marks.len());
            }
        }
    }
}

/// Tells whether a part is flat.
fn any_flat(points: &Vec<[u32; 3]>, list: &Vec<Vec<usize>>) -> (r: bool)
    requires
        forall|p: int, j: int|
            0 <= p < list@.len() && 0 <= j < list@[p]@.len() ==> #[trigger] list@[p]@[j]
                < points@.len(),
    ensures
        r == exists|k: int|
            0 <= k < list@.len() && is_planar(
                #[trigger] part_points(points@, lists(list@)[k]),
                FLAT,
            ),
{
    let mut k: usize = 0;
    while k < list.len()
        invariant
            k <= list@.len(),
            forall|p: int, j: int|
                0 <= p < list@.len() && 0 <= j < list@[p]@.len() ==> #[trigger] list@[p]@[j]
                    < points@.len(),
            forall|j: int|
                0 <= j < k ==> !is_planar(#[trigger] part_points(points@, lists(list@)[j]), FLAT),
        decreases list@.len() - k,
    {
        assert(lists(list@)[k as int] == list@[k as int]@);
        assert forall|i: int| 0 <= i < list@[k as int]@.len() implies #[trigger] list@[k as int]@[i]
            < points@.len() by {}
        let part: Vec<[u32; 3]> = list_part(points, &list[k]);
        assert(part@ == part_points(points@, lists(list@)[k as int]));
        if is_approximately_planar(&part, FLAT) {
            return true;
        }
        k = k + 1;
    }
    false
}

/// The parts of a concave mesh, each of which gets a hull of its own; nothing where the whole mesh
/// gets one, because a part is flat, there are too many parts, or there is none. The points and
/// normals are those of the corners of its triangles, three for each.
pub fn connected_pieces(points: &Vec<[u32; 3]>, normals: &Vec<[u32; 3]>) -> (r: Result<
    Option<Vec<Vec<usize>>>,
    String,
>)
    requires
        points@.len() == normals@.len(),
        points@.len() <= u32::MAX,
    ensures
        taken_apart(r, points@, normals@),
{
    if points.len() < 4 {
        let mut m: String = "只有 ".to_owned();
        push_decimal(&mut m, points.len() as u64);
        m.push_str(" 个顶点，凸包至少要 4 个");
        return Err(m);
    }
    let n: usize = points.len() / 3;
    let weld: Vec<u32> = build_weld_table(points, normals);
    let faces: Vec<[u32; 3]> = list_faces(n);
    proof {
        assert forall|f: int| 0 <= f < faces@.len() implies {
            &&& (#[trigger] faces@[f])@[0] < weld@.len()
            &&& faces@[f]@[1] < weld@.len()
            &&& faces@[f]@[2] < weld@.len()
        } by {
            assert(faces@[f] == loose_faces(n as nat)[f]);
        }
        assert(faces_exist(weld@, faces@));
    }
    let marks: Vec<i32> = mark_connected_meshes(&weld, &faces);
    let list: Vec<Vec<usize>> = connected_parts(&marks, n);
    proof {
        parts_exist(marks@, n as int, 0);
        assert forall|p: int, j: int|
            0 <= p < list@.len() && 0 <= j < list@[p]@.len() implies #[trigger] list@[p]@[j]
            < points@.len() by {
            assert(lists(list@)[p] == list@[p]@);
            assert(parts_from(marks@, n as int, 0)[p][j] < marks@.len());
        }
        assert(is_marking(weld@, faces@, marks@));
    }
    let flat: bool = any_flat(points, &list);
    if is_one_piece(flat, list.len()) {
        Ok(None)
    } else {
        Ok(Some(list))
    }
}

} // verus!
