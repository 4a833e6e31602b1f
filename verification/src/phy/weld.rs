//! Collision meshes: their points, each once, and what moves them.
use std::collections::HashMap;
use vstd::prelude::*;

use super::solid::{indexes, intern};

use crate::seqs::{distinct, distinct_holds_each_once, position, position_is_unique, viewing};
use crate::smd::{decimal_text, triangle_views, Smd, SmdTriangle, TriangleView, VertexView};
use crate::text::decimal;

verus! {

broadcast use {vstd::std_specs::hash::group_hash_axioms, viewing};

/// Corner `e` of a mesh, counted over all triangles.
pub open spec fn corner_of(t: Seq<TriangleView>, e: int) -> VertexView {
    t[e / 3].vertices[e % 3]
}

/// The positions of the first `n` corners.
pub open spec fn corner_points(t: Seq<TriangleView>, n: int) -> Seq<[u32; 3]> {
    Seq::new(n as nat, |e: int| corner_of(t, e).position)
}

/// The points of a mesh, each once, in order of first appearance.
pub open spec fn mesh_points(t: Seq<TriangleView>) -> Seq<[u32; 3]> {
    distinct(corner_points(t, 3 * t.len() as int))
}

/// A triangle as indices into points.
pub open spec fn welded_face(points: Seq<[u32; 3]>, t: Seq<TriangleView>, f: int) -> [u32; 3] {
    [
        position(points, corner_of(t, 3 * f).position) as u32,
        position(points, corner_of(t, 3 * f + 1).position) as u32,
        position(points, corner_of(t, 3 * f + 2).position) as u32,
    ]
}

/// Whether the corners of a triangle are three.
pub open spec fn three_corners(f: [u32; 3]) -> bool {
    f@[0] != f@[1] && f@[1] != f@[2] && f@[0] != f@[2]
}

/// The first `n` triangles as indices into points, without those that have lost a corner.
pub open spec fn welded_faces(points: Seq<[u32; 3]>, t: Seq<TriangleView>, n: int) -> Seq<[u32; 3]>
    decreases n,
{
    if n <= 0 {
        Seq::empty()
    } else {
        let face = welded_face(points, t, n - 1);
        let before = welded_faces(points, t, n - 1);
        if three_corners(face) {
            before.push(face)
        } else {
            before
        }
    }
}

/// A mesh as points and triangles over them.
#[derive(Debug, Clone, PartialEq)]
pub struct WeldedMesh {
    /// The points, each once.
    pub vertices: Vec<[u32; 3]>,
    /// The triangles, as indices into the points.
    pub faces: Vec<[u32; 3]>,
}

/// The points of a list, each once, and where each item of the list stands among them.
pub fn share(list: &Vec<[u32; 3]>) -> (r: (Vec<[u32; 3]>, Vec<u32>))
    requires
        list@.len() < u32::MAX,
    ensures
        r.0@ == distinct(list@),
        r.1@.len() == list@.len(),
        forall|e: int|
            0 <= e < list@.len() ==> #[trigger] r.1@[e] < r.0@.len() && r.0@[r.1@[e] as int]
                == list@[e] && r.1@[e] == position(r.0@, list@[e]),
{
    let mut points: Vec<[u32; 3]> = Vec::new();
    let mut seen: HashMap<u128, u32> = HashMap::new();
    let mut places: Vec<u32> = Vec::new();
    let mut e: usize = 0;
    proof {
        assert(list@.take(0) =~= Seq::empty());
    }
    while e < list.len()
        invariant
            e <= list@.len(),
            list@.len() < u32::MAX,
            indexes(seen@, points@),
            points@ == distinct(list@.take(e as int)),
            places@.len() == e,
            forall|k: int|
                0 <= k < e ==> #[trigger] places@[k] < points@.len()
                    && points@[places@[k] as int] == list@[k],
        decreases list@.len() - e,
    {
        let ghost before = points@;
        proof {
            distinct_holds_each_once(list@.take(e as int));
            assert(list@.take(e + 1).drop_last() =~= list@.take(e as int));
        }
        let p: u32 = intern(&mut points, &mut seen, list[e]);
        places.push(p);
        assert forall|k: int| 0 <= k < e + 1 implies #[trigger] places@[k] < points@.len()
            && points@[places@[k] as int] == list@[k] by {
            if k < e {
                assert(points@[places@[k] as int] == before[places@[k] as int]);
            }
        }
        e = e + 1;
    }
    proof {
        assert(list@.take(e as int) =~= list@);
        distinct_holds_each_once(list@);
        assert forall|k: int| 0 <= k < list@.len() implies #[trigger] places@[k] == position(
            points@,
            list@[k],
        ) by {
            position_is_unique(points@, places@[k] as int);
        }
    }
    (points, places)
}

/// The positions of all corners.
pub fn list_corners(triangles: &Vec<SmdTriangle>) -> (r: Vec<[u32; 3]>)
    ensures
        r@ == corner_points(triangle_views(triangles@), 3 * triangles@.len() as int),
{
    let ghost t = triangle_views(triangles@);
    let mut out: Vec<[u32; 3]> = Vec::new();
    let mut f: usize = 0;
    while f < triangles.len()
        invariant
            f <= triangles@.len(),
            t == triangle_views(triangles@),
            out@ == corner_points(t, 3 * f),
        decreases triangles@.len() - f,
    {
        assert(t[f as int] == triangles@[f as int]@);
        out.push(triangles[f].vertices[0].position);
        out.push(triangles[f].vertices[1].position);
        out.push(triangles[f].vertices[2].position);
        assert(corner_of(t, 3 * f) == t[f as int].vertices[0]);
        assert(corner_of(t, 3 * f + 1) == t[f as int].vertices[1]);
        assert(corner_of(t, 3 * f + 2) == t[f as int].vertices[2]);
        assert(out@ =~= corner_points(t, 3 * f + 3));
        f = f + 1;
    }
    out
}

/// What is wrong with a mesh of too few points.
pub open spec fn too_few(n: nat) -> Seq<char> {
    "焊接后只有 "@ + decimal(n) + " 个不同顶点，凸包至少要 4 个"@
}

/// A mesh as points, each once, and triangles over them. Points are the same if their bits are;
/// triangles that lose a corner are left out. Fewer than four points span nothing.
pub fn weld_smd_triangles(smd: &Smd) -> (r: Result<WeldedMesh, String>)
    requires
        3 * smd.triangles@.len() < u32::MAX,
    ensures
        ({
            let t = smd@.triangles;
            let points = mesh_points(t);
            match r {
                Ok(m) => points.len() >= 4 && m.vertices@ == points && m.faces@ == welded_faces(
                    points,
                    t,
                    t.len() as int,
                ),
                Err(e) => points.len() < 4 && e@ == too_few(points.len()),
            }
        }),
{
    let ghost t = smd@.triangles;
    let list: Vec<[u32; 3]> = list_corners(&smd.triangles);
    let (points, places) = share(&list);
    assert(points@ == mesh_points(t));
    let total: usize = smd.triangles.len();
    let mut faces: Vec<[u32; 3]> = Vec::new();
    let mut f: usize = 0;
    while f < total
        invariant
            f <= total,
            total == t.len(),
            3 * total < u32::MAX,
            list@ == corner_points(t, 3 * total),
            places@.len() == list@.len(),
            forall|e: int|
                0 <= e < list@.len() ==> #[trigger] places@[e] == position(points@, list@[e]),
            faces@ == welded_faces(points@, t, f as int),
        decreases total - f,
    {
        let a: u32 = places[3 * f];
        let b: u32 = places[3 * f + 1];
        let c: u32 = places[3 * f + 2];
        let face: [u32; 3] = [a, b, c];
        proof {
            assert(list@[3 * f] == corner_of(t, 3 * f).position);
            assert(list@[3 * f + 1] == corner_of(t, 3 * f + 1).position);
            assert(list@[3 * f + 2] == corner_of(t, 3 * f + 2).position);
            assert(face@ =~= welded_face(points@, t, f as int)@);
        }
        if a != b && b != c && a != c {
            faces.push(face);
        }
        f = f + 1;
    }
    if points.len() < 4 {
        let mut m: String = "焊接后只有 ".to_owned();
        let n: String = decimal_text(points.len());
        m.push_str(n.as_str());
        m.push_str(" 个不同顶点，凸包至少要 4 个");
        return Err(m);
    }
    Ok(WeldedMesh { vertices: points, faces })
}

} // verus!
