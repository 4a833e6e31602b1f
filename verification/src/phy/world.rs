//! Moving the points of a collision mesh with the bones.
use vstd::prelude::*;

use super::pose::{
    point_weights, weight_rows, world_links, BoneWeight, BoneWeightView,
};
use super::weld::{corner_points, list_corners};
use crate::arith::{plus, product, sum, times};
use crate::seqs::{viewed, viewing};
use crate::smd::Smd;
use crate::tangent::triple;
use crate::text::same;

verus! {

broadcast use viewing;

/// How a bone turns and moves points: three rows of four numbers.
#[derive(Debug, Clone)]
pub struct BoneMatrix {
    /// The name of the bone.
    pub name: String,
    /// The rows.
    pub rows: [u32; 12],
}

/// How a bone turns and moves points, as a mathematical value.
#[verifier::ext_equal]
pub struct BoneMatrixView {
    /// The name of the bone.
    pub name: Seq<char>,
    /// The rows.
    pub rows: [u32; 12],
}

impl View for BoneMatrix {
    type V = BoneMatrixView;

    open spec fn view(&self) -> BoneMatrixView {
        BoneMatrixView { name: self.name@, rows: self.rows }
    }
}

/// Where the bones of a mesh stand: for each bone its matrix, and the one that undoes it.
#[derive(Debug, Clone)]
pub struct RestPose {
    /// The matrices.
    pub world: Vec<BoneMatrix>,
    /// The matrices that undo them.
    pub inverse: Vec<BoneMatrix>,
}

/// The matrix that leaves points where they are.
pub open spec fn identity() -> Seq<u32> {
    seq![0x3F80_0000, 0, 0, 0, 0, 0x3F80_0000, 0, 0, 0, 0, 0x3F80_0000, 0]
}

/// One row of a matrix, applied to a point.
pub open spec fn row_of(m: Seq<u32>, r: int, p: (u32, u32, u32)) -> u32 {
    sum(
        sum(sum(product(m[r], p.0), product(m[r + 1], p.1)), product(m[r + 2], p.2)),
        m[r + 3],
    )
}

/// A matrix applied to a point.
pub open spec fn transformed(m: Seq<u32>, p: (u32, u32, u32)) -> (u32, u32, u32) {
    (row_of(m, 0, p), row_of(m, 4, p), row_of(m, 8, p))
}

/// The matrix of the last bone of the given name among the first `n`.
pub open spec fn matrix_named(list: Seq<BoneMatrixView>, name: Seq<char>, n: int) -> Option<
    Seq<u32>,
>
    decreases n,
{
    if n <= 0 {
        None
    } else if list[n - 1].name == name {
        Some(list[n - 1].rows@)
    } else {
        matrix_named(list, name, n - 1)
    }
}

/// The matrix of the bone of the given name.
pub open spec fn matrix_of(list: Seq<BoneMatrixView>, name: Seq<char>) -> Option<Seq<u32>> {
    matrix_named(list, name, list.len() as int)
}

/// Where a bone takes a point: out of its own place in the mesh, and to where it stands in the
/// pose. A bone that the pose leaves out stands as in the mesh, and one that is nowhere moves
/// nothing.
pub open spec fn carried(
    p: (u32, u32, u32),
    name: Seq<char>,
    rest: RestPose,
    pose: Seq<BoneMatrixView>,
) -> (u32, u32, u32) {
    let local = match matrix_of(viewed(rest.inverse@), name) {
        Some(m) => transformed(m, p),
        None => p,
    };
    let world = match matrix_of(pose, name) {
        Some(m) => m,
        None => match matrix_of(viewed(rest.world@), name) {
            Some(m) => m,
            None => identity(),
        },
    };
    transformed(world, local)
}

/// The places to which the first `n` bones take a point, each times its weight, added up.
pub open spec fn blended(
    p: (u32, u32, u32),
    links: Seq<BoneWeightView>,
    rest: RestPose,
    pose: Seq<BoneMatrixView>,
    n: int,
) -> (u32, u32, u32)
    decreases n,
{
    if n <= 0 {
        (0, 0, 0)
    } else {
        let acc = blended(p, links, rest, pose, n - 1);
        let l = links[n - 1];
        let w = carried(p, l.name, rest, pose);
        (
            sum(acc.0, product(l.weight, w.0)),
            sum(acc.1, product(l.weight, w.1)),
            sum(acc.2, product(l.weight, w.2)),
        )
    }
}

/// Where the bones take a point; one that no bone moves stays.
pub open spec fn world_place(
    p: [u32; 3],
    links: Seq<BoneWeightView>,
    rest: RestPose,
    pose: Seq<BoneMatrixView>,
) -> (u32, u32, u32) {
    if links.len() == 0 {
        triple(p)
    } else {
        blended(triple(p), links, rest, pose, links.len() as int)
    }
}

/// What moves point `i`.
pub open spec fn row_or_none(rows: Seq<Seq<BoneWeightView>>, i: int) -> Seq<BoneWeightView> {
    if i < rows.len() {
        rows[i]
    } else {
        Seq::empty()
    }
}

/// `r` are the places to which the bones take the points.
pub open spec fn all_placed(
    r: Seq<[u32; 3]>,
    points: Seq<[u32; 3]>,
    rows: Seq<Seq<BoneWeightView>>,
    rest: RestPose,
    pose: Seq<BoneMatrixView>,
) -> bool {
    &&& r.len() == points.len()
    &&& forall|i: int|
        0 <= i < r.len() ==> triple(#[trigger] r[i]) == world_place(
            points[i],
            row_or_none(rows, i),
            rest,
            pose,
        )
}

/// A matrix applied to a point.
pub fn transform_point(m: &[u32; 12], p: [u32; 3]) -> (r: [u32; 3])
    ensures
        triple(r) == transformed(m@, triple(p)),
{
    [
        plus(plus(plus(times(m[0], p[0]), times(m[1], p[1])), times(m[2], p[2])), m[3]),
        plus(plus(plus(times(m[4], p[0]), times(m[5], p[1])), times(m[6], p[2])), m[7]),
        plus(plus(plus(times(m[8], p[0]), times(m[9], p[1])), times(m[10], p[2])), m[11]),
    ]
}

/// The place of the last bone of the given name.
fn find_matrix(list: &Vec<BoneMatrix>, name: &str) -> (r: Option<usize>)
    ensures
        match r {
            Some(i) => i < list@.len() && matrix_of(viewed(list@), name@) == Some(
                list@[i as int].rows@,
            ),
            None => matrix_of(viewed(list@), name@) is None,
        },
{
    let mut n: usize = list.len();
    while n > 0
        invariant
            n <= list@.len(),
            matrix_of(viewed(list@), name@) == matrix_named(viewed(list@), name@, n as int),
        decreases n,
    {
        assert(viewed(list@)[n - 1] == list@[n - 1]@);
        if same(list[n - 1].name.as_str(), name) {
            return Some(n - 1);
        }
        n = n - 1;
    }
    None
}

/// Where a bone takes a point.
fn carry(p: [u32; 3], name: &str, rest: &RestPose, pose: &Vec<BoneMatrix>) -> (r: [u32; 3])
    ensures
        triple(r) == carried(triple(p), name@, *rest, viewed(pose@)),
{
    let local: [u32; 3] = match find_matrix(&rest.inverse, name) {
        Some(i) => transform_point(&rest.inverse[i].rows, p),
        None => p,
    };
    match find_matrix(pose, name) {
        Some(i) => transform_point(&pose[i].rows, local),
        None => match find_matrix(&rest.world, name) {
            Some(i) => transform_point(&rest.world[i].rows, local),
            None => {
                let one: u32 = 0x3F80_0000;
                let m: [u32; 12] = [one, 0, 0, 0, 0, one, 0, 0, 0, 0, one, 0];
                assert(m@ =~= identity());
                transform_point(&m, local)
            },
        },
    }
}

/// Where the bones take a point.
pub fn world_point(
    p: [u32; 3],
    links: &Vec<BoneWeight>,
    rest: &RestPose,
    pose: &Vec<BoneMatrix>,
) -> (r: [u32; 3])
    ensures
        triple(r) == world_place(p, viewed(links@), *rest, viewed(pose@)),
{
    assert(viewed(links@).len() == links@.len());
    if links.len() == 0 {
        return p;
    }
    let mut acc: [u32; 3] = [0, 0, 0];
    let mut k: usize = 0;
    while k < links.len()
        invariant
            k <= links@.len(),
            triple(acc) == blended(
                triple(p),
                viewed(links@),
                *rest,
                viewed(pose@),
                k as int,
            ),
        decreases links@.len() - k,
    {
        assert(viewed(links@)[k as int] == links@[k as int]@);
        let w: [u32; 3] = carry(p, links[k].name.as_str(), rest, pose);
        let weight: u32 = links[k].weight;
        acc = [
            plus(acc[0], times(weight, w[0])),
            plus(acc[1], times(weight, w[1])),
            plus(acc[2], times(weight, w[2])),
        ];
        k = k + 1;
    }
    acc
}

/// Where the bones take points, each by its own links.
fn place_points(
    points: &Vec<[u32; 3]>,
    weights: &Vec<Vec<BoneWeight>>,
    rest: &RestPose,
    pose: &Vec<BoneMatrix>,
) -> (r: Vec<[u32; 3]>)
    ensures
        all_placed(r@, points@, weight_rows(weights@), *rest, viewed(pose@)),
{
    let none: Vec<BoneWeight> = Vec::new();
    assert(viewed(none@) =~= Seq::<BoneWeightView>::empty());
    let mut out: Vec<[u32; 3]> = Vec::new();
    let mut i: usize = 0;
    while i < points.len()
        invariant
            i <= points@.len(),
            viewed(none@) == Seq::<BoneWeightView>::empty(),
            out@.len() == i,
            forall|j: int|
                0 <= j < i ==> triple(#[trigger] out@[j]) == world_place(
                    points@[j],
                    row_or_none(weight_rows(weights@), j),
                    *rest,
                    viewed(pose@),
                ),
        decreases points@.len() - i,
    {
        let p: [u32; 3] = if i < weights.len() {
            assert(weight_rows(weights@)[i as int] == viewed(weights@[i as int]@));
            world_point(points[i], &weights[i], rest, pose)
        } else {
            world_point(points[i], &none, rest, pose)
        };
        out.push(p);
        i = i + 1;
    }
    out
}

/// Where the bones take the corners of a mesh. `weights` tells of each corner what moves it.
pub fn to_world_space(
    smd: &Smd,
    weights: &Vec<Vec<BoneWeight>>,
    rest: &RestPose,
    pose: &Vec<BoneMatrix>,
) -> (r: Vec<[u32; 3]>)
    ensures
        all_placed(
            r@,
            corner_points(smd@.triangles, 3 * smd@.triangles.len() as int),
            weight_rows(weights@),
            *rest,
            viewed(pose@),
        ),
{
    let corners: Vec<[u32; 3]> = list_corners(&smd.triangles);
    place_points(&corners, weights, rest, pose)
}

/// Where the bones take points of a mesh: each is moved by what moves its first corner.
pub fn world_space_verts(
    smd: &Smd,
    unique: &Vec<[u32; 3]>,
    rest: &RestPose,
    pose: &Vec<BoneMatrix>,
) -> (r: Vec<[u32; 3]>)
    ensures
        all_placed(
            r@,
            unique@,
            Seq::new(unique@.len(), |i: int| point_weights(smd@, unique@[i])),
            *rest,
            viewed(pose@),
        ),
{
    let weights: Vec<Vec<BoneWeight>> = world_links(smd, unique);
    place_points(unique, &weights, rest, pose)
}

} // verus!
