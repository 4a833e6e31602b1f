//! What moves the points of a collision mesh, and where bones stand.
use vstd::prelude::*;

use super::weld::corner_of;
use crate::arith::{radians, to_radians};
use crate::qc::model::{Bone, BoneView};
use crate::seqs::{viewed, viewing};
use crate::smd::{
    node_views, NodeView, Smd, SmdBoneLink, SmdNode, SmdPose, SmdVertex, SmdView, TriangleView,
    VertexView,
};
use crate::text::same;

verus! {

broadcast use viewing;

/// A bone that moves a point, by name, and how much.
#[derive(Debug, Clone, PartialEq)]
pub struct BoneWeight {
    /// The name of the bone.
    pub name: String,
    /// The weight.
    pub weight: u32,
}

/// A bone that moves a point, as a mathematical value.
#[verifier::ext_equal]
pub struct BoneWeightView {
    /// The name of the bone.
    pub name: Seq<char>,
    /// The weight.
    pub weight: u32,
}

impl View for BoneWeight {
    type V = BoneWeightView;

    open spec fn view(&self) -> BoneWeightView {
        BoneWeightView { name: self.name@, weight: self.weight }
    }
}

/// What moves each of some points.
pub open spec fn weight_rows(s: Seq<Vec<BoneWeight>>) -> Seq<Seq<BoneWeightView>> {
    Seq::new(s.len(), |i: int| viewed(s[i]@))
}

/// What moves some points, with one more.
pub broadcast proof fn weight_rows_push(s: Seq<Vec<BoneWeight>>, x: Vec<BoneWeight>)
    ensures
        #[trigger] weight_rows(s.push(x)) == weight_rows(s).push(viewed(x@)),
{
    assert(weight_rows(s.push(x)) =~= weight_rows(s).push(viewed(x@)));
}

/// The place of the last among the first `n` nodes that has the given index.
pub open spec fn node_with(nodes: Seq<NodeView>, index: i32, n: int) -> Option<int>
    decreases n,
{
    if n <= 0 || n > nodes.len() {
        None
    } else if nodes[n - 1].index == index {
        Some(n - 1)
    } else {
        node_with(nodes, index, n - 1)
    }
}

/// The place of the last node that has the given index.
pub fn find_node_with(nodes: &Vec<SmdNode>, index: i32) -> (r: Option<usize>)
    ensures
        match r {
            Some(i) => i < nodes@.len() && node_with(
                node_views(nodes@),
                index,
                nodes@.len() as int,
            ) == Some(i as int),
            None => node_with(node_views(nodes@), index, nodes@.len() as int) is None,
        },
{
    let mut n: usize = nodes.len();
    while n > 0
        invariant
            n <= nodes@.len(),
            node_with(node_views(nodes@), index, n as int) == node_with(
                node_views(nodes@),
                index,
                nodes@.len() as int,
            ),
        decreases n,
    {
        assert(node_views(nodes@)[n - 1] == nodes@[n - 1]@);
        if nodes[n - 1].index == index {
            return Some(n - 1);
        }
        n = n - 1;
    }
    None
}

/// The bones among the first `n` links, by name. A link to a bone that is not there says nothing.
pub open spec fn weights_of(nodes: Seq<NodeView>, links: Seq<SmdBoneLink>, n: int) -> Seq<
    BoneWeightView,
>
    decreases n,
{
    if n <= 0 {
        Seq::empty()
    } else {
        let before = weights_of(nodes, links, n - 1);
        match node_with(nodes, links[n - 1].bone, nodes.len() as int) {
            Some(i) => before.push(
                BoneWeightView { name: nodes[i].name, weight: links[n - 1].weight },
            ),
            None => before,
        }
    }
}

/// The bones that move a corner, by name.
pub open spec fn corner_weights(nodes: Seq<NodeView>, v: VertexView) -> Seq<BoneWeightView> {
    weights_of(nodes, v.links, v.links.len() as int)
}

/// The bones that move each corner of a mesh, by name.
pub open spec fn all_weights(m: SmdView) -> Seq<Seq<BoneWeightView>> {
    Seq::new(
        3 * m.triangles.len(),
        |e: int| corner_weights(m.nodes, corner_of(m.triangles, e)),
    )
}

/// The bones that move a corner, by name.
fn name_links(nodes: &Vec<SmdNode>, v: &SmdVertex) -> (r: Vec<BoneWeight>)
    ensures
        viewed(r@) == corner_weights(node_views(nodes@), v@),
{
    let mut out: Vec<BoneWeight> = Vec::new();
    let mut k: usize = 0;
    while k < v.links.len()
        invariant
            k <= v.links@.len(),
            viewed(out@) == weights_of(node_views(nodes@), v.links@, k as int),
        decreases v.links@.len() - k,
    {
        if let Some(i) = find_node_with(nodes, v.links[k].bone) {
            assert(node_views(nodes@)[i as int] == nodes@[i as int]@);
            out.push(BoneWeight { name: nodes[i].name.clone(), weight: v.links[k].weight });
        }
        k = k + 1;
    }
    out
}

/// The bones that move each corner of a mesh, by name.
pub fn vertex_bone_weights(smd: &Smd) -> (r: Vec<Vec<BoneWeight>>)
    ensures
        weight_rows(r@) == all_weights(smd@),
{
    let ghost m = smd@;
    let mut out: Vec<Vec<BoneWeight>> = Vec::new();
    let mut f: usize = 0;
    while f < smd.triangles.len()
        invariant
            f <= smd.triangles@.len(),
            m == smd@,
            weight_rows(out@) == all_weights(m).take(3 * f),
        decreases smd.triangles@.len() - f,
    {
        assert(m.triangles[f as int] == smd.triangles@[f as int]@);
        let a: Vec<BoneWeight> = name_links(&smd.nodes, &smd.triangles[f].vertices[0]);
        let b: Vec<BoneWeight> = name_links(&smd.nodes, &smd.triangles[f].vertices[1]);
        let c: Vec<BoneWeight> = name_links(&smd.nodes, &smd.triangles[f].vertices[2]);
        assert(corner_of(m.triangles, 3 * f) == m.triangles[f as int].vertices[0]);
        assert(corner_of(m.triangles, 3 * f + 1) == m.triangles[f as int].vertices[1]);
        assert(corner_of(m.triangles, 3 * f + 2) == m.triangles[f as int].vertices[2]);
        assert(viewed(a@) == all_weights(m)[3 * f]);
        assert(viewed(b@) == all_weights(m)[3 * f + 1]);
        assert(viewed(c@) == all_weights(m)[3 * f + 2]);
        broadcast use weight_rows_push;
        out.push(a);
        out.push(b);
        out.push(c);
        assert(weight_rows(out@) =~= all_weights(m).take(3 * f + 3));
        f = f + 1;
    }
    assert(all_weights(m).take(3 * smd.triangles@.len() as int) =~= all_weights(m));
    out
}

/// The first corner from `e` on that has the given position.
pub open spec fn corner_at(t: Seq<TriangleView>, p: [u32; 3], e: int) -> Option<int>
    decreases 3 * t.len() - e,
{
    if e < 0 || e >= 3 * t.len() {
        None
    } else if corner_of(t, e).position == p {
        Some(e)
    } else {
        corner_at(t, p, e + 1)
    }
}

/// The bones that move the first corner with the given position; none where there is no such
/// corner.
pub open spec fn point_weights(m: SmdView, p: [u32; 3]) -> Seq<BoneWeightView> {
    match corner_at(m.triangles, p, 0) {
        Some(e) => corner_weights(m.nodes, corner_of(m.triangles, e)),
        None => Seq::empty(),
    }
}

/// Compares positions bit by bit.
pub fn same_point(a: [u32; 3], b: [u32; 3]) -> (r: bool)
    ensures
        r == (a == b),
{
    let r: bool = a[0] == b[0] && a[1] == b[1] && a[2] == b[2];
    proof {
        if r {
            assert(a@ =~= b@);
            assert(a == b);
        } else {
            assert(a@ != b@);
        }
    }
    r
}

/// The bones that move the first corner with the given position.
fn find_point_weights(smd: &Smd, p: [u32; 3]) -> (r: Vec<BoneWeight>)
    ensures
        viewed(r@) == point_weights(smd@, p),
{
    let ghost m = smd@;
    let mut f: usize = 0;
    while f < smd.triangles.len()
        invariant
            f <= smd.triangles@.len(),
            m == smd@,
            corner_at(m.triangles, p, 3 * f) == corner_at(m.triangles, p, 0),
        decreases smd.triangles@.len() - f,
    {
        assert(m.triangles[f as int] == smd.triangles@[f as int]@);
        assert(corner_of(m.triangles, 3 * f) == m.triangles[f as int].vertices[0]);
        assert(corner_of(m.triangles, 3 * f + 1) == m.triangles[f as int].vertices[1]);
        assert(corner_of(m.triangles, 3 * f + 2) == m.triangles[f as int].vertices[2]);
        let mut k: usize = 0;
        while k < 3
            invariant
                k <= 3,
                f < smd.triangles@.len(),
                m == smd@,
                m.triangles[f as int] == smd.triangles@[f as int]@,
                forall|j: int|
                    0 <= j < 3 ==> #[trigger] corner_of(m.triangles, 3 * f + j)
                        == m.triangles[f as int].vertices[j],
                corner_at(m.triangles, p, 3 * f + k) == corner_at(m.triangles, p, 0),
            decreases 3 - k,
        {
            assert(corner_of(m.triangles, 3 * f + k) == smd.triangles@[f as int].vertices@[k as int]@);
            if same_point(smd.triangles[f].vertices[k].position, p) {
                return name_links(&smd.nodes, &smd.triangles[f].vertices[k]);
            }
            k = k + 1;
        }
        f = f + 1;
    }
    Vec::new()
}

/// The bones that move points: for each point those of its first corner.
pub fn world_links(smd: &Smd, points: &Vec<[u32; 3]>) -> (r: Vec<Vec<BoneWeight>>)
    ensures
        weight_rows(r@) == Seq::new(points@.len(), |i: int| point_weights(smd@, points@[i])),
{
    let ghost want = Seq::new(points@.len(), |i: int| point_weights(smd@, points@[i]));
    let mut out: Vec<Vec<BoneWeight>> = Vec::new();
    let mut k: usize = 0;
    while k < points.len()
        invariant
            k <= points@.len(),
            want == Seq::new(points@.len(), |i: int| point_weights(smd@, points@[i])),
            weight_rows(out@) == want.take(k as int),
        decreases points@.len() - k,
    {
        let w: Vec<BoneWeight> = find_point_weights(smd, points[k]);
        assert(viewed(w@) == want[k as int]);
        broadcast use weight_rows_push;
        out.push(w);
        assert(weight_rows(out@) =~= want.take(k + 1));
        k = k + 1;
    }
    assert(weight_rows(out@) =~= want);
    out
}

/// A bone as it stands: where, turned how, and what it hangs from.
#[derive(Debug, Clone, PartialEq)]
pub struct PosedBone {
    /// The name.
    pub name: String,
    /// The position.
    pub position: [u32; 3],
    /// The rotation in radians.
    pub rotation: [u32; 3],
    /// The place of the bone that it hangs from; negative for none.
    pub parent: i32,
}

/// A bone as it stands, as a mathematical value.
#[verifier::ext_equal]
pub struct PosedBoneView {
    /// The name.
    pub name: Seq<char>,
    /// The position.
    pub position: [u32; 3],
    /// The rotation in radians.
    pub rotation: [u32; 3],
    /// The place of the bone that it hangs from.
    pub parent: i32,
}

impl View for PosedBone {
    type V = PosedBoneView;

    open spec fn view(&self) -> PosedBoneView {
        PosedBoneView {
            name: self.name@,
            position: self.position,
            rotation: self.rotation,
            parent: self.parent,
        }
    }
}

/// No offset, and no turn.
pub open spec fn origin() -> [u32; 3] {
    [0u32, 0u32, 0u32]
}

/// Bone `i` of a mesh as it stands in the first frame. Without a pose it stands at the origin. Its
/// parent is the node whose own index its parent number gives.
pub open spec fn rest_bone(m: SmdView, i: int) -> PosedBoneView {
    let given = m.frames.len() > 0 && i < m.frames[0].poses.len();
    PosedBoneView {
        name: m.nodes[i].name,
        position: if given {
            m.frames[0].poses[i].position
        } else {
            origin()
        },
        rotation: if given {
            m.frames[0].poses[i].rotation
        } else {
            origin()
        },
        parent: match node_with(m.nodes, m.nodes[i].parent, m.nodes.len() as int) {
            Some(k) => if m.nodes[i].parent < 0 {
                -1i32
            } else {
                k as i32
            },
            None => -1i32,
        },
    }
}

/// The bones of a mesh as they stand in the first frame.
pub open spec fn rest_bones(m: SmdView) -> Seq<PosedBoneView> {
    Seq::new(m.nodes.len(), |i: int| rest_bone(m, i))
}

/// The bones of a mesh as they stand in the first frame.
pub fn smd_rest_pose(smd: &Smd) -> (r: Vec<PosedBone>)
    ensures
        viewed(r@) == rest_bones(smd@),
{
    let ghost m = smd@;
    let mut out: Vec<PosedBone> = Vec::new();
    let mut i: usize = 0;
    while i < smd.nodes.len()
        invariant
            i <= smd.nodes@.len(),
            m == smd@,
            viewed(out@) == rest_bones(m).take(i as int),
        decreases smd.nodes@.len() - i,
    {
        assert(m.nodes[i as int] == smd.nodes@[i as int]@);
        let mut position: [u32; 3] = [0, 0, 0];
        let mut rotation: [u32; 3] = [0, 0, 0];
        proof {
            assert(position@ =~= origin()@);
            assert(position == origin());
        }
        if smd.frames.len() > 0 {
            assert(m.frames[0] == smd.frames@[0]@);
            if i < smd.frames[0].poses.len() {
                position = smd.frames[0].poses[i].position;
                rotation = smd.frames[0].poses[i].rotation;
            }
        }
        let mut parent: i32 = -1;
        if smd.nodes[i].parent >= 0 {
            if let Some(k) = find_node_with(&smd.nodes, smd.nodes[i].parent) {
                parent = #[verifier::truncate]
                (k as i32);
            }
        }
        let b: PosedBone = PosedBone {
            name: smd.nodes[i].name.clone(),
            position,
            rotation,
                parent,
        };
        assert(b@ == rest_bones(m)[i as int]);
        out.push(b);
        assert(viewed(out@) =~= rest_bones(m).take(i + 1));
        i = i + 1;
    }
    assert(viewed(out@) =~= rest_bones(m));
    out
}

/// The place of the last among the first `n` bones that has the given name.
pub open spec fn bone_named(bones: Seq<BoneView>, name: Seq<char>, n: int) -> Option<int>
    decreases n,
{
    if n <= 0 || n > bones.len() {
        None
    } else if bones[n - 1].name == name {
        Some(n - 1)
    } else {
        bone_named(bones, name, n - 1)
    }
}

/// The place of the last bone that has the given name.
fn find_bone_named(bones: &Vec<Bone>, name: &str) -> (r: Option<usize>)
    ensures
        match r {
            Some(i) => i < bones@.len() && bone_named(viewed(bones@), name@, bones@.len() as int)
                == Some(i as int),
            None => bone_named(viewed(bones@), name@, bones@.len() as int) is None,
        },
{
    let mut n: usize = bones.len();
    while n > 0
        invariant
            n <= bones@.len(),
            bone_named(viewed(bones@), name@, n as int) == bone_named(
                viewed(bones@),
                name@,
                bones@.len() as int,
            ),
        decreases n,
    {
        assert(viewed(bones@)[n - 1] == bones@[n - 1]@);
        if same(bones[n - 1].name.as_str(), name) {
            return Some(n - 1);
        }
        n = n - 1;
    }
    None
}

/// Bone `i` of a model as it stands in a frame of a sequence. A bone that the frame leaves out
/// stands as it was defined; the angles of its definition are in degrees.
pub open spec fn posed_bone(bones: Seq<BoneView>, frame: Seq<SmdPose>, i: int) -> PosedBoneView {
    let given = i < frame.len();
    PosedBoneView {
        name: bones[i].name,
        position: if given {
            frame[i].position
        } else {
            match bones[i].position {
                Some(p) => [p.x, p.y, p.z],
                None => origin(),
            }
        },
        rotation: if given {
            frame[i].rotation
        } else {
            match bones[i].rotation {
                Some(p) => [radians(p.x), radians(p.y), radians(p.z)],
                None => origin(),
            }
        },
        parent: match bones[i].parent {
            None => -1i32,
            Some(p) => match bone_named(bones, p, bones.len() as int) {
                Some(k) => k as i32,
                None => -1i32,
            },
        },
    }
}

/// The bones of a model as they stand in a frame of a sequence.
pub open spec fn posed_bones(bones: Seq<BoneView>, frame: Seq<SmdPose>) -> Seq<PosedBoneView> {
    Seq::new(bones.len(), |i: int| posed_bone(bones, frame, i))
}

/// Bone `i` of a model as it stands in a frame.
fn pose_bone(bones: &Vec<Bone>, frame: &Vec<SmdPose>, i: usize) -> (r: PosedBone)
    requires
        i < bones@.len(),
    ensures
        r@ == posed_bone(viewed(bones@), frame@, i as int),
{
    assert(viewed(bones@)[i as int] == bones@[i as int]@);
    let mut position: [u32; 3] = [0, 0, 0];
    let mut rotation: [u32; 3] = [0, 0, 0];
    proof {
        assert(position@ =~= origin()@);
        assert(position == origin());
    }
    if i < frame.len() {
        position = frame[i].position;
        rotation = frame[i].rotation;
    } else {
        if let Some(p) = bones[i].position {
            position = [p.x, p.y, p.z];
        }
        if let Some(p) = bones[i].rotation {
            rotation = [to_radians(p.x), to_radians(p.y), to_radians(p.z)];
            assert(rotation@ =~= [radians(p.x), radians(p.y), radians(p.z)]@);
        }
    }
    let mut parent: i32 = -1;
    if let Some(p) = &bones[i].parent {
        if let Some(k) = find_bone_named(bones, p.as_str()) {
            parent = #[verifier::truncate]
            (k as i32);
        }
    }
    PosedBone { name: bones[i].name.clone(), position, rotation, parent }
}

/// The bones of a model as they stand in a frame of a sequence, in the order of the model.
pub fn sequence_pose_world(bones: &Vec<Bone>, frame: &Vec<SmdPose>) -> (r: Vec<PosedBone>)
    ensures
        viewed(r@) == posed_bones(viewed(bones@), frame@),
{
    let ghost want = posed_bones(viewed(bones@), frame@);
    let mut out: Vec<PosedBone> = Vec::new();
    let mut i: usize = 0;
    while i < bones.len()
        invariant
            i <= bones@.len(),
            want == posed_bones(viewed(bones@), frame@),
            viewed(out@) == want.take(i as int),
        decreases bones@.len() - i,
    {
        let b: PosedBone = pose_bone(bones, frame, i);
        assert(b@ == want[i as int]);
        out.push(b);
        assert(viewed(out@) =~= want.take(i + 1));
        i = i + 1;
    }
    assert(viewed(out@) =~= want);
    out
}

} // verus!
