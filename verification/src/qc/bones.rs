//! The table of bones: those that were defined, those of the meshes, and their order.
use vstd::prelude::*;

use super::lexer::{find_name, name_index, texts};
use super::model::{Bone, BoneView, Pair, PairView};
use crate::phy::pose::{find_node_with, node_with};
use crate::seqs::{viewed, viewed_if, viewing};
use crate::smd::{node_views, NodeView, Smd, SmdNode, SmdView};
use crate::text::{lower, same_but_case};

verus! {

broadcast use viewing;

/// The first bone with the given name, in any ASCII case, from `i` on.
pub open spec fn find_bone(list: Seq<BoneView>, name: Seq<char>, i: int) -> Option<int>
    decreases list.len() - i,
{
    if i < 0 || i >= list.len() {
        None
    } else if lower(list[i].name) == lower(name) {
        Some(i)
    } else {
        find_bone(list, name, i + 1)
    }
}

/// The first bone with the given name, in any ASCII case.
pub fn bone_index(list: &Vec<Bone>, name: &str) -> (r: Option<usize>)
    ensures
        match r {
            Some(i) => i < list@.len() && find_bone(viewed(list@), name@, 0) == Some(i as int),
            None => find_bone(viewed(list@), name@, 0) is None,
        },
{
    let mut i: usize = 0;
    while i < list.len()
        invariant
            i <= list@.len(),
            find_bone(viewed(list@), name@, i as int) == find_bone(viewed(list@), name@, 0),
        decreases list@.len() - i,
    {
        assert(viewed(list@)[i as int] == list@[i as int]@);
        if same_but_case(list[i].name.as_str(), name) {
            return Some(i);
        }
        i = i + 1;
    }
    None
}

/// A bone added, unless one with its name is there.
pub open spec fn with_bone(bones: Seq<BoneView>, b: BoneView) -> Seq<BoneView> {
    if find_bone(bones, b.name, 0) is Some {
        bones
    } else {
        bones.push(b)
    }
}

/// Adds a bone, unless one with its name is there.
fn add_bone(bones: &mut Vec<Bone>, b: Bone)
    ensures
        viewed(final(bones)@) == with_bone(viewed(old(bones)@), b@),
{
    if bone_index(bones, b.name.as_str()).is_none() {
        bones.push(b);
    }
}

/// Bones added, from the `k`-th on.
pub open spec fn with_bones(bones: Seq<BoneView>, list: Seq<BoneView>, k: int) -> Seq<BoneView>
    decreases list.len() - k,
{
    if k < 0 || k >= list.len() {
        bones
    } else {
        with_bones(with_bone(bones, list[k]), list, k + 1)
    }
}

/// A bone of which only the name is known.
pub open spec fn bare_bone(name: Seq<char>) -> BoneView {
    BoneView {
        name,
        parent: None,
        position: None,
        rotation: None,
        surface_prop: None,
        bonemerge: false,
        pre_aligned: None,
        realign_position: None,
        realign_rotation: None,
    }
}

/// The bones of a mesh added, from the `k`-th on.
pub open spec fn with_nodes(bones: Seq<BoneView>, nodes: Seq<NodeView>, k: int) -> Seq<BoneView>
    decreases nodes.len() - k,
{
    if k < 0 || k >= nodes.len() {
        bones
    } else {
        with_nodes(with_bone(bones, bare_bone(nodes[k].name)), nodes, k + 1)
    }
}

/// The bones of meshes added, from the `k`-th on.
pub open spec fn with_meshes(bones: Seq<BoneView>, meshes: Seq<SmdView>, k: int) -> Seq<BoneView>
    decreases meshes.len() - k,
{
    if k < 0 || k >= meshes.len() {
        bones
    } else {
        with_meshes(with_nodes(bones, meshes[k].nodes, 0), meshes, k + 1)
    }
}

/// The bones that were defined, then those of the meshes, each name once.
pub open spec fn table(defined: Seq<BoneView>, meshes: Seq<SmdView>) -> Seq<BoneView> {
    with_meshes(with_bones(Seq::empty(), defined, 0), meshes, 0)
}

/// Adds the bones of a mesh.
fn add_nodes(bones: &mut Vec<Bone>, nodes: &Vec<SmdNode>)
    ensures
        viewed(final(bones)@) == with_nodes(viewed(old(bones)@), node_views(nodes@), 0),
{
    let mut k: usize = 0;
    while k < nodes.len()
        invariant
            k <= nodes@.len(),
            with_nodes(viewed(bones@), node_views(nodes@), k as int) == with_nodes(
                viewed(old(bones)@),
                node_views(nodes@),
                0,
            ),
        decreases nodes@.len() - k,
    {
        assert(node_views(nodes@)[k as int] == nodes@[k as int]@);
        add_bone(
            bones,
            Bone {
                name: nodes[k].name.clone(),
                parent: None,
                position: None,
                rotation: None,
                surface_prop: None,
                bonemerge: false,
                pre_aligned: None,
                realign_position: None,
                realign_rotation: None,
            },
        );
        k = k + 1;
    }
}

/// The bones that were defined, then those of the meshes, each name once.
pub fn build_table(defined: &Vec<Bone>, meshes: &Vec<Smd>) -> (r: Vec<Bone>)
    ensures
        viewed(r@) == table(viewed(defined@), viewed(meshes@)),
{
    let mut bones: Vec<Bone> = Vec::new();
    let mut k: usize = 0;
    while k < defined.len()
        invariant
            k <= defined@.len(),
            with_bones(viewed(bones@), viewed(defined@), k as int) == with_bones(
                Seq::empty(),
                viewed(defined@),
                0,
            ),
        decreases defined@.len() - k,
    {
        assert(viewed(defined@)[k as int] == defined@[k as int]@);
        add_bone(&mut bones, defined[k].copy());
        k = k + 1;
    }
    let mut m: usize = 0;
    while m < meshes.len()
        invariant
            m <= meshes@.len(),
            with_meshes(viewed(bones@), viewed(meshes@), m as int) == table(
                viewed(defined@),
                viewed(meshes@),
            ),
        decreases meshes@.len() - m,
    {
        assert(viewed(meshes@)[m as int] == meshes@[m as int]@);
        add_nodes(&mut bones, &meshes[m].nodes);
        m = m + 1;
    }
    bones
}

/// The place of the node that a node hangs from: the one whose own index its parent number gives.
pub open spec fn parent_of(nodes: Seq<NodeView>, n: NodeView) -> Option<int> {
    if n.parent < 0 {
        None
    } else {
        node_with(nodes, n.parent, nodes.len() as int)
    }
}

/// The name of the bone that a bone hangs from, as the nodes from `k` on say.
pub open spec fn parent_in(nodes: Seq<NodeView>, name: Seq<char>, k: int) -> Option<Seq<char>>
    decreases nodes.len() - k,
{
    if k < 0 || k >= nodes.len() {
        None
    } else {
        match parent_of(nodes, nodes[k]) {
            Some(p) => if lower(nodes[k].name) == lower(name) {
                Some(nodes[p].name)
            } else {
                parent_in(nodes, name, k + 1)
            },
            None => parent_in(nodes, name, k + 1),
        }
    }
}

/// The name of the bone that a bone hangs from, as the first mesh from `k` on that knows it says.
pub open spec fn parent_among(meshes: Seq<SmdView>, name: Seq<char>, k: int) -> Option<Seq<char>>
    decreases meshes.len() - k,
{
    if k < 0 || k >= meshes.len() {
        None
    } else {
        match parent_in(meshes[k].nodes, name, 0) {
            Some(p) => Some(p),
            None => parent_among(meshes, name, k + 1),
        }
    }
}

/// The name of the bone that a bone hangs from, as the nodes of a mesh say.
fn find_parent_in(nodes: &Vec<SmdNode>, name: &str) -> (r: Option<String>)
    ensures
        viewed_if(r) == parent_in(node_views(nodes@), name@, 0),
{
    let mut k: usize = 0;
    let total: usize = nodes.len();
    while k < total
        invariant
            k <= total,
            total == nodes@.len(),
            parent_in(node_views(nodes@), name@, k as int) == parent_in(
                node_views(nodes@),
                name@,
                0,
            ),
        decreases total - k,
    {
        assert(node_views(nodes@)[k as int] == nodes@[k as int]@);
        let p: i32 = nodes[k].parent;
        if same_but_case(nodes[k].name.as_str(), name) && p >= 0 {
            if let Some(j) = find_node_with(nodes, p) {
                assert(node_views(nodes@)[j as int] == nodes@[j as int]@);
                return Some(nodes[j].name.clone());
            }
        }
        k = k + 1;
    }
    None
}

/// The name of the bone that a bone hangs from, as the first mesh that knows it says.
fn find_parent(meshes: &Vec<Smd>, name: &str) -> (r: Option<String>)
    ensures
        viewed_if(r) == parent_among(viewed(meshes@), name@, 0),
{
    let mut k: usize = 0;
    while k < meshes.len()
        invariant
            k <= meshes@.len(),
            parent_among(viewed(meshes@), name@, k as int) == parent_among(
                viewed(meshes@),
                name@,
                0,
            ),
        decreases meshes@.len() - k,
    {
        assert(viewed(meshes@)[k as int] == meshes@[k as int]@);
        match find_parent_in(&meshes[k].nodes, name) {
            Some(p) => {
                return Some(p);
            },
            None => {},
        }
        k = k + 1;
    }
    None
}

/// A bone with its parent, and whether it follows a bone of another model.
pub open spec fn completed(b: BoneView, meshes: Seq<SmdView>, merged: Seq<Seq<char>>) -> BoneView {
    BoneView {
        parent: match b.parent {
            Some(p) => Some(p),
            None => parent_among(meshes, b.name, 0),
        },
        bonemerge: b.bonemerge || find_name(merged, b.name, 0) is Some,
        ..b
    }
}

/// Bones with their parents.
pub open spec fn completed_all(
    bones: Seq<BoneView>,
    meshes: Seq<SmdView>,
    merged: Seq<Seq<char>>,
) -> Seq<BoneView> {
    Seq::new(bones.len(), |i: int| completed(bones[i], meshes, merged))
}

/// Completes a bone.
fn complete_bone(b: &Bone, meshes: &Vec<Smd>, merged: &Vec<String>) -> (r: Bone)
    ensures
        r@ == completed(b@, viewed(meshes@), viewed(merged@)),
{
    let mut b: Bone = b.copy();
    if b.parent.is_none() {
        b.parent = find_parent(meshes, b.name.as_str());
    }
    assert(texts(merged@) =~= viewed(merged@));
    if name_index(merged, b.name.as_str()).is_some() {
        b.bonemerge = true;
    }
    b
}

/// Completes bones.
pub fn complete(bones: &Vec<Bone>, meshes: &Vec<Smd>, merged: &Vec<String>) -> (r: Vec<Bone>)
    ensures
        viewed(r@) == completed_all(viewed(bones@), viewed(meshes@), viewed(merged@)),
{
    let mut out: Vec<Bone> = Vec::new();
    let mut k: usize = 0;
    let ghost want = completed_all(viewed(bones@), viewed(meshes@), viewed(merged@));
    while k < bones.len()
        invariant
            k <= bones@.len(),
            want == completed_all(viewed(bones@), viewed(meshes@), viewed(merged@)),
            viewed(out@) == want.take(k as int),
        decreases bones@.len() - k,
    {
        let ghost before = out@;
        let b: Bone = complete_bone(&bones[k], meshes, merged);
        assert(b@ == want[k as int]);
        out.push(b);
        assert(viewed(out@) =~= want.take(k + 1));
        k = k + 1;
    }
    assert(viewed(out@) =~= want);
    out
}

/// Bones with what they are made of, from the `k`-th note on.
pub open spec fn with_props(bones: Seq<BoneView>, props: Seq<PairView>, k: int) -> Seq<BoneView>
    decreases props.len() - k,
{
    if k < 0 || k >= props.len() {
        bones
    } else {
        with_props(
            match find_bone(bones, props[k].a, 0) {
                Some(i) => bones.update(
                    i,
                    BoneView { surface_prop: Some(props[k].b), ..bones[i] },
                ),
                None => bones,
            },
            props,
            k + 1,
        )
    }
}

/// Notes what bones are made of.
pub fn set_props(bones: &mut Vec<Bone>, props: &Vec<Pair>)
    ensures
        viewed(final(bones)@) == with_props(viewed(old(bones)@), viewed(props@), 0),
{
    let mut k: usize = 0;
    while k < props.len()
        invariant
            k <= props@.len(),
            with_props(viewed(bones@), viewed(props@), k as int) == with_props(
                viewed(old(bones)@),
                viewed(props@),
                0,
            ),
        decreases props@.len() - k,
    {
        assert(viewed(props@)[k as int] == props@[k as int]@);
        if let Some(i) = bone_index(bones, props[k].a.as_str()) {
            let ghost before = viewed(bones@);
            bones[i].surface_prop = Some(props[k].b.clone());
            assert(viewed(bones@) =~= before.update(
                i as int,
                BoneView { surface_prop: Some(props@[k as int].b@), ..before[i as int] },
            ));
        }
        k = k + 1;
    }
}

/// Whether a bone can be placed: it has no parent, or one that is not among the bones, or one that
/// is placed.
pub open spec fn is_ready(bones: Seq<BoneView>, sorted: Seq<BoneView>, b: BoneView) -> bool {
    match b.parent {
        None => true,
        Some(p) => find_bone(bones, p, 0) is None || find_bone(sorted, p, 0) is Some,
    }
}

/// One round over the bones, from the `k`-th on: each that is not placed and can be is placed.
pub open spec fn one_round(bones: Seq<BoneView>, sorted: Seq<BoneView>, k: int) -> Seq<BoneView>
    decreases bones.len() - k,
{
    if k < 0 || k >= bones.len() {
        sorted
    } else if find_bone(sorted, bones[k].name, 0) is None && is_ready(bones, sorted, bones[k]) {
        one_round(bones, sorted.push(bones[k]), k + 1)
    } else {
        one_round(bones, sorted, k + 1)
    }
}

/// The bones from the `k`-th on that are not placed.
pub open spec fn not_placed(bones: Seq<BoneView>, sorted: Seq<BoneView>, k: int) -> Seq<BoneView>
    decreases bones.len() - k,
{
    if k < 0 || k >= bones.len() {
        Seq::empty()
    } else if find_bone(sorted, bones[k].name, 0) is None {
        seq![bones[k]] + not_placed(bones, sorted, k + 1)
    } else {
        not_placed(bones, sorted, k + 1)
    }
}

/// Rounds over the bones until all are placed or none can be; those that are left come last.
pub open spec fn rounds(bones: Seq<BoneView>, sorted: Seq<BoneView>) -> Seq<BoneView>
    decreases not_placed(bones, sorted, 0).len(),
    via rounds_end
{
    if sorted.len() == bones.len() {
        sorted
    } else {
        let next = one_round(bones, sorted, 0);
        if next.len() == sorted.len() {
            sorted + not_placed(bones, sorted, 0)
        } else {
            rounds(bones, next)
        }
    }
}

#[via_fn]
proof fn rounds_end(bones: Seq<BoneView>, sorted: Seq<BoneView>) {
    let next = one_round(bones, sorted, 0);
    if next.len() != sorted.len() {
        round_places(bones, sorted, 0);
    }
}

/// Where a bone is found.
proof fn found(list: Seq<BoneView>, name: Seq<char>, i: int)
    requires
        0 <= i <= list.len(),
    ensures
        find_bone(list, name, i) matches Some(j) ==> i <= j < list.len() && lower(list[j].name)
            == lower(name),
        find_bone(list, name, i) is None ==> forall|j: int|
            i <= j < list.len() ==> lower(#[trigger] list[j].name) != lower(name),
    decreases list.len() - i,
{
    if i < list.len() && lower(list[i].name) != lower(name) {
        found(list, name, i + 1);
    }
}

/// A bone is found exactly if one has its name.
proof fn found_if(list: Seq<BoneView>, name: Seq<char>, j: int)
    requires
        0 <= j < list.len(),
        lower(list[j].name) == lower(name),
    ensures
        find_bone(list, name, 0) is Some,
{
    found(list, name, 0);
}

/// What is found stays found when more bones come behind.
proof fn stays_found(a: Seq<BoneView>, b: Seq<BoneView>, name: Seq<char>)
    requires
        a.len() <= b.len(),
        b.take(a.len() as int) == a,
        find_bone(a, name, 0) is Some,
    ensures
        find_bone(b, name, 0) is Some,
{
    found(a, name, 0);
    let j = find_bone(a, name, 0)->0;
    assert(b.take(a.len() as int)[j] == b[j]);
    found_if(b, name, j);
}

/// Placing more bones leaves no more to place.
proof fn fewer_left(bones: Seq<BoneView>, a: Seq<BoneView>, b: Seq<BoneView>, k: int)
    requires
        0 <= k <= bones.len(),
        a.len() <= b.len(),
        b.take(a.len() as int) == a,
    ensures
        not_placed(bones, b, k).len() <= not_placed(bones, a, k).len(),
    decreases bones.len() - k,
{
    if k < bones.len() {
        fewer_left(bones, a, b, k + 1);
        if find_bone(a, bones[k].name, 0) is Some {
            stays_found(a, b, bones[k].name);
        }
    }
}

/// Placing a bone that was left leaves fewer.
proof fn one_fewer(bones: Seq<BoneView>, a: Seq<BoneView>, k: int, j: int)
    requires
        0 <= k <= j < bones.len(),
        find_bone(a, bones[j].name, 0) is None,
    ensures
        not_placed(bones, a.push(bones[j]), k).len() < not_placed(bones, a, k).len(),
    decreases bones.len() - k,
{
    let b = a.push(bones[j]);
    assert(b.take(a.len() as int) =~= a);
    found_if(b, bones[j].name, a.len() as int);
    if k == j {
        fewer_left(bones, a, b, k + 1);
    } else {
        one_fewer(bones, a, k + 1, j);
        if find_bone(a, bones[k].name, 0) is Some {
            stays_found(a, b, bones[k].name);
        }
    }
}

/// A round keeps what is placed and leaves fewer if it places any.
proof fn round_places(bones: Seq<BoneView>, sorted: Seq<BoneView>, k: int)
    requires
        0 <= k <= bones.len(),
    ensures
        one_round(bones, sorted, k).len() >= sorted.len(),
        one_round(bones, sorted, k).take(sorted.len() as int) == sorted,
        one_round(bones, sorted, k).len() > sorted.len() ==> not_placed(
            bones,
            one_round(bones, sorted, k),
            0,
        ).len() < not_placed(bones, sorted, 0).len(),
    decreases bones.len() - k,
{
    let all = one_round(bones, sorted, k);
    if k >= bones.len() {
        assert(sorted.take(sorted.len() as int) =~= sorted);
    } else if find_bone(sorted, bones[k].name, 0) is None && is_ready(bones, sorted, bones[k]) {
        let next = sorted.push(bones[k]);
        round_places(bones, next, k + 1);
        one_fewer(bones, sorted, 0, k);
        assert(all.take(sorted.len() as int) =~= all.take(next.len() as int).take(
            sorted.len() as int,
        ));
        assert(next.take(sorted.len() as int) =~= sorted);
        if all.len() == next.len() {
            assert(all.take(next.len() as int) =~= all);
        }
    } else {
        round_places(bones, sorted, k + 1);
    }
}

/// The bones with each parent before its children, as far as that can be.
pub open spec fn parents_first(bones: Seq<BoneView>) -> Seq<BoneView> {
    rounds(bones, Seq::empty())
}

/// Tells whether a bone can be placed.
fn ready(bones: &Vec<Bone>, sorted: &Vec<Bone>, b: &Bone) -> (r: bool)
    ensures
        r == is_ready(viewed(bones@), viewed(sorted@), b@),
{
    match &b.parent {
        None => true,
        Some(p) => bone_index(bones, p.as_str()).is_none() || bone_index(
            sorted,
            p.as_str(),
        ).is_some(),
    }
}

/// One round over the bones.
fn run_round(bones: &Vec<Bone>, sorted: &mut Vec<Bone>)
    ensures
        viewed(final(sorted)@) == one_round(viewed(bones@), viewed(old(sorted)@), 0),
{
    let mut k: usize = 0;
    while k < bones.len()
        invariant
            k <= bones@.len(),
            one_round(viewed(bones@), viewed(sorted@), k as int) == one_round(
                viewed(bones@),
                viewed(old(sorted)@),
                0,
            ),
        decreases bones@.len() - k,
    {
        assert(viewed(bones@)[k as int] == bones@[k as int]@);
        if bone_index(sorted, bones[k].name.as_str()).is_none() && ready(
            bones,
            sorted,
            &bones[k],
        ) {
            sorted.push(bones[k].copy());
        }
        k = k + 1;
    }
}

/// Puts the bones that are not placed behind the others.
fn put_rest(bones: &Vec<Bone>, sorted: Vec<Bone>) -> (r: Vec<Bone>)
    ensures
        viewed(r@) == viewed(sorted@) + not_placed(viewed(bones@), viewed(sorted@), 0),
{
    let ghost v = viewed(bones@);
    let ghost p = viewed(sorted@);
    let mut rest: Vec<Bone> = Vec::new();
    let mut k: usize = 0;
    assert(viewed(rest@) + not_placed(v, p, 0) =~= not_placed(v, p, 0));
    while k < bones.len()
        invariant
            k <= bones@.len(),
            v == viewed(bones@),
            p == viewed(sorted@),
            viewed(rest@) + not_placed(v, p, k as int) == not_placed(v, p, 0),
        decreases bones@.len() - k,
    {
        assert(v[k as int] == bones@[k as int]@);
        let ghost before = viewed(rest@);
        let ghost others = not_placed(v, p, k + 1);
        if bone_index(&sorted, bones[k].name.as_str()).is_none() {
            rest.push(bones[k].copy());
            assert(before + (seq![v[k as int]] + others) =~= viewed(rest@) + others);
        }
        k = k + 1;
    }
    assert(viewed(rest@) + not_placed(v, p, k as int) =~= viewed(rest@));
    let mut out: Vec<Bone> = sorted;
    let ghost a = out@;
    let ghost b = rest@;
    out.append(&mut rest);
    assert(viewed(out@) =~= viewed(a) + viewed(b));
    out
}

/// The bones with each parent before its children, as far as that can be; bones whose parents go
/// round in a circle come last.
pub fn sort_parents_first(bones: &Vec<Bone>) -> (r: Vec<Bone>)
    ensures
        viewed(r@) == parents_first(viewed(bones@)),
{
    let mut sorted: Vec<Bone> = Vec::new();
    let ghost v = viewed(bones@);
    loop
        invariant
            v == viewed(bones@),
            rounds(v, viewed(sorted@)) == parents_first(v),
        decreases not_placed(v, viewed(sorted@), 0).len(),
    {
        if sorted.len() == bones.len() {
            return sorted;
        }
        let n: usize = sorted.len();
        proof {
            round_places(v, viewed(sorted@), 0);
        }
        let ghost before = viewed(sorted@);
        run_round(bones, &mut sorted);
        if sorted.len() == n {
            assert(viewed(sorted@).take(n as int) =~= viewed(sorted@));
            assert(viewed(sorted@) == before);
            return put_rest(bones, sorted);
        }
    }
}

/// No two bones have the same name, in any ASCII case.
pub open spec fn names_differ(bones: Seq<BoneView>) -> bool {
    forall|i: int, j: int|
        0 <= i < j < bones.len() ==> lower(#[trigger] bones[i].name) != lower(
            #[trigger] bones[j].name,
        )
}

proof fn with_bone_differs(bones: Seq<BoneView>, b: BoneView)
    requires
        names_differ(bones),
    ensures
        names_differ(with_bone(bones, b)),
{
    found(bones, b.name, 0);
}

proof fn with_bones_differ(bones: Seq<BoneView>, list: Seq<BoneView>, k: int)
    requires
        names_differ(bones),
    ensures
        names_differ(with_bones(bones, list, k)),
    decreases list.len() - k,
{
    if 0 <= k < list.len() {
        with_bone_differs(bones, list[k]);
        with_bones_differ(with_bone(bones, list[k]), list, k + 1);
    }
}

proof fn with_nodes_differ(bones: Seq<BoneView>, nodes: Seq<NodeView>, k: int)
    requires
        names_differ(bones),
    ensures
        names_differ(with_nodes(bones, nodes, k)),
    decreases nodes.len() - k,
{
    if 0 <= k < nodes.len() {
        with_bone_differs(bones, bare_bone(nodes[k].name));
        with_nodes_differ(with_bone(bones, bare_bone(nodes[k].name)), nodes, k + 1);
    }
}

proof fn with_meshes_differ(bones: Seq<BoneView>, meshes: Seq<SmdView>, k: int)
    requires
        names_differ(bones),
    ensures
        names_differ(with_meshes(bones, meshes, k)),
    decreases meshes.len() - k,
{
    if 0 <= k < meshes.len() {
        with_nodes_differ(bones, meshes[k].nodes, 0);
        with_meshes_differ(with_nodes(bones, meshes[k].nodes, 0), meshes, k + 1);
    }
}

/// The table of bones holds each name once, whatever was defined and whatever the meshes have.
pub proof fn bones_are_listed_once(defined: Seq<BoneView>, meshes: Seq<SmdView>)
    ensures
        names_differ(table(defined, meshes)),
{
    with_bones_differ(Seq::empty(), defined, 0);
    with_meshes_differ(with_bones(Seq::empty(), defined, 0), meshes, 0);
}

/// What meshes say and what bones are made of changes neither the names nor the order of bones.
pub proof fn completing_keeps_the_names(
    bones: Seq<BoneView>,
    meshes: Seq<SmdView>,
    merged: Seq<Seq<char>>,
    props: Seq<PairView>,
)
    ensures
        ({
            let done = with_props(completed_all(bones, meshes, merged), props, 0);
            &&& done.len() == bones.len()
            &&& forall|i: int| 0 <= i < bones.len() ==> (#[trigger] done[i]).name == bones[i].name
        }),
{
    props_keep_the_names(completed_all(bones, meshes, merged), props, 0);
}

proof fn props_keep_the_names(bones: Seq<BoneView>, props: Seq<PairView>, k: int)
    ensures
        with_props(bones, props, k).len() == bones.len(),
        forall|i: int|
            0 <= i < bones.len() ==> (#[trigger] with_props(bones, props, k)[i]).name
                == bones[i].name,
    decreases props.len() - k,
{
    if 0 <= k < props.len() {
        let next = match find_bone(bones, props[k].a, 0) {
            Some(i) => bones.update(i, BoneView { surface_prop: Some(props[k].b), ..bones[i] }),
            None => bones,
        };
        found(bones, props[k].a, 0);
        props_keep_the_names(next, props, k + 1);
    }
}

/// Each bone stands behind its parent, if that is among the bones.
pub open spec fn behind_parents(bones: Seq<BoneView>, sorted: Seq<BoneView>) -> bool {
    forall|i: int|
        0 <= i < sorted.len() ==> #[trigger] is_ready(bones, sorted.take(i), sorted[i])
}

/// The bones on the way: some of the bones, each once, each behind its parent.
spec fn half_sorted(bones: Seq<BoneView>, sorted: Seq<BoneView>) -> bool {
    &&& behind_parents(bones, sorted)
    &&& names_differ(sorted)
    &&& forall|i: int| 0 <= i < sorted.len() ==> bones.contains(#[trigger] sorted[i])
}

proof fn round_keeps(bones: Seq<BoneView>, sorted: Seq<BoneView>, k: int)
    requires
        half_sorted(bones, sorted),
        0 <= k <= bones.len(),
    ensures
        half_sorted(bones, one_round(bones, sorted, k)),
    decreases bones.len() - k,
{
    if k < bones.len() {
        if find_bone(sorted, bones[k].name, 0) is None && is_ready(bones, sorted, bones[k]) {
            let next = sorted.push(bones[k]);
            found(sorted, bones[k].name, 0);
            assert forall|i: int| 0 <= i < next.len() implies #[trigger] is_ready(
                bones,
                next.take(i),
                next[i],
            ) by {
                if i < sorted.len() {
                    assert(next.take(i) =~= sorted.take(i));
                    assert(is_ready(bones, sorted.take(i), sorted[i]));
                } else {
                    assert(next.take(i) =~= sorted);
                }
            }
            round_keeps(bones, next, k + 1);
        } else {
            round_keeps(bones, sorted, k + 1);
        }
    }
}

/// A round places a bone as long as one can be.
proof fn round_moves(bones: Seq<BoneView>, sorted: Seq<BoneView>, k: int, j: int)
    requires
        0 <= k <= j < bones.len(),
        find_bone(sorted, bones[j].name, 0) is None,
        is_ready(bones, sorted, bones[j]),
    ensures
        one_round(bones, sorted, k).len() > sorted.len(),
    decreases bones.len() - k,
{
    if find_bone(sorted, bones[k].name, 0) is None && is_ready(bones, sorted, bones[k]) {
        round_places(bones, sorted.push(bones[k]), k + 1);
    } else {
        round_moves(bones, sorted, k + 1, j);
    }
}

/// Ranks by which each bone stands above its children.
pub open spec fn ranks_fall(bones: Seq<BoneView>, ranks: Seq<nat>) -> bool {
    &&& ranks.len() == bones.len()
    &&& forall|i: int|
        0 <= i < bones.len() ==> match (#[trigger] bones[i]).parent {
            Some(p) => match find_bone(bones, p, 0) {
                Some(j) => ranks[j] < ranks[i],
                None => true,
            },
            None => true,
        }
}

/// Of bones that are not placed, one can be.
proof fn one_is_ready(
    bones: Seq<BoneView>,
    sorted: Seq<BoneView>,
    ranks: Seq<nat>,
    j: int,
) -> (r: int)
    requires
        ranks_fall(bones, ranks),
        0 <= j < bones.len(),
        find_bone(sorted, bones[j].name, 0) is None,
    ensures
        0 <= r < bones.len(),
        find_bone(sorted, bones[r].name, 0) is None,
        is_ready(bones, sorted, bones[r]),
    decreases ranks[j],
{
    if is_ready(bones, sorted, bones[j]) {
        j
    } else {
        let p = bones[j].parent->0;
        let i = find_bone(bones, p, 0)->0;
        found(bones, p, 0);
        assert(lower(bones[i].name) == lower(p));
        same_search(sorted, bones[i].name, p, 0);
        one_is_ready(bones, sorted, ranks, i)
    }
}

/// Names that differ in case alone are found in the same place.
proof fn same_search(list: Seq<BoneView>, a: Seq<char>, b: Seq<char>, i: int)
    requires
        lower(a) == lower(b),
    ensures
        find_bone(list, a, i) == find_bone(list, b, i),
    decreases list.len() - i,
{
    if 0 <= i < list.len() && lower(list[i].name) != lower(a) {
        same_search(list, a, b, i + 1);
    }
}

proof fn all_placed(bones: Seq<BoneView>, sorted: Seq<BoneView>, k: int)
    requires
        0 <= k <= bones.len(),
        forall|j: int|
            0 <= j < bones.len() ==> find_bone(sorted, (#[trigger] bones[j]).name, 0) is Some,
    ensures
        not_placed(bones, sorted, k).len() == 0,
    decreases bones.len() - k,
{
    if k < bones.len() {
        assert(find_bone(sorted, bones[k].name, 0) is Some);
        all_placed(bones, sorted, k + 1);
    }
}

/// Bones that are all there, each once, are as many.
proof fn all_there(bones: Seq<BoneView>, sorted: Seq<BoneView>)
    requires
        names_differ(bones),
        half_sorted(bones, sorted),
        sorted.len() == bones.len() || forall|j: int|
            0 <= j < bones.len() ==> find_bone(sorted, (#[trigger] bones[j]).name, 0) is Some,
    ensures
        sorted.len() == bones.len(),
        forall|j: int| 0 <= j < bones.len() ==> sorted.contains(#[trigger] bones[j]),
{
    assert(sorted.no_duplicates()) by {
        assert forall|i: int, j: int| 0 <= i < sorted.len() && 0 <= j < sorted.len() && i
            != j implies sorted[i] != sorted[j] by {
            if i < j {
                assert(lower(sorted[i].name) != lower(sorted[j].name));
            } else {
                assert(lower(sorted[j].name) != lower(sorted[i].name));
            }
        }
    }
    assert(bones.no_duplicates()) by {
        assert forall|i: int, j: int| 0 <= i < bones.len() && 0 <= j < bones.len() && i
            != j implies bones[i] != bones[j] by {
            if i < j {
                assert(lower(bones[i].name) != lower(bones[j].name));
            } else {
                assert(lower(bones[j].name) != lower(bones[i].name));
            }
        }
    }
    sorted.unique_seq_to_set();
    bones.unique_seq_to_set();
    assert(sorted.to_set().subset_of(bones.to_set())) by {
        assert forall|b: BoneView| sorted.to_set().contains(b) implies bones.to_set().contains(b) by {
            let i = choose|i: int| 0 <= i < sorted.len() && sorted[i] == b;
            assert(bones.contains(sorted[i]));
        }
    }
    if sorted.len() == bones.len() {
        vstd::set_lib::lemma_subset_equality(sorted.to_set(), bones.to_set());
        assert forall|j: int| 0 <= j < bones.len() implies sorted.contains(
            #[trigger] bones[j],
        ) by {
            assert(bones.to_set().contains(bones[j]));
        }
    } else {
        assert forall|j: int| 0 <= j < bones.len() implies sorted.contains(
            #[trigger] bones[j],
        ) by {
            found(sorted, bones[j].name, 0);
            let i = find_bone(sorted, bones[j].name, 0)->0;
            assert(bones.contains(sorted[i]));
            let k = choose|k: int| 0 <= k < bones.len() && bones[k] == sorted[i];
            assert(lower(bones[k].name) == lower(bones[j].name));
            if k < j {
                assert(lower(bones[k].name) != lower(bones[j].name));
            } else if j < k {
                assert(lower(bones[j].name) != lower(bones[k].name));
            }
        }
        assert(sorted.to_set() =~= bones.to_set()) by {
            assert forall|b: BoneView| bones.to_set().contains(b) implies sorted.to_set().contains(
                b,
            ) by {
                let j = choose|j: int| 0 <= j < bones.len() && bones[j] == b;
                assert(sorted.contains(bones[j]));
            }
        }
    }
}

proof fn rounds_sort(bones: Seq<BoneView>, sorted: Seq<BoneView>, ranks: Seq<nat>)
    requires
        names_differ(bones),
        ranks_fall(bones, ranks),
        half_sorted(bones, sorted),
    ensures
        half_sorted(bones, rounds(bones, sorted)),
        rounds(bones, sorted).len() == bones.len(),
        forall|j: int|
            0 <= j < bones.len() ==> rounds(bones, sorted).contains(#[trigger] bones[j]),
    decreases not_placed(bones, sorted, 0).len(),
{
    if sorted.len() == bones.len() {
        all_there(bones, sorted);
    } else {
        let next = one_round(bones, sorted, 0);
        round_keeps(bones, sorted, 0);
        round_places(bones, sorted, 0);
        if next.len() == sorted.len() {
            assert forall|j: int| 0 <= j < bones.len() implies find_bone(
                sorted,
                (#[trigger] bones[j]).name,
                0,
            ) is Some by {
                if find_bone(sorted, bones[j].name, 0) is None {
                    let r = one_is_ready(bones, sorted, ranks, j);
                    round_moves(bones, sorted, 0, r);
                }
            }
            all_placed(bones, sorted, 0);
            assert(sorted + not_placed(bones, sorted, 0) =~= sorted);
            all_there(bones, sorted);
        } else {
            rounds_sort(bones, next, ranks);
        }
    }
}

/// Sorting keeps the bones and puts each behind its parent. The parents must not go round in a
/// circle: there must be ranks by which each bone stands above its children.
pub proof fn parents_come_first(bones: Seq<BoneView>, ranks: Seq<nat>)
    requires
        names_differ(bones),
        ranks_fall(bones, ranks),
    ensures
        behind_parents(bones, parents_first(bones)),
        names_differ(parents_first(bones)),
        parents_first(bones).len() == bones.len(),
        forall|j: int|
            0 <= j < bones.len() ==> parents_first(bones).contains(#[trigger] bones[j]),
        forall|i: int|
            0 <= i < parents_first(bones).len() ==> bones.contains(
                #[trigger] parents_first(bones)[i],
            ),
{
    rounds_sort(bones, Seq::empty(), ranks);
}

} // verus!
