//! From a collision mesh and what a script says of it to the solids of a ragdoll.
use std::collections::HashMap;
use vstd::prelude::*;

use super::joints::{
    bone_solids, kept, list_group_points, owned_exist, solids_move_their_own_bones, spans_solid,
};
use super::names::{list_names, name_list};
use super::pose::{find_node_with, node_with};
use super::ragdoll::{
    all_owners, group_by_bone_merged, group_of, groups, leads_to, would_cycle, GroupView,
    RagdollGroup,
};
use crate::qc::model::{JointOverride, JointOverrideView, Pair, PairView, Physics, PhysicsView};

use crate::seqs::{viewed, viewed_if, viewing};
use crate::single::{are_equal, equal, ONE};
use crate::smd::{
    decimal_text, last_node, node_views, NodeView, Smd, SmdNode, SmdView, TriangleView,
};
use crate::text::{decimal, same};
use crate::words::{shown, shown_text};

verus! {

broadcast use {vstd::std_specs::hash::group_hash_axioms, viewing};

/// The names of bones.
pub open spec fn node_names(nodes: Seq<NodeView>) -> Seq<Seq<char>> {
    Seq::new(nodes.len(), |i: int| nodes[i].name)
}

/// The names of bones.
fn list_node_names(nodes: &Vec<SmdNode>) -> (r: Vec<String>)
    ensures
        viewed(r@) == node_names(node_views(nodes@)),
{
    let ghost want = node_names(node_views(nodes@));
    let mut out: Vec<String> = Vec::new();
    let mut k: usize = 0;
    while k < nodes.len()
        invariant
            k <= nodes@.len(),
            want == node_names(node_views(nodes@)),
            viewed(out@) == want.take(k as int),
        decreases nodes@.len() - k,
    {
        assert(want[k as int] == nodes@[k as int].name@);
        out.push(nodes[k].name.clone());
        assert(viewed(out@) =~= want.take(k + 1));
        k = k + 1;
    }
    assert(viewed(out@) =~= want);
    out
}

/// The index of the bone with the given name, if there is one; of several that of the last.
pub open spec fn index_named(nodes: Seq<NodeView>, name: Seq<char>) -> Option<i32> {
    match last_node(nodes, name, nodes.len() as int) {
        Some(i) => Some(nodes[i].index),
        None => None,
    }
}

/// What is wrong with the `i`-th merge where a bone is not there.
pub open spec fn merge_unknown(m: SmdView, i: int, p: PairView) -> Seq<char> {
    "[physics.merge]["@ + decimal(i as nat) + "] 的骨骼对 ("@ + shown_text(p.a) + ", "@
        + shown_text(p.b) + ") 里有名字不在碰撞 SMD 的 nodes 里。可用的骨骼："@ + name_list(
        node_names(m.nodes),
    )
}

/// What is wrong with the `i`-th merge where it closes a circle.
pub open spec fn merge_circle(i: int, p: PairView) -> Seq<char> {
    "[physics.merge]["@ + decimal(i as nat) + "] 的 ("@ + shown_text(p.a) + ", "@ + shown_text(p.b)
        + ") 会形成归并环"@
}

/// The merges from the `i`-th on, added to others: the second bone of a pair goes into the first.
pub open spec fn merges_from(
    m: SmdView,
    pairs: Seq<PairView>,
    merged: Map<i32, i32>,
    i: int,
) -> Result<Map<i32, i32>, Seq<char>>
    decreases pairs.len() - i,
{
    if i < 0 || i >= pairs.len() {
        Ok(merged)
    } else {
        match (index_named(m.nodes, pairs[i].a), index_named(m.nodes, pairs[i].b)) {
            (Some(parent), Some(child)) => if parent == child {
                merges_from(m, pairs, merged, i + 1)
            } else if leads_to(merged, parent, child, m.nodes.len() + 1) {
                Err(merge_circle(i, pairs[i]))
            } else {
                merges_from(m, pairs, merged.insert(child, parent), i + 1)
            },
            _ => Err(merge_unknown(m, i, pairs[i])),
        }
    }
}

/// The index of the bone with the given name.
fn find_index_named(smd: &Smd, name: &str) -> (r: Option<i32>)
    ensures
        r == index_named(smd@.nodes, name@),
{
    match smd.node_index(name) {
        Some(i) => {
            assert(smd@.nodes[i as int] == smd.nodes@[i as int]@);
            Some(smd.nodes[i].index)
        },
        None => None,
    }
}

/// What is wrong with a merge where a bone is not there.
fn tell_unknown(smd: &Smd, i: usize, p: &Pair) -> (r: String)
    ensures
        r@ == merge_unknown(smd@, i as int, p@),
{
    let mut m: String = "[physics.merge][".to_owned();
    let n: String = decimal_text(i);
    m.push_str(n.as_str());
    m.push_str("] 的骨骼对 (");
    let a: String = shown(p.a.as_str());
    m.push_str(a.as_str());
    m.push_str(", ");
    let b: String = shown(p.b.as_str());
    m.push_str(b.as_str());
    m.push_str(") 里有名字不在碰撞 SMD 的 nodes 里。可用的骨骼：");
    let names: String = list_names(&list_node_names(&smd.nodes));
    m.push_str(names.as_str());
    m
}

/// What is wrong with a merge where it closes a circle.
fn tell_circle(i: usize, p: &Pair) -> (r: String)
    ensures
        r@ == merge_circle(i as int, p@),
{
    let mut m: String = "[physics.merge][".to_owned();
    let n: String = decimal_text(i);
    m.push_str(n.as_str());
    m.push_str("] 的 (");
    let a: String = shown(p.a.as_str());
    m.push_str(a.as_str());
    m.push_str(", ");
    let b: String = shown(p.b.as_str());
    m.push_str(b.as_str());
    m.push_str(") 会形成归并环");
    m
}

/// The merges that a script asks for.
pub fn merge_table(smd: &Smd, pairs: &Vec<Pair>) -> (r: Result<HashMap<i32, i32>, String>)
    ensures
        match (r, merges_from(smd@, viewed(pairs@), Map::empty(), 0)) {
            (Ok(a), Ok(b)) => a@ == b,
            (Err(a), Err(b)) => a@ == b,
            _ => false,
        },
{
    let ghost v = viewed(pairs@);
    let mut merged: HashMap<i32, i32> = HashMap::new();
    let mut i: usize = 0;
    while i < pairs.len()
        invariant
            i <= pairs@.len(),
            v == viewed(pairs@),
            merges_from(smd@, v, merged@, i as int) == merges_from(smd@, v, Map::empty(), 0),
        decreases pairs@.len() - i,
    {
        assert(v[i as int] == pairs@[i as int]@);
        match (
            find_index_named(smd, pairs[i].a.as_str()),
            find_index_named(smd, pairs[i].b.as_str()),
        ) {
            (Some(parent), Some(child)) => {
                if parent != child {
                    if would_cycle(&merged, parent, child, smd.nodes.len()) {
                        return Err(tell_circle(i, &pairs[i]));
                    }
                    merged.insert(child, parent);
                }
            },
            _ => {
                return Err(tell_unknown(smd, i, &pairs[i]));
            },
        }
        i = i + 1;
    }
    Ok(merged)
}

/// The names of groups.
pub open spec fn group_names(list: Seq<GroupView>) -> Seq<Seq<char>> {
    Seq::new(list.len(), |i: int| list[i].name)
}

/// The names of groups.
fn list_group_names(list: &Vec<RagdollGroup>) -> (r: Vec<String>)
    ensures
        viewed(r@) == group_names(viewed(list@)),
{
    let ghost want = group_names(viewed(list@));
    let mut out: Vec<String> = Vec::new();
    let mut k: usize = 0;
    while k < list.len()
        invariant
            k <= list@.len(),
            want == group_names(viewed(list@)),
            viewed(out@) == want.take(k as int),
        decreases list@.len() - k,
    {
        assert(want[k as int] == list@[k as int].name@);
        out.push(list[k].name.clone());
        assert(viewed(out@) =~= want.take(k + 1));
        k = k + 1;
    }
    assert(viewed(out@) =~= want);
    out
}

/// The first from `k` on of what joints have of their own whose joint has no triangles.
pub open spec fn stray_override(
    list: Seq<JointOverrideView>,
    names: Seq<Seq<char>>,
    k: int,
) -> Option<int>
    decreases list.len() - k,
{
    if k < 0 || k >= list.len() {
        None
    } else if names.contains(list[k].bone) {
        stray_override(list, names, k + 1)
    } else {
        Some(k)
    }
}

/// What is wrong where a joint has no triangles.
pub open spec fn no_triangles(bone: Seq<char>, names: Seq<Seq<char>>) -> Seq<char> {
    "[physics.joint_overrides] 里的骨骼 "@ + shown_text(bone)
        + " 没有碰撞几何。有碰撞几何的是："@ + name_list(names)
}

/// The triangles of a ragdoll, by bone, with the merges that a script asks for; or what is wrong.
pub open spec fn ragdoll_parts(m: SmdView, p: PhysicsView) -> Result<Seq<GroupView>, Seq<char>> {
    if m.triangles.len() == 0 {
        Err("SMD 里没有任何三角形"@)
    } else {
        match merges_from(m, p.merge, Map::empty(), 0) {
            Err(e) => Err(e),
            Ok(merged) => {
                let list = groups(m, merged);
                if list.len() == 0 {
                    Err("没有任何骨骼带碰撞几何"@)
                } else {
                    match stray_override(p.joint_overrides, group_names(list), 0) {
                        Some(k) => Err(
                            no_triangles(p.joint_overrides[k].bone, group_names(list)),
                        ),
                        None => Ok(list),
                    }
                }
            },
        }
    }
}

/// The first of what joints have of their own whose joint has no triangles.
fn find_stray(list: &Vec<JointOverride>, names: &Vec<String>) -> (r: Option<usize>)
    ensures
        match r {
            Some(k) => k < list@.len() && stray_override(viewed(list@), viewed(names@), 0) == Some(
                k as int,
            ),
            None => stray_override(viewed(list@), viewed(names@), 0) is None,
        },
{
    let ghost v = viewed(list@);
    let mut k: usize = 0;
    while k < list.len()
        invariant
            k <= list@.len(),
            v == viewed(list@),
            stray_override(v, viewed(names@), k as int) == stray_override(v, viewed(names@), 0),
        decreases list@.len() - k,
    {
        assert(v[k as int] == list@[k as int]@);
        if !crate::qc::sequence::is_among(names, list[k].bone.as_str()) {
            return Some(k);
        }
        k = k + 1;
    }
    None
}

/// The triangles of a ragdoll, by bone.
pub fn ragdoll_groups(smd: &Smd, phys: &Physics) -> (r: Result<Vec<RagdollGroup>, String>)
    requires
        smd.nodes@.len() < usize::MAX,
        smd.triangles@.len() <= u32::MAX,
    ensures
        match (r, ragdoll_parts(smd@, phys@)) {
            (Ok(a), Ok(b)) => viewed(a@) == b,
            (Err(a), Err(b)) => a@ == b,
            _ => false,
        },
{
    if smd.triangles.len() == 0 {
        return Err("SMD 里没有任何三角形".to_owned());
    }
    let merged: HashMap<i32, i32> = match merge_table(smd, &phys.merge) {
        Ok(m) => m,
        Err(e) => {
            return Err(e);
        },
    };
    let list: Vec<RagdollGroup> = group_by_bone_merged(smd, &merged);
    if list.len() == 0 {
        return Err("没有任何骨骼带碰撞几何".to_owned());
    }
    let names: Vec<String> = list_group_names(&list);
    if let Some(k) = find_stray(&phys.joint_overrides, &names) {
        assert(phys@.joint_overrides[k as int] == phys.joint_overrides@[k as int]@);
        let mut m: String = "[physics.joint_overrides] 里的骨骼 ".to_owned();
        let b: String = shown(phys.joint_overrides[k].bone.as_str());
        m.push_str(b.as_str());
        m.push_str(" 没有碰撞几何。有碰撞几何的是：");
        let all: String = list_names(&names);
        m.push_str(all.as_str());
        return Err(m);
    }
    Ok(list)
}

/// The numbers that a joint has.
#[derive(Debug, Clone, Copy, PartialEq, Eq, Structural)]
pub struct JointValues {
    /// The damping.
    pub damping: u32,
    /// The rotational damping.
    pub rot_damping: u32,
    /// The inertia.
    pub inertia: u32,
    /// The weight when mass is handed out.
    pub mass_bias: u32,
}

/// A number, or another where there is none.
pub open spec fn or_else(v: Option<u32>, other: u32) -> u32 {
    match v {
        Some(v) => v,
        None => other,
    }
}

/// A number, or another where there is none.
fn value_or(v: Option<u32>, other: u32) -> (r: u32)
    ensures
        r == or_else(v, other),
{
    match v {
        Some(v) => v,
        None => other,
    }
}

/// The numbers that all joints have.
pub open spec fn common_values(p: PhysicsView) -> JointValues {
    JointValues {
        damping: or_else(p.damping, 0),
        rot_damping: or_else(p.rot_damping, 0),
        inertia: or_else(p.inertia, ONE),
        mass_bias: ONE,
    }
}

/// What the joint of the given name has of its own, from `k` on.
pub open spec fn own_values(list: Seq<JointOverrideView>, name: Seq<char>, k: int) -> Option<int>
    decreases list.len() - k,
{
    if k < 0 || k >= list.len() {
        None
    } else if list[k].bone == name {
        Some(k)
    } else {
        own_values(list, name, k + 1)
    }
}

/// The numbers that a joint has: its own, else those that all have.
pub open spec fn joint_values(p: PhysicsView, name: Seq<char>) -> JointValues {
    let c = common_values(p);
    match own_values(p.joint_overrides, name, 0) {
        None => c,
        Some(k) => {
            let o = p.joint_overrides[k];
            JointValues {
                damping: or_else(o.damping, c.damping),
                rot_damping: or_else(o.rot_damping, c.rot_damping),
                inertia: or_else(o.inertia, c.inertia),
                mass_bias: or_else(o.mass_bias, c.mass_bias),
            }
        },
    }
}

/// What the joint of the given name has of its own.
fn find_own_values(list: &Vec<JointOverride>, name: &str) -> (r: Option<usize>)
    ensures
        match r {
            Some(k) => k < list@.len() && own_values(viewed(list@), name@, 0) == Some(k as int),
            None => own_values(viewed(list@), name@, 0) is None,
        },
{
    let mut k: usize = 0;
    while k < list.len()
        invariant
            k <= list@.len(),
            own_values(viewed(list@), name@, k as int) == own_values(viewed(list@), name@, 0),
        decreases list@.len() - k,
    {
        assert(viewed(list@)[k as int] == list@[k as int]@);
        if same(list[k].bone.as_str(), name) {
            return Some(k);
        }
        k = k + 1;
    }
    None
}

/// The numbers that a joint has.
pub fn resolve_joint(phys: &Physics, name: &str) -> (r: JointValues)
    ensures
        r == joint_values(phys@, name@),
{
    let c: JointValues = JointValues {
        damping: value_or(phys.damping, 0),
        rot_damping: value_or(phys.rot_damping, 0),
        inertia: value_or(phys.inertia, ONE),
        mass_bias: ONE,
    };
    match find_own_values(&phys.joint_overrides, name) {
        None => c,
        Some(k) => {
            assert(phys@.joint_overrides[k as int] == phys.joint_overrides@[k as int]@);
            let o: &JointOverride = &phys.joint_overrides[k];
            JointValues {
                damping: value_or(o.damping, c.damping),
                rot_damping: value_or(o.rot_damping, c.rot_damping),
                inertia: value_or(o.inertia, c.inertia),
                mass_bias: value_or(o.mass_bias, c.mass_bias),
            }
        },
    }
}

/// A solid of a ragdoll. A number that all joints have is not kept.
#[derive(Debug, Clone, PartialEq)]
pub struct RagdollSolid {
    /// The place of its triangles among the groups.
    pub group: usize,
    /// The index of its bone.
    pub bone: u32,
    /// The name of its bone.
    pub name: String,
    /// The name of the solid that it hangs from.
    pub parent: Option<String>,
    /// The damping, where it is its own.
    pub damping: Option<u32>,
    /// The rotational damping, where it is its own.
    pub rot_damping: Option<u32>,
    /// The inertia, where it is its own.
    pub inertia: Option<u32>,
    /// The weight when mass is handed out.
    pub mass_bias: u32,
}

/// A solid of a ragdoll as a mathematical value.
#[verifier::ext_equal]
pub struct RagdollSolidView {
    /// The place of its triangles among the groups.
    pub group: int,
    /// The index of its bone.
    pub bone: u32,
    /// The name of its bone.
    pub name: Seq<char>,
    /// The name of the solid that it hangs from.
    pub parent: Option<Seq<char>>,
    /// The damping, where it is its own.
    pub damping: Option<u32>,
    /// The rotational damping, where it is its own.
    pub rot_damping: Option<u32>,
    /// The inertia, where it is its own.
    pub inertia: Option<u32>,
    /// The weight when mass is handed out.
    pub mass_bias: u32,
}

impl View for RagdollSolid {
    type V = RagdollSolidView;

    open spec fn view(&self) -> RagdollSolidView {
        RagdollSolidView {
            group: self.group as int,
            bone: self.bone,
            name: self.name@,
            parent: viewed_if(self.parent),
            damping: self.damping,
            rot_damping: self.rot_damping,
            inertia: self.inertia,
            mass_bias: self.mass_bias,
        }
    }
}

/// A number, unless it is the common one.
pub open spec fn unless_common(v: u32, common: u32) -> Option<u32> {
    if are_equal(v, common) {
        None
    } else {
        Some(v)
    }
}

/// A number, unless it is the common one.
fn keep_own(v: u32, common: u32) -> (r: Option<u32>)
    ensures
        r == unless_common(v, common),
{
    if equal(v, common) {
        None
    } else {
        Some(v)
    }
}

/// The solid of group `k`.
pub open spec fn solid_of(p: PhysicsView, g: GroupView, k: int) -> RagdollSolidView {
    let c = common_values(p);
    let v = joint_values(p, g.name);
    RagdollSolidView {
        group: k,
        bone: g.bone,
        name: g.name,
        parent: g.parent,
        damping: unless_common(v.damping, c.damping),
        rot_damping: unless_common(v.rot_damping, c.rot_damping),
        inertia: unless_common(v.inertia, c.inertia),
        mass_bias: v.mass_bias,
    }
}

/// The solids of the first `n` groups that span one.
pub open spec fn solids_of(
    t: Seq<TriangleView>,
    p: PhysicsView,
    list: Seq<GroupView>,
    spans: Seq<bool>,
    n: int,
) -> Seq<RagdollSolidView>
    decreases n,
{
    if n <= 0 {
        Seq::empty()
    } else if spans_solid(t, list[n - 1], spans, n - 1) {
        solids_of(t, p, list, spans, n - 1).push(solid_of(p, list[n - 1], n - 1))
    } else {
        solids_of(t, p, list, spans, n - 1)
    }
}

/// The name of the bone that the bone of the given name hangs from.
pub open spec fn parent_name(nodes: Seq<NodeView>, name: Seq<char>) -> Option<Seq<char>> {
    match last_node(nodes, name, nodes.len() as int) {
        None => None,
        Some(i) => if nodes[i].parent < 0 {
            None
        } else {
            match node_with(nodes, nodes[i].parent, nodes.len() as int) {
                Some(k) => Some(nodes[k].name),
                None => None,
            }
        },
    }
}

/// The nearest bone at or above `cur` that has a solid, within `steps` steps. A longer way goes
/// round in a circle.
pub open spec fn solid_parent(
    nodes: Seq<NodeView>,
    names: Seq<Seq<char>>,
    cur: Option<Seq<char>>,
    steps: nat,
) -> Option<Seq<char>>
    decreases steps,
{
    match cur {
        None => None,
        Some(p) => if names.contains(p) {
            Some(p)
        } else if steps == 0 {
            None
        } else {
            solid_parent(nodes, names, parent_name(nodes, p), (steps - 1) as nat)
        },
    }
}

/// The names of solids.
pub open spec fn solid_names(list: Seq<RagdollSolidView>) -> Seq<Seq<char>> {
    Seq::new(list.len(), |i: int| list[i].name)
}

/// Solids that hang from solids.
pub open spec fn hung(nodes: Seq<NodeView>, list: Seq<RagdollSolidView>) -> Seq<RagdollSolidView> {
    Seq::new(
        list.len(),
        |i: int|
            RagdollSolidView {
                parent: solid_parent(nodes, solid_names(list), list[i].parent, nodes.len() + 1),
                ..list[i]
            },
    )
}

/// The solids of a ragdoll, or what is wrong. `spans` tells of each group of triangles whether its
/// points span a solid.
pub open spec fn ragdoll(m: SmdView, p: PhysicsView, spans: Seq<bool>) -> Result<
    Seq<RagdollSolidView>,
    Seq<char>,
> {
    match ragdoll_parts(m, p) {
        Err(e) => Err(e),
        Ok(list) => {
            let solids = solids_of(m.triangles, p, list, spans, list.len() as int);
            if solids.len() == 0 {
                Err("所有骨骼的碰撞几何都张不成凸包"@)
            } else {
                Ok(hung(m.nodes, solids))
            }
        },
    }
}

/// The solid of group `k`.
fn build_ragdoll_solid(phys: &Physics, g: &RagdollGroup, k: usize) -> (r: RagdollSolid)
    ensures
        r@ == solid_of(phys@, g@, k as int),
{
    let v: JointValues = resolve_joint(phys, g.name.as_str());
    RagdollSolid {
        group: k,
        bone: g.bone,
        name: g.name.clone(),
        parent: crate::qc::model::copy_name_if(&g.parent),
        damping: keep_own(v.damping, value_or(phys.damping, 0)),
        rot_damping: keep_own(v.rot_damping, value_or(phys.rot_damping, 0)),
        inertia: keep_own(v.inertia, value_or(phys.inertia, ONE)),
        mass_bias: v.mass_bias,
    }
}

/// The solids of the groups that span one.
fn build_solids(smd: &Smd, phys: &Physics, list: &Vec<RagdollGroup>, spans: &Vec<bool>) -> (r: Vec<
    RagdollSolid,
>)
    requires
        3 * smd.triangles@.len() < u32::MAX,
        ragdoll_parts(smd@, phys@) == Ok::<Seq<GroupView>, Seq<char>>(viewed(list@)),
    ensures
        viewed(r@) == solids_of(
            smd@.triangles,
            phys@,
            viewed(list@),
            spans@,
            list@.len() as int,
        ),
{
    let ghost v = viewed(list@);
    let ghost t = smd@.triangles;
    let ghost merged = merges_from(smd@, phys@.merge, Map::empty(), 0)->Ok_0;
    let mut out: Vec<RagdollSolid> = Vec::new();
    let mut k: usize = 0;
    while k < list.len()
        invariant
            k <= list@.len(),
            v == viewed(list@),
            v == groups(smd@, merged),
            t == smd@.triangles,
            3 * smd.triangles@.len() < u32::MAX,
            viewed(out@) == solids_of(t, phys@, v, spans@, k as int),
        decreases list@.len() - k,
    {
        assert(v[k as int] == list@[k as int]@);
        proof {
            let all = all_owners(smd@, merged);
            assert(v.len() == list@.len());
            assert(v.len() == all.len());
            let b = all[k as int] as i32;
            owned_exist(smd@, merged, b, t.len() as int);
            assert(v[k as int] == group_of(smd@, merged, b));
            assert(list@[k as int].faces@ == v[k as int].faces);
            assert(t.len() == smd.triangles@.len());
        }
        let points: Vec<[u32; 3]> = list_group_points(&smd.triangles, &list[k].faces);
        if points.len() >= 4 && k < spans.len() && spans[k] {
            out.push(build_ragdoll_solid(phys, &list[k], k));
        }
        k = k + 1;
    }
    out
}

/// The name of the bone that the bone of the given name hangs from.
fn find_parent_name(smd: &Smd, name: &str) -> (r: Option<String>)
    ensures
        viewed_if(r) == parent_name(smd@.nodes, name@),
{
    let i: usize = match smd.node_index(name) {
        Some(i) => i,
        None => {
            return None;
        },
    };
    assert(smd@.nodes[i as int] == smd.nodes@[i as int]@);
    if smd.nodes[i].parent < 0 {
        return None;
    }
    match find_node_with(&smd.nodes, smd.nodes[i].parent) {
        Some(k) => {
            assert(smd@.nodes[k as int] == smd.nodes@[k as int]@);
            Some(smd.nodes[k].name.clone())
        },
        None => None,
    }
}

/// The nearest bone at or above `start` that has a solid.
fn find_solid_parent(smd: &Smd, names: &Vec<String>, start: &Option<String>) -> (r: Option<String>)
    requires
        smd.nodes@.len() < usize::MAX,
    ensures
        viewed_if(r) == solid_parent(
            smd@.nodes,
            viewed(names@),
            viewed_if(*start),
            smd@.nodes.len() + 1,
        ),
{
    let mut cur: Option<String> = crate::qc::model::copy_name_if(start);
    let mut steps: usize = smd.nodes.len() + 1;
    let ghost want = solid_parent(
        smd@.nodes,
        viewed(names@),
        viewed_if(*start),
        smd@.nodes.len() + 1,
    );
    loop
        invariant
            solid_parent(smd@.nodes, viewed(names@), viewed_if(cur), steps as nat) == want,
            want == solid_parent(
                smd@.nodes,
                viewed(names@),
                viewed_if(*start),
                smd@.nodes.len() + 1,
            ),
        decreases steps,
    {
        let p: String = match cur {
            None => {
                return None;
            },
            Some(p) => p,
        };
        if crate::qc::sequence::is_among(names, p.as_str()) {
            return Some(p);
        }
        if steps == 0 {
            return None;
        }
        cur = find_parent_name(smd, p.as_str());
        steps = steps - 1;
    }
}

/// The names of solids.
fn list_solid_names(list: &Vec<RagdollSolid>) -> (r: Vec<String>)
    ensures
        viewed(r@) == solid_names(viewed(list@)),
{
    let ghost want = solid_names(viewed(list@));
    let mut out: Vec<String> = Vec::new();
    let mut k: usize = 0;
    while k < list.len()
        invariant
            k <= list@.len(),
            want == solid_names(viewed(list@)),
            viewed(out@) == want.take(k as int),
        decreases list@.len() - k,
    {
        assert(want[k as int] == list@[k as int].name@);
        out.push(list[k].name.clone());
        assert(viewed(out@) =~= want.take(k + 1));
        k = k + 1;
    }
    assert(viewed(out@) =~= want);
    out
}

/// Hangs solids from solids.
fn hang_solids(smd: &Smd, list: &mut Vec<RagdollSolid>)
    requires
        smd.nodes@.len() < usize::MAX,
    ensures
        viewed(final(list)@) == hung(smd@.nodes, viewed(old(list)@)),
{
    let ghost start = viewed(list@);
    let ghost want = hung(smd@.nodes, start);
    let names: Vec<String> = list_solid_names(list);
    let total: usize = list.len();
    let mut k: usize = 0;
    while k < total
        invariant
            total == list@.len() == start.len(),
            k <= total,
            smd.nodes@.len() < usize::MAX,
            viewed(names@) == solid_names(start),
            want == hung(smd@.nodes, start),
            forall|j: int|
                0 <= j < total ==> #[trigger] list@[j]@ == if j < k {
                    want[j]
                } else {
                    start[j]
                },
        decreases total - k,
    {
        assert(list@[k as int]@ == start[k as int]);
        let p: Option<String> = find_solid_parent(smd, &names, &list[k].parent);
        list[k].parent = p;
        assert(list@[k as int]@ == want[k as int]);
        k = k + 1;
    }
    assert(viewed(list@) =~= want);
}

/// The solids of a ragdoll: one for each bone with triangles that span one. `spans` tells of each
/// group of triangles whether its points span a solid.
pub fn ragdoll_solids(smd: &Smd, phys: &Physics, spans: &Vec<bool>) -> (r: Result<
    Vec<RagdollSolid>,
    String,
>)
    requires
        smd.nodes@.len() < usize::MAX,
        3 * smd.triangles@.len() < u32::MAX,
    ensures
        match (r, ragdoll(smd@, phys@, spans@)) {
            (Ok(a), Ok(b)) => viewed(a@) == b,
            (Err(a), Err(b)) => a@ == b,
            _ => false,
        },
{
    let list: Vec<RagdollGroup> = match ragdoll_groups(smd, phys) {
        Ok(l) => l,
        Err(e) => {
            return Err(e);
        },
    };
    let mut solids: Vec<RagdollSolid> = build_solids(smd, phys, &list, spans);
    assert(viewed(solids@).len() == solids@.len());
    if solids.len() == 0 {
        return Err("所有骨骼的碰撞几何都张不成凸包".to_owned());
    }
    hang_solids(smd, &mut solids);
    Ok(solids)
}

/// What is wrong where mass would have to follow from volume.
pub open spec fn no_auto_mass() -> Seq<char> {
    "`[physics].auto_mass`（`$automass`）需要材质密度表（`scripts/surfaceproperties_manifest.txt`）才能算出总质量，mdlc 没有该表。请显式写 `mass = <值>`"@
}

/// Refuses a mass that would have to follow from volume.
pub fn check_auto_mass(phys: &Physics) -> (r: Result<(), String>)
    ensures
        match r {
            Ok(_) => !phys.auto_mass,
            Err(e) => phys.auto_mass && e@ == no_auto_mass(),
        },
{
    if phys.auto_mass {
        return Err(
            "`[physics].auto_mass`（`$automass`）需要材质密度表（`scripts/surfaceproperties_manifest.txt`）才能算出总质量，mdlc 没有该表。请显式写 `mass = <值>`".to_owned(),
        );
    }
    Ok(())
}

/// What is wrong with a single solid that has what only joints have.
pub open spec fn prop_error(p: PhysicsView) -> Option<Seq<char>> {
    if p.joint_overrides.len() > 0 {
        Some(
            "[physics.joint_overrides] 有 "@ + decimal(p.joint_overrides.len())
                + " 项，但这是单 solid 的 prop 形态（`joints = false`）—— 逐 joint 参数只对 ragdoll 有意义。要么去掉它，要么把 `joints` 设为 true"@,
        )
    } else if p.constraints.len() > 0 {
        Some(
            "[physics.constraints] 有 "@ + decimal(p.constraints.len())
                + " 项，但这是单 solid 的 prop 形态（`joints = false`）—— `$jointconstrain` 只对 ragdoll 有意义。要么去掉它，要么把 `joints` 设为 true"@,
        )
    } else if p.collision_pairs.len() > 0 || p.no_self_collisions {
        Some(
            "[physics.no_self_collisions] / [physics.collision_pairs] 只对 ragdoll 有意义（`joints = false` 时没有「多个 solid 之间碰不碰」的问题）。要么去掉它，要么把 `joints` 设为 true"@,
        )
    } else {
        None
    }
}

/// Refuses a single solid that has what only joints have.
pub fn check_prop(phys: &Physics) -> (r: Result<(), String>)
    ensures
        match (r, prop_error(phys@)) {
            (Ok(_), None) => true,
            (Err(a), Some(b)) => a@ == b,
            _ => false,
        },
{
    if phys.joint_overrides.len() > 0 {
        let mut m: String = "[physics.joint_overrides] 有 ".to_owned();
        let n: String = decimal_text(phys.joint_overrides.len());
        m.push_str(n.as_str());
        m.push_str(
            " 项，但这是单 solid 的 prop 形态（`joints = false`）—— 逐 joint 参数只对 ragdoll 有意义。要么去掉它，要么把 `joints` 设为 true",
        );
        return Err(m);
    }
    if phys.constraints.len() > 0 {
        let mut m: String = "[physics.constraints] 有 ".to_owned();
        let n: String = decimal_text(phys.constraints.len());
        m.push_str(n.as_str());
        m.push_str(
            " 项，但这是单 solid 的 prop 形态（`joints = false`）—— `$jointconstrain` 只对 ragdoll 有意义。要么去掉它，要么把 `joints` 设为 true",
        );
        return Err(m);
    }
    if phys.collision_pairs.len() > 0 || phys.no_self_collisions {
        return Err(
            "[physics.no_self_collisions] / [physics.collision_pairs] 只对 ragdoll 有意义（`joints = false` 时没有「多个 solid 之间碰不碰」的问题）。要么去掉它，要么把 `joints` 设为 true".to_owned(),
        );
    }
    Ok(())
}

/// The solids of a ragdoll have the bones of the groups that are kept.
proof fn solids_have_the_bones_kept(
    t: Seq<TriangleView>,
    p: PhysicsView,
    list: Seq<GroupView>,
    spans: Seq<bool>,
    n: int,
)
    requires
        0 <= n <= list.len(),
    ensures
        solids_of(t, p, list, spans, n).len() == kept(t, list, spans, n).len(),
        forall|k: int|
            0 <= k < kept(t, list, spans, n).len() ==> (#[trigger] solids_of(
                t,
                p,
                list,
                spans,
                n,
            )[k]).bone == kept(t, list, spans, n)[k].bone,
    decreases n,
{
    if n > 0 {
        solids_have_the_bones_kept(t, p, list, spans, n - 1);
    }
}

/// The table of bones numbers the solids as the file of the ragdoll does: the bone of solid `k`
/// has the number `k`, whatever bones are merged.
pub proof fn table_numbers_the_solids(
    m: SmdView,
    p: PhysicsView,
    spans: Seq<bool>,
    count: nat,
    parents: Seq<i32>,
    k: int,
)
    requires
        ragdoll(m, p, spans) matches Ok(list) && 0 <= k < list.len() && list[k].bone < count,
        ragdoll_parts(m, p)->Ok_0.len() <= i32::MAX,
    ensures
        merges_from(m, p.merge, Map::empty(), 0) matches Ok(merged) && (bone_solids(
            m,
            merged,
            spans,
            count,
            parents,
        ) matches Some(pb) && pb.len() == count && pb[ragdoll(m, p, spans)->Ok_0[k].bone as int]
            == k),
{
    let merged = merges_from(m, p.merge, Map::empty(), 0)->Ok_0;
    let list = groups(m, merged);
    solids_have_the_bones_kept(m.triangles, p, list, spans, list.len() as int);
    let solids = solids_of(m.triangles, p, list, spans, list.len() as int);
    assert(ragdoll(m, p, spans)->Ok_0[k].bone == solids[k].bone);
    solids_move_their_own_bones(m, merged, spans, count, parents, k);
}

} // verus!
