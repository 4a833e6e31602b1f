//! From a collision mesh, what a script says of it and the hulls around it to a collision file.
use vstd::prelude::*;

use super::error::PhyError;
use super::mass::SolidMeasures;
use super::params::{
    AnimatedFriction, JointConstraint, JointLimitType, PhyIdentity, PhyParams, PhySolid,
};
use super::placed::placed_hulls;
use super::plan::{
    check_auto_mass, check_prop, hung, no_auto_mass, prop_error, ragdoll, ragdoll_parts,
    ragdoll_solids, solids_of, RagdollSolid, RagdollSolidView,
};
use super::ragdoll::GroupView;
use super::solid::{corners, PhyHull};
use super::write::{hulls_of, write_phy_multi, written};
use crate::qc::model::{
    AnimatedFrictionSpec, JointConstraintSpec, JointConstraintSpecView, Pair, PairView, Physics,
    PhysicsView,
};
use crate::seqs::{viewed, viewed_if, viewing};
use crate::single::ONE;
use crate::smd::{Smd, SmdView, TriangleView};
use crate::text::{chars_of, decimal, push_decimal};

verus! {

broadcast use viewing;

/// The axis that a word of one letter names.
pub open spec fn axis_word(word: Seq<char>) -> Option<u8> {
    if word.len() == 1 {
        JointConstraint::axis_named(word[0])
    } else {
        None
    }
}

/// `c` is the limit that a script describes.
pub open spec fn limit_fits(c: JointConstraint, s: JointConstraintSpecView) -> bool {
    &&& c.bone@ == s.bone
    &&& axis_word(s.axis) == Some(c.axis)
    &&& JointLimitType::named(s.kind) == Some(c.kind)
    &&& c.min == s.min
    &&& c.max == s.max
    &&& c.friction == s.friction
}

/// A script describes a limit with a known axis and a known kind.
pub open spec fn limit_known(s: JointConstraintSpecView) -> bool {
    axis_word(s.axis) is Some && JointLimitType::named(s.kind) is Some
}

/// What is wrong with limit `i` of a script.
pub open spec fn limit_error(i: int) -> Seq<char> {
    "[physics.constraints]["@ + decimal(i as nat) + "] 的轴或类型无效"@
}

/// What the limits of a script come to.
pub open spec fn limits_given(
    r: Result<Vec<JointConstraint>, String>,
    list: Seq<JointConstraintSpecView>,
) -> bool {
    match r {
        Ok(out) => {
            &&& out@.len() == list.len()
            &&& forall|i: int| 0 <= i < list.len() ==> limit_fits(#[trigger] out@[i], list[i])
        },
        Err(e) => exists|i: int|
            {
                &&& 0 <= i < list.len()
                &&& !limit_known(#[trigger] list[i])
                &&& forall|j: int| 0 <= j < i ==> limit_known(#[trigger] list[j])
                &&& e@ == limit_error(i)
            },
    }
}

/// The limit that a script describes.
fn read_limit(s: &JointConstraintSpec) -> (r: Option<JointConstraint>)
    ensures
        match r {
            Some(c) => limit_fits(c, s@),
            None => !limit_known(s@),
        },
{
    let word: Vec<char> = chars_of(s.axis.as_str());
    if word.len() != 1 {
        return None;
    }
    match (JointConstraint::axis_from_char(word[0]), JointLimitType::parse(s.kind.as_str())) {
        (Some(axis), Some(kind)) => Some(
            JointConstraint {
                bone: s.bone.clone(),
                axis,
                kind,
                min: s.min,
                max: s.max,
                friction: s.friction,
            },
        ),
        _ => None,
    }
}

/// The limits that a script describes.
pub fn joint_constraints(list: &Vec<JointConstraintSpec>) -> (r: Result<
    Vec<JointConstraint>,
    String,
>)
    ensures
        limits_given(r, viewed(list@)),
{
    let mut out: Vec<JointConstraint> = Vec::new();
    let mut i: usize = 0;
    while i < list.len()
        invariant
            i <= list@.len(),
            out@.len() == i,
            forall|j: int| 0 <= j < i ==> limit_fits(#[trigger] out@[j], viewed(list@)[j]),
            forall|j: int| 0 <= j < i ==> limit_known(#[trigger] viewed(list@)[j]),
        decreases list@.len() - i,
    {
        assert(viewed(list@)[i as int] == list@[i as int]@);
        match read_limit(&list[i]) {
            Some(c) => {
                out.push(c);
            },
            None => {
                let mut m: String = "[physics.constraints][".to_owned();
                push_decimal(&mut m, i as u64);
                m.push_str("] 的轴或类型无效");
                assert(m@ =~= limit_error(i as int));
                assert(!limit_known(viewed(list@)[i as int]));
                return Err(m);
            },
        }
        i = i + 1;
    }
    Ok(out)
}

/// A number, or another where there is none.
fn value_or(v: Option<u32>, other: u32) -> (r: u32)
    ensures
        r == (match v {
            Some(v) => v,
            None => other,
        }),
{
    match v {
        Some(v) => v,
        None => other,
    }
}

/// What prop and ragdoll files share of their parameters.
pub open spec fn shared_params(
    p: PhyParams,
    ident: PhyIdentity,
    checksum: u32,
    mass: u32,
    phys: Physics,
) -> bool {
    &&& p.model_name@ == ident.model_name@
    &&& p.checksum == checksum
    &&& p.total_mass == mass
    &&& p.surface_prop@ == ident.surface_prop@
    &&& p.damping == (match phys.damping {
        Some(v) => v,
        None => 0,
    })
    &&& p.rot_damping == (match phys.rot_damping {
        Some(v) => v,
        None => 0,
    })
    &&& p.inertia == (match phys.inertia {
        Some(v) => v,
        None => ONE,
    })
    &&& p.drag == phys.drag
    &&& p.root_name@ == (match phys.root_bone {
        Some(b) => b@,
        None => Seq::empty(),
    })
    &&& p.inertia_scale == ONE
    &&& !p.auto_mass
}

/// The parameters of a file with a single solid.
pub open spec fn prop_params(
    p: PhyParams,
    ident: PhyIdentity,
    checksum: u32,
    mass: u32,
    phys: Physics,
) -> bool {
    &&& shared_params(p, ident, checksum, mass, phys)
    &&& p.concave == phys.concave
    &&& p.mass_center is None
    &&& p.constraints@.len() == 0
    &&& p.animated_friction is None
    &&& !p.no_self_collisions
    &&& p.collision_pairs@.len() == 0
    &&& p.merge_list@.len() == 0
}

/// Pairs of names.
pub open spec fn named_pairs(list: Seq<(String, String)>, pairs: Seq<PairView>) -> bool {
    &&& list.len() == pairs.len()
    &&& forall|i: int|
        0 <= i < list.len() ==> (#[trigger] list[i]).0@ == pairs[i].a && list[i].1@ == pairs[i].b
}

/// Friction under animation, as a file has it.
pub open spec fn friction_of(f: Option<AnimatedFrictionSpec>) -> Option<AnimatedFriction> {
    match f {
        Some(f) => Some(
            AnimatedFriction {
                min: f.min,
                max: f.max,
                time_in: f.time_in,
                time_out: f.time_out,
                time_hold: f.time_hold,
            },
        ),
        None => None,
    }
}

/// The parameters of the file of a ragdoll.
pub open spec fn ragdoll_params(
    p: PhyParams,
    ident: PhyIdentity,
    checksum: u32,
    mass: u32,
    phys: Physics,
) -> bool {
    &&& shared_params(p, ident, checksum, mass, phys)
    &&& !p.concave
    &&& match phys.mass_center {
        Some(c) => p.mass_center is Some && p.mass_center->0@ == seq![c.x, c.y, c.z],
        None => p.mass_center is None,
    }
    &&& limits_given(Ok(p.constraints), phys@.constraints)
    &&& p.animated_friction == friction_of(phys.animated_friction)
    &&& p.no_self_collisions == phys.no_self_collisions
    &&& named_pairs(p.collision_pairs@, phys@.collision_pairs)
    &&& named_pairs(p.merge_list@, phys@.merge)
}

/// What prop and ragdoll files share of their parameters.
fn start_params(ident: &PhyIdentity, checksum: u32, mass: u32, phys: &Physics) -> (r: PhyParams)
    ensures
        shared_params(r, *ident, checksum, mass, *phys),
        !r.concave,
        r.mass_center is None,
        r.constraints@.len() == 0,
        r.animated_friction is None,
        !r.no_self_collisions,
        r.collision_pairs@.len() == 0,
        r.merge_list@.len() == 0,
{
    let mut p: PhyParams = PhyParams::new(ident.model_name.as_str(), checksum);
    p.total_mass = mass;
    p.surface_prop = ident.surface_prop.clone();
    p.damping = value_or(phys.damping, 0);
    p.rot_damping = value_or(phys.rot_damping, 0);
    p.inertia = value_or(phys.inertia, ONE);
    p.drag = phys.drag;
    if let Some(b) = &phys.root_bone {
        p.root_name = b.clone();
    }
    p
}

/// Pairs of names.
fn list_pairs(pairs: &Vec<Pair>) -> (r: Vec<(String, String)>)
    ensures
        named_pairs(r@, viewed(pairs@)),
{
    let mut out: Vec<(String, String)> = Vec::new();
    let mut i: usize = 0;
    while i < pairs.len()
        invariant
            i <= pairs@.len(),
            out@.len() == i,
            forall|j: int|
                0 <= j < i ==> (#[trigger] out@[j]).0@ == viewed(pairs@)[j].a && out@[j].1@
                    == viewed(pairs@)[j].b,
        decreases pairs@.len() - i,
    {
        assert(viewed(pairs@)[i as int] == pairs@[i as int]@);
        out.push((pairs[i].a.clone(), pairs[i].b.clone()));
        i = i + 1;
    }
    out
}

/// What building a file returns, by what writing it returns.
pub open spec fn built(
    r: Result<Vec<u8>, String>,
    hulls: Seq<Vec<PhyHull>>,
    ms: Seq<SolidMeasures>,
    solids: Seq<PhySolid>,
    params: PhyParams,
) -> bool {
    exists|w: Result<Vec<u8>, PhyError>|
        {
            &&& #[trigger] written(w, hulls, ms, solids, params)
            &&& match (r, w) {
                (Ok(a), Ok(b)) => a == b,
                (Err(a), Err(e)) => a@ == "写出 PHY 失败："@ + e.told(),
                _ => false,
            }
        }
}

/// Writes a file and puts what goes wrong into words.
fn finish(
    hulls: &Vec<Vec<PhyHull>>,
    ms: &Vec<SolidMeasures>,
    solids: &Vec<PhySolid>,
    params: &PhyParams,
) -> (r: Result<Vec<u8>, String>)
    requires
        forall|i: int|
            0 <= i < hulls@.len() ==> corners(
                #[trigger] hulls_of(hulls@, i),
                hulls@[i]@.len() as int,
            ).len() < u32::MAX,
    ensures
        built(r, hulls@, ms@, solids@, *params),
{
    let w: Result<Vec<u8>, PhyError> = write_phy_multi(hulls, ms, solids, params);
    let ghost g = w;
    match w {
        Ok(bytes) => {
            assert(written(g, hulls@, ms@, solids@, *params));
            Ok(bytes)
        },
        Err(e) => {
            let mut m: String = "写出 PHY 失败：".to_owned();
            let t: String = e.describe();
            m.push_str(t.as_str());
            assert(written(g, hulls@, ms@, solids@, *params));
            Err(m)
        },
    }
}

/// The one solid of a prop.
pub open spec fn prop_solid(s: PhySolid, name: Seq<char>) -> bool {
    &&& s.bone_index is None
    &&& s.name@ == name
    &&& s.parent is None
    &&& s.mass_bias == ONE
    &&& s.damping is None && s.rot_damping is None && s.inertia is None
}

/// The collision file of a prop: a single solid, made of the hulls around the collision mesh.
/// `measures` belong to those hulls.
///
/// The corners of all faces must be countable in 32 bits.
pub fn build_phy_from_smd(
    smd: &Smd,
    ident: &PhyIdentity,
    checksum: u32,
    mass: u32,
    phys: &Physics,
    hulls: Vec<PhyHull>,
    measures: SolidMeasures,
) -> (r: Result<Vec<u8>, String>)
    requires
        corners(placed_hulls(hulls@), hulls@.len() as int).len() < u32::MAX,
    ensures
        if smd.triangles@.len() == 0 {
            r is Err && r->Err_0@ == "SMD 里没有任何三角形"@
        } else if prop_error(phys@) is Some {
            r is Err && r->Err_0@ == prop_error(phys@)->0
        } else {
            exists|grouped: Seq<Vec<PhyHull>>, solids: Seq<PhySolid>, params: PhyParams|
                {
                    &&& grouped.len() == 1 && grouped[0]@ == hulls@
                    &&& solids.len() == 1 && prop_solid(solids[0], ident.collision_smd_name@)
                    &&& prop_params(params, *ident, checksum, mass, *phys)
                    &&& #[trigger] built(r, grouped, seq![measures], solids, params)
                }
        },
{
    if smd.triangles.len() == 0 {
        return Err("SMD 里没有任何三角形".to_owned());
    }
    match check_prop(phys) {
        Ok(_) => {},
        Err(e) => {
            return Err(e);
        },
    }
    let mut params: PhyParams = start_params(ident, checksum, mass, phys);
    params.concave = phys.concave;
    let mut solids: Vec<PhySolid> = Vec::new();
    solids.push(PhySolid::prop(ident.collision_smd_name.as_str()));
    let ghost all = hulls@;
    let mut grouped: Vec<Vec<PhyHull>> = Vec::new();
    grouped.push(hulls);
    let ghost m = measures;
    let mut ms: Vec<SolidMeasures> = Vec::new();
    ms.push(measures);
    assert(ms@ =~= seq![m]);
    assert(prop_params(params, *ident, checksum, mass, *phys));
    assert(grouped@[0]@ == all);
    finish(&grouped, &ms, &solids, &params)
}

/// Which groups of triangles have a hull.
pub open spec fn spans_of(hulls: Seq<Option<PhyHull>>) -> Seq<bool> {
    Seq::new(hulls.len(), |i: int| hulls[i] is Some)
}

/// Which groups of triangles have a hull.
fn list_spans(hulls: &Vec<Option<PhyHull>>) -> (r: Vec<bool>)
    ensures
        r@ == spans_of(hulls@),
{
    let mut out: Vec<bool> = Vec::new();
    let mut i: usize = 0;
    while i < hulls.len()
        invariant
            i <= hulls@.len(),
            out@ == spans_of(hulls@).take(i as int),
        decreases hulls@.len() - i,
    {
        out.push(hulls[i].is_some());
        i = i + 1;
        assert(out@ =~= spans_of(hulls@).take(i as int));
    }
    assert(out@ =~= spans_of(hulls@));
    out
}

/// The solids that groups come to are of groups that span one.
proof fn solids_have_hulls(
    t: Seq<TriangleView>,
    p: PhysicsView,
    list: Seq<GroupView>,
    spans: Seq<bool>,
    n: int,
)
    requires
        0 <= n <= list.len(),
    ensures
        forall|i: int|
            0 <= i < solids_of(t, p, list, spans, n).len() ==> {
                let k = (#[trigger] solids_of(t, p, list, spans, n)[i]).group;
                0 <= k < spans.len() && spans[k]
            },
    decreases n,
{
    if n > 0 {
        solids_have_hulls(t, p, list, spans, n - 1);
    }
}

/// The solids of a ragdoll are of groups that have a hull.
proof fn ragdoll_has_hulls(m: SmdView, p: PhysicsView, hulls: Seq<Option<PhyHull>>)
    ensures
        match ragdoll(m, p, spans_of(hulls)) {
            Ok(list) => forall|i: int|
                0 <= i < list.len() ==> {
                    let k = (#[trigger] list[i]).group;
                    0 <= k < hulls.len() && hulls[k] is Some
                },
            Err(_) => true,
        },
{
    let spans = spans_of(hulls);
    match ragdoll_parts(m, p) {
        Ok(list) => {
            solids_have_hulls(m.triangles, p, list, spans, list.len() as int);
            let solids = solids_of(m.triangles, p, list, spans, list.len() as int);
            let all = hung(m.nodes, solids);
            assert forall|i: int| 0 <= i < all.len() implies {
                let k = (#[trigger] all[i]).group;
                0 <= k < hulls.len() && hulls[k] is Some
            } by {
                let x = solids[i];
                assert(spans[x.group]);
            }
        },
        Err(_) => {},
    }
}

/// Each solid of a ragdoll is made of the hull of its group.
pub open spec fn ragdoll_hulls(
    grouped: Seq<Vec<PhyHull>>,
    list: Seq<RagdollSolidView>,
    hulls: Seq<Option<PhyHull>>,
) -> bool {
    &&& grouped.len() == list.len()
    &&& forall|i: int|
        0 <= i < list.len() ==> {
            &&& (#[trigger] grouped[i])@.len() == 1
            &&& grouped[i]@[0]@ == hulls[list[i].group]->0@
        }
}

/// `s` is a solid of a ragdoll, as a file has it.
pub open spec fn ragdoll_solid(s: PhySolid, v: RagdollSolidView) -> bool {
    &&& s.bone_index == Some(v.bone)
    &&& s.name@ == v.name
    &&& viewed_if(s.parent) == v.parent
    &&& s.mass_bias == v.mass_bias
    &&& s.damping == v.damping
    &&& s.rot_damping == v.rot_damping
    &&& s.inertia == v.inertia
}

/// `solids` are the solids of a ragdoll, as a file has them.
pub open spec fn ragdoll_named(solids: Seq<PhySolid>, list: Seq<RagdollSolidView>) -> bool {
    &&& solids.len() == list.len()
    &&& forall|i: int| 0 <= i < list.len() ==> ragdoll_solid(#[trigger] solids[i], list[i])
}

/// What building the file of a ragdoll returns.
pub open spec fn ragdoll_built(
    r: Result<Vec<u8>, String>,
    smd: Smd,
    ident: PhyIdentity,
    checksum: u32,
    mass: u32,
    phys: Physics,
    hulls: Seq<Option<PhyHull>>,
    ms: Seq<SolidMeasures>,
) -> bool {
    match ragdoll(smd@, phys@, spans_of(hulls)) {
        Err(e) => r is Err && r->Err_0@ == e,
        Ok(list) => if exists|i: int|
            0 <= i < phys@.constraints.len() && !limit_known(#[trigger] phys@.constraints[i]) {
            r is Err && limits_given(Err(r->Err_0), phys@.constraints)
        } else if phys.auto_mass {
            r is Err && r->Err_0@ == no_auto_mass()
        } else {
            exists|grouped: Seq<Vec<PhyHull>>, solids: Seq<PhySolid>, params: PhyParams|
                {
                    &&& ragdoll_hulls(grouped, list, hulls)
                    &&& ragdoll_named(solids, list)
                    &&& ragdoll_params(params, ident, checksum, mass, phys)
                    &&& #[trigger] built(r, grouped, ms, solids, params)
                }
        },
    }
}

/// A hull like another.
fn copy_hull(h: &PhyHull) -> (r: PhyHull)
    ensures
        r@ == h@,
{
    let mut vertices: Vec<[u32; 3]> = Vec::new();
    let mut i: usize = 0;
    while i < h.vertices.len()
        invariant
            i <= h.vertices@.len(),
            vertices@ == h.vertices@.take(i as int),
        decreases h.vertices@.len() - i,
    {
        vertices.push(h.vertices[i]);
        i = i + 1;
        assert(vertices@ =~= h.vertices@.take(i as int));
    }
    let mut faces: Vec<[u32; 3]> = Vec::new();
    let mut i: usize = 0;
    while i < h.faces.len()
        invariant
            i <= h.faces@.len(),
            faces@ == h.faces@.take(i as int),
        decreases h.faces@.len() - i,
    {
        faces.push(h.faces[i]);
        i = i + 1;
        assert(faces@ =~= h.faces@.take(i as int));
    }
    let r: PhyHull = PhyHull { vertices, faces };
    assert(r@.vertices =~= h@.vertices);
    assert(r@.faces =~= h@.faces);
    r
}

/// The hulls of the solids of a ragdoll.
fn group_hulls(list: &Vec<RagdollSolid>, hulls: &Vec<Option<PhyHull>>) -> (r: Vec<Vec<PhyHull>>)
    requires
        forall|i: int|
            0 <= i < list@.len() ==> {
                let k = (#[trigger] list@[i]).group;
                k < hulls@.len() && hulls@[k as int] is Some
            },
    ensures
        ragdoll_hulls(r@, viewed(list@), hulls@),
{
    let mut out: Vec<Vec<PhyHull>> = Vec::new();
    let mut i: usize = 0;
    while i < list.len()
        invariant
            i <= list@.len(),
            forall|i: int|
                0 <= i < list@.len() ==> {
                    let k = (#[trigger] list@[i]).group;
                    k < hulls@.len() && hulls@[k as int] is Some
                },
            out@.len() == i,
            forall|j: int|
                0 <= j < i ==> {
                    &&& (#[trigger] out@[j])@.len() == 1
                    &&& out@[j]@[0]@ == hulls@[viewed(list@)[j].group]->0@
                },
        decreases list@.len() - i,
    {
        assert(list@[i as int].group < hulls@.len());
        assert(viewed(list@)[i as int] == list@[i as int]@);
        let mut one: Vec<PhyHull> = Vec::new();
        match &hulls[list[i].group] {
            Some(h) => {
                one.push(copy_hull(h));
            },
            None => {},
        }
        out.push(one);
        i = i + 1;
    }
    out
}

/// The solids of a ragdoll, as a file has them.
fn name_solids(list: &Vec<RagdollSolid>) -> (r: Vec<PhySolid>)
    ensures
        ragdoll_named(r@, viewed(list@)),
{
    let mut out: Vec<PhySolid> = Vec::new();
    let mut i: usize = 0;
    while i < list.len()
        invariant
            i <= list@.len(),
            out@.len() == i,
            forall|j: int| 0 <= j < i ==> ragdoll_solid(#[trigger] out@[j], viewed(list@)[j]),
        decreases list@.len() - i,
    {
        assert(viewed(list@)[i as int] == list@[i as int]@);
        let s: &RagdollSolid = &list[i];
        let parent: Option<String> = match &s.parent {
            Some(p) => Some(p.clone()),
            None => None,
        };
        let mut solid: PhySolid = PhySolid::ragdoll(s.bone, s.name.clone(), parent);
        solid.mass_bias = s.mass_bias;
        solid.damping = s.damping;
        solid.rot_damping = s.rot_damping;
        solid.inertia = s.inertia;
        assert(viewed_if(solid.parent) == viewed_if(s.parent));
        out.push(solid);
        i = i + 1;
    }
    out
}

/// The collision file of a ragdoll: a solid for each bone of which the triangles have a hull.
/// `hulls` are those around the triangles of each bone, `None` where they span none, and
/// `measures` belong to the hulls that become solids.
///
/// The corners of the faces of each hull must be countable in 32 bits.
pub fn build_ragdoll_phy_from_smd(
    smd: &Smd,
    ident: &PhyIdentity,
    checksum: u32,
    mass: u32,
    phys: &Physics,
    hulls: &Vec<Option<PhyHull>>,
    measures: &Vec<SolidMeasures>,
) -> (r: Result<Vec<u8>, String>)
    requires
        smd.nodes@.len() < usize::MAX,
        3 * smd.triangles@.len() < u32::MAX,
        forall|i: int|
            0 <= i < hulls@.len() && (#[trigger] hulls@[i]) is Some ==> 3
                * hulls@[i]->0.faces@.len() < u32::MAX,
    ensures
        ragdoll_built(r, *smd, *ident, checksum, mass, *phys, hulls@, measures@),
{
    let spans: Vec<bool> = list_spans(hulls);
    let list: Vec<RagdollSolid> = match ragdoll_solids(smd, phys, &spans) {
        Ok(list) => list,
        Err(e) => {
            return Err(e);
        },
    };
    proof {
        ragdoll_has_hulls(smd@, phys@, hulls@);
        assert forall|i: int| 0 <= i < list@.len() implies {
            let k = (#[trigger] list@[i]).group;
            k < hulls@.len() && hulls@[k as int] is Some
        } by {
            assert(viewed(list@)[i] == list@[i]@);
        }
    }
    let constraints: Vec<JointConstraint> = match joint_constraints(&phys.constraints) {
        Ok(c) => c,
        Err(e) => {
            assert(limits_given(Err(e), phys@.constraints));
            return Err(e);
        },
    };
    proof {
        assert forall|i: int| 0 <= i < phys@.constraints.len() implies limit_known(
            #[trigger] phys@.constraints[i],
        ) by {
            assert(limit_fits(constraints@[i], phys@.constraints[i]));
        }
    }
    match check_auto_mass(phys) {
        Ok(_) => {},
        Err(e) => {
            return Err(e);
        },
    }
    let mut params: PhyParams = start_params(ident, checksum, mass, phys);
    params.constraints = constraints;
    params.animated_friction = match &phys.animated_friction {
        Some(f) => Some(
            AnimatedFriction {
                min: f.min,
                max: f.max,
                time_in: f.time_in,
                time_out: f.time_out,
                time_hold: f.time_hold,
            },
        ),
        None => None,
    };
    params.no_self_collisions = phys.no_self_collisions;
    params.collision_pairs = list_pairs(&phys.collision_pairs);
    params.merge_list = list_pairs(&phys.merge);
    if let Some(c) = phys.mass_center {
        let center: [u32; 3] = [c.x, c.y, c.z];
        assert(center@ =~= seq![c.x, c.y, c.z]);
        params.mass_center = Some(center);
    }
    assert(ragdoll_params(params, *ident, checksum, mass, *phys));
    let grouped: Vec<Vec<PhyHull>> = group_hulls(&list, hulls);
    let solids: Vec<PhySolid> = name_solids(&list);
    proof {
        assert forall|i: int| 0 <= i < grouped@.len() implies corners(
            #[trigger] hulls_of(grouped@, i),
            grouped@[i]@.len() as int,
        ).len() < u32::MAX by {
            let k = viewed(list@)[i].group;
            assert(grouped@[i]@[0]@ == hulls@[k]->0@);
            assert(viewed(list@)[i] == list@[i]@);
            assert(hulls@[k] is Some);
            let hv = hulls_of(grouped@, i);
            reveal_with_fuel(corners, 2);
            assert(hv.len() == 1);
            assert(hv[0].faces == hulls@[k]->0.faces@);
        }
    }
    finish(&grouped, measures, &solids, &params)
}

} // verus!
