//! Volumes, and how the mass is handed out to the solids.
use vstd::prelude::*;

use super::bounds::{
    farthest, measure_nodes, measures_nodes, points_exist, reach,
};
use super::params::{PhyParams, PhySolid};
use super::placed::{ivp, to_ivp, SOURCE_TO_IVP};
use super::solid::PreparedSolid;
use super::surface::{NodeGeometry, SolidGeometry};
use super::tree::tree;
use crate::arith::{
    abs, absolute, below, is_zero, less, over, plus, product, quotient, sum, times,
    zero_times_anything,
};
use crate::single::ONE;
use crate::tangent::{all_finite, triple};

verus! {

/// What was integrated over the volume of a solid, at a density of one, in metres.
#[derive(Debug, Clone)]
pub struct SolidMeasures {
    /// The centre of mass.
    pub mass_center: [u32; 3],
    /// The diagonal of the inertia tensor.
    pub inertia: [u32; 3],
    /// The mass of each hull.
    pub masses: Vec<u32>,
}

/// The cubic metres in a cubic inch.
pub open spec fn cubic_inch() -> u32 {
    product(product(SOURCE_TO_IVP, SOURCE_TO_IVP), SOURCE_TO_IVP)
}

/// The volume of the first `n` hulls in cubic inches.
pub open spec fn volume_of(masses: Seq<u32>, n: int) -> u32
    decreases n,
{
    if n <= 0 {
        0
    } else {
        sum(volume_of(masses, n - 1), quotient(absolute(masses[n - 1]), cubic_inch()))
    }
}

/// The volume of a solid in cubic inches.
pub open spec fn solid_volume(m: SolidMeasures) -> u32 {
    volume_of(m.masses@, m.masses@.len() as int)
}

/// The volume of the first `n` solids.
pub open spec fn total_volume(ms: Seq<SolidMeasures>, n: int) -> u32
    decreases n,
{
    if n <= 0 {
        0
    } else {
        sum(total_volume(ms, n - 1), solid_volume(ms[n - 1]))
    }
}

/// The volume by which the mass is handed out: that of all solids, or one where they have none.
pub open spec fn whole_volume(ms: Seq<SolidMeasures>) -> u32 {
    let v = total_volume(ms, ms.len() as int);
    if below(0, v) {
        v
    } else {
        ONE
    }
}

/// The mass of a solid: its part of the whole by volume and bias, and at least one.
pub open spec fn mass_share(volume: u32, bias: u32, whole: u32, total_mass: u32) -> u32 {
    let m = product(quotient(product(volume, bias), whole), total_mass);
    if below(m, ONE) {
        ONE
    } else {
        m
    }
}

/// The centre of mass of a solid: the one that is asked for, or the one that was integrated.
pub open spec fn center_of_mass(m: SolidMeasures, params: PhyParams) -> [u32; 3] {
    match params.mass_center {
        Some(c) => ivp(c),
        None => m.mass_center,
    }
}

/// `g` gives the measures of the solid `p`.
pub open spec fn measured(
    g: SolidGeometry,
    p: PreparedSolid,
    m: SolidMeasures,
    s: PhySolid,
    whole: u32,
    params: PhyParams,
) -> bool {
    let scale = params.inertia_scale;
    &&& g.mass_center == center_of_mass(m, params)
    &&& g.rotation_inertia@ == seq![
        product(m.inertia@[0], scale),
        product(m.inertia@[1], scale),
        product(m.inertia@[2], scale),
    ]
    &&& g.upper_limit_radius == reach(p.points@, g.mass_center, p.points@.len() as int)
    &&& g.nodes@.len() == p.nodes@.len()
    &&& measures_nodes(g.nodes@, p, p.nodes@.len() as int)
    &&& g.volume == solid_volume(m)
    &&& g.mass == mass_share(g.volume, s.mass_bias, whole, params.total_mass)
}

/// `g` gives the measures of the solids `ps`.
pub open spec fn all_measured(
    g: Seq<SolidGeometry>,
    ps: Seq<PreparedSolid>,
    ms: Seq<SolidMeasures>,
    solids: Seq<PhySolid>,
    params: PhyParams,
) -> bool {
    &&& g.len() == ps.len()
    &&& forall|i: int|
        0 <= i < g.len() ==> measured(
            #[trigger] g[i],
            ps[i],
            ms[i],
            solids[i],
            whole_volume(ms),
            params,
        )
}

/// The volume of a solid in cubic inches.
pub fn count_volume(m: &SolidMeasures) -> (r: u32)
    ensures
        r == solid_volume(*m),
{
    let inch: u32 = times(times(SOURCE_TO_IVP, SOURCE_TO_IVP), SOURCE_TO_IVP);
    let mut v: u32 = 0;
    let mut i: usize = 0;
    while i < m.masses.len()
        invariant
            inch == cubic_inch(),
            i <= m.masses@.len(),
            v == volume_of(m.masses@, i as int),
        decreases m.masses@.len() - i,
    {
        v = plus(v, over(abs(m.masses[i]), inch));
        i = i + 1;
    }
    v
}

/// The volume by which the mass is handed out.
pub fn count_whole_volume(ms: &Vec<SolidMeasures>) -> (r: u32)
    ensures
        r == whole_volume(ms@),
{
    let mut v: u32 = 0;
    let mut i: usize = 0;
    while i < ms.len()
        invariant
            i <= ms@.len(),
            v == total_volume(ms@, i as int),
        decreases ms@.len() - i,
    {
        v = plus(v, count_volume(&ms[i]));
        i = i + 1;
    }
    if less(0, v) {
        v
    } else {
        ONE
    }
}

/// The mass of a solid.
pub fn share_mass(volume: u32, bias: u32, whole: u32, total_mass: u32) -> (r: u32)
    ensures
        r == mass_share(volume, bias, whole, total_mass),
{
    let m: u32 = times(over(times(volume, bias), whole), total_mass);
    if less(m, ONE) {
        ONE
    } else {
        m
    }
}

/// The measures of a solid.
fn measure(p: &PreparedSolid, m: &SolidMeasures, s: &PhySolid, whole: u32, params: &PhyParams) -> (r:
    SolidGeometry)
    requires
        points_exist(*p),
        p.hulls@.len() > 0,
        p.nodes@ == tree(0, p.hulls@.len()),
    ensures
        measured(r, *p, *m, *s, whole, *params),
{
    let scale: u32 = params.inertia_scale;
    let rotation_inertia: [u32; 3] = [
        times(m.inertia[0], scale),
        times(m.inertia[1], scale),
        times(m.inertia[2], scale),
    ];
    let nodes: Vec<NodeGeometry> = measure_nodes(p);
    let volume: u32 = count_volume(m);
    let mass: u32 = share_mass(volume, s.mass_bias, whole, params.total_mass);
    let mass_center: [u32; 3] = match params.mass_center {
        Some(c) => to_ivp(c),
        None => m.mass_center,
    };
    let r: SolidGeometry = SolidGeometry {
        mass_center,
        rotation_inertia,
        upper_limit_radius: farthest(&p.points, mass_center),
        nodes,
        volume,
        mass,
    };
    assert(r.rotation_inertia@ =~= seq![
        product(m.inertia@[0], scale),
        product(m.inertia@[1], scale),
        product(m.inertia@[2], scale),
    ]);
    r
}

/// The measures of all solids.
pub fn measure_all(
    ps: &Vec<PreparedSolid>,
    ms: &Vec<SolidMeasures>,
    solids: &Vec<PhySolid>,
    params: &PhyParams,
) -> (r: Vec<SolidGeometry>)
    requires
        ps@.len() == ms@.len(),
        ps@.len() == solids@.len(),
        forall|i: int|
            0 <= i < ps@.len() ==> {
                &&& points_exist(#[trigger] ps@[i])
                &&& ps@[i].hulls@.len() > 0
                &&& ps@[i].nodes@ == tree(0, ps@[i].hulls@.len())
            },
    ensures
        all_measured(r@, ps@, ms@, solids@, *params),
{
    let whole: u32 = count_whole_volume(ms);
    let mut out: Vec<SolidGeometry> = Vec::new();
    let mut i: usize = 0;
    while i < ps.len()
        invariant
            whole == whole_volume(ms@),
            i <= ps@.len(),
            ps@.len() == ms@.len(),
            ps@.len() == solids@.len(),
            forall|i: int|
                0 <= i < ps@.len() ==> {
                    &&& points_exist(#[trigger] ps@[i])
                    &&& ps@[i].hulls@.len() > 0
                    &&& ps@[i].nodes@ == tree(0, ps@[i].hulls@.len())
                },
            out@.len() == i,
            forall|j: int|
                0 <= j < i ==> measured(
                    #[trigger] out@[j],
                    ps@[j],
                    ms@[j],
                    solids@[j],
                    whole,
                    *params,
                ),
        decreases ps@.len() - i,
    {
        assert(points_exist(ps@[i as int]));
        out.push(measure(&ps[i], &ms[i], &solids[i], whole, params));
        i = i + 1;
    }
    out
}

/// With an inertia scale of zero no inertia is written.
pub proof fn no_scale_writes_no_inertia(
    g: SolidGeometry,
    p: PreparedSolid,
    m: SolidMeasures,
    s: PhySolid,
    whole: u32,
    params: PhyParams,
)
    requires
        measured(g, p, m, s, whole, params),
        is_zero(params.inertia_scale),
        all_finite(triple(m.inertia)),
    ensures
        is_zero(g.rotation_inertia@[0]),
        is_zero(g.rotation_inertia@[1]),
        is_zero(g.rotation_inertia@[2]),
{
    zero_times_anything(m.inertia@[0], params.inertia_scale);
    zero_times_anything(m.inertia@[1], params.inertia_scale);
    zero_times_anything(m.inertia@[2], params.inertia_scale);
}

/// A centre of mass that is asked for changes the centre that a file gives and the distances from
/// it, and nothing else of the measures.
pub proof fn given_center_is_written(
    g: SolidGeometry,
    f: SolidGeometry,
    p: PreparedSolid,
    m: SolidMeasures,
    s: PhySolid,
    whole: u32,
    params: PhyParams,
    c: [u32; 3],
)
    requires
        measured(g, p, m, s, whole, PhyParams { mass_center: None, ..params }),
        measured(f, p, m, s, whole, PhyParams { mass_center: Some(c), ..params }),
    ensures
        g.mass_center == m.mass_center,
        f.mass_center == ivp(c),
        g.upper_limit_radius == reach(p.points@, m.mass_center, p.points@.len() as int),
        f.upper_limit_radius == reach(p.points@, ivp(c), p.points@.len() as int),
        f.rotation_inertia@ == g.rotation_inertia@,
        f.volume == g.volume,
        f.mass == g.mass,
{
}

} // verus!
