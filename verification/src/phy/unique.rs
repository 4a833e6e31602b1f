//! What is written follows from what goes in.
use vstd::prelude::*;

use super::bounds::{measures_box, range_box};
use super::check::{phy_ok, used_is_unique};
use super::edges::{back_edge_fits, edges_pair_up, opposite_edge_is_unique};
use super::error::PhyError;
use super::mass::{all_measured, measured, whole_volume, SolidMeasures};
use super::params::{PhyParams, PhySolid};
use super::section::{section_text, solid_block, solid_blocks};
use super::solid::{
    hull_good, prepares, prepares_hull, HullView, PhyHull, PreparedHull, PreparedSolid,
};
use super::surface::{
    client_data, edge_of, ledge_bytes, ledges_bytes, node_bytes, node_link, nodes_bytes,
    solid_bytes, surface_header, triangle_bytes, triangles_bytes, vec3_bytes, NodeGeometry,
    SolidGeometry,
};
use super::tree::tree_hulls;
use super::write::{
    file_bytes, file_of, hulls_of, prepares_all, solids_bytes, writable, written,
};

verus! {

/// Two hulls are the same.
spec fn same_hull(a: PreparedHull, b: PreparedHull) -> bool {
    &&& a.tris@ == b.tris@
    &&& a.reverse@ == b.reverse@
    &&& a.used@ == b.used@
    &&& a.offset == b.offset
}

/// Two solids are the same.
#[verifier::opaque]
spec fn same_solid(p: PreparedSolid, q: PreparedSolid) -> bool {
    &&& p.points@ == q.points@
    &&& p.hulls@.len() == q.hulls@.len()
    &&& forall|h: int| 0 <= h < p.hulls@.len() ==> same_hull(#[trigger] p.hulls@[h], q.hulls@[h])
    &&& p.nodes@ == q.nodes@
    &&& p.ledge_region_size == q.ledge_region_size
    &&& p.surface_size == q.surface_size
    &&& forall|i: int|
        0 <= i < p.nodes@.len() ==> match (#[trigger] p.nodes@[i]).hull {
            Some(h) => h < p.hulls@.len(),
            None => true,
        }
}

/// Two measures of a node are the same.
spec fn same_node(a: NodeGeometry, b: NodeGeometry) -> bool {
    a.center@ == b.center@ && a.radius == b.radius && a.box_sizes@ == b.box_sizes@
}

/// Two measures of a solid are the same.
#[verifier::opaque]
spec fn same_measures(a: SolidGeometry, b: SolidGeometry) -> bool {
    &&& a.mass_center@ == b.mass_center@
    &&& a.rotation_inertia@ == b.rotation_inertia@
    &&& a.upper_limit_radius == b.upper_limit_radius
    &&& a.nodes@.len() == b.nodes@.len()
    &&& forall|i: int| 0 <= i < a.nodes@.len() ==> same_node(#[trigger] a.nodes@[i], b.nodes@[i])
    &&& a.volume == b.volume
    &&& a.mass == b.mass
}

proof fn hulls_agree(a: PreparedHull, b: PreparedHull, hulls: Seq<HullView>, h: int)
    requires
        prepares_hull(a, hulls, h),
        prepares_hull(b, hulls, h),
        edges_pair_up(a.tris@, false),
    ensures
        same_hull(a, b),
{
    used_is_unique(a.used@, b.used@, a.tris@);
    assert forall|e: int| 0 <= e < a.reverse@.len() implies a.reverse@[e] == b.reverse@[e] by {
        let r = a.reverse@[e];
        let s = b.reverse@[e];
        assert(back_edge_fits(a.tris@, r, e));
        assert(back_edge_fits(b.tris@, s, e));
        opposite_edge_is_unique(a.tris@, false, 3 * r@[0] + r@[1], 3 * s@[0] + s@[1], e);
        assert(r@ =~= s@);
    }
    assert(a.reverse@ =~= b.reverse@);
}

proof fn solids_agree(p: PreparedSolid, q: PreparedSolid, hulls: Seq<HullView>)
    requires
        prepares(p, hulls),
        prepares(q, hulls),
    ensures
        same_solid(p, q),
{
    reveal(same_solid);
    assert(p.hulls.len() <= usize::MAX);
    tree_hulls(0, hulls.len());
    assert forall|h: int| 0 <= h < p.hulls@.len() implies same_hull(
        #[trigger] p.hulls@[h],
        q.hulls@[h],
    ) by {
        assert(prepares_hull(p.hulls@[h], hulls, h));
        assert(prepares_hull(q.hulls@[h], hulls, h));
        assert(hull_good(hulls, h));
        hulls_agree(p.hulls@[h], q.hulls@[h], hulls, h);
    }
}

proof fn triangles_agree(a: PreparedHull, b: PreparedHull, n: int)
    requires
        same_hull(a, b),
    ensures
        triangles_bytes(a, n) == triangles_bytes(b, n),
    decreases n,
{
    if n > 0 {
        triangles_agree(a, b, n - 1);
        assert(edge_of(a, n - 1, 0) == edge_of(b, n - 1, 0));
        assert(edge_of(a, n - 1, 1) == edge_of(b, n - 1, 1));
        assert(edge_of(a, n - 1, 2) == edge_of(b, n - 1, 2));
        assert(triangle_bytes(a, n - 1) == triangle_bytes(b, n - 1));
    }
}

proof fn ledges_agree(p: PreparedSolid, q: PreparedSolid, ledges: int, client: int, n: int)
    requires
        same_solid(p, q),
        n <= p.hulls@.len(),
    ensures
        ledges_bytes(p, ledges, client, n) == ledges_bytes(q, ledges, client, n),
    decreases n,
{
    if n > 0 {
        ledges_agree(p, q, ledges, client, n - 1);
        let a = p.hulls@[n - 1];
        let b = q.hulls@[n - 1];
        assert(same_hull(a, b)) by {
            reveal(same_solid);
        }
        triangles_agree(a, b, a.tris@.len() as int);
        assert(ledge_bytes(a, ledges - a.offset, client) == ledge_bytes(
            b,
            ledges - b.offset,
            client,
        ));
    }
}

proof fn vectors_agree(a: [u32; 3], b: [u32; 3])
    requires
        a@ == b@,
    ensures
        vec3_bytes(a) == vec3_bytes(b),
{
}

proof fn nodes_agree(
    p: PreparedSolid,
    q: PreparedSolid,
    g: Seq<NodeGeometry>,
    f: Seq<NodeGeometry>,
    n: int,
)
    requires
        same_solid(p, q),
        n <= p.nodes@.len(),
        forall|i: int| 0 <= i < n ==> same_node(#[trigger] g[i], f[i]),
    ensures
        nodes_bytes(p, g, n) == nodes_bytes(q, f, n),
    decreases n,
{
    if n > 0 {
        nodes_agree(p, q, g, f, n - 1);
        assert(same_node(g[n - 1], f[n - 1]));
        vectors_agree(g[n - 1].center, f[n - 1].center);
        reveal(same_solid);
        match p.nodes@[n - 1].hull {
            Some(h) => {
                assert(same_hull(p.hulls@[h as int], q.hulls@[h as int]));
            },
            None => {},
        }
        assert(node_link(p, n - 1) == node_link(q, n - 1));
        assert(node_bytes(p, g[n - 1], n - 1) == node_bytes(q, f[n - 1], n - 1));
    }
}

proof fn bodies_agree(
    p: PreparedSolid,
    q: PreparedSolid,
    g: SolidGeometry,
    f: SolidGeometry,
    bone: Option<u32>,
)
    requires
        same_solid(p, q),
        same_measures(g, f),
        g.nodes@.len() == p.nodes@.len(),
    ensures
        solid_bytes(p, g, bone) == solid_bytes(q, f, bone),
        p.surface_size == q.surface_size,
{
    assert(p.points@ == q.points@ && p.ledge_region_size == q.ledge_region_size && p.surface_size
        == q.surface_size && p.nodes@.len() == q.nodes@.len() && p.hulls@.len() == q.hulls@.len())
        by {
        reveal(same_solid);
    }
    let ledges = p.ledge_region_size - 16 * p.points@.len();
    ledges_agree(p, q, ledges, client_data(bone), p.hulls@.len() as int);
    reveal(same_measures);
    vectors_agree(g.mass_center, f.mass_center);
    vectors_agree(g.rotation_inertia, f.rotation_inertia);
    nodes_agree(p, q, g.nodes@, f.nodes@, p.nodes@.len() as int);
    assert(surface_header(p.surface_size as int, p.ledge_region_size as int, g) == surface_header(
        q.surface_size as int,
        q.ledge_region_size as int,
        f,
    ));
}

proof fn boxes_agree(p: PreparedSolid, q: PreparedSolid, first: nat, count: nat)
    requires
        same_solid(p, q),
        count >= 1,
        first + count <= p.hulls@.len(),
    ensures
        range_box(p, first, count) == range_box(q, first, count),
    decreases count,
{
    if count <= 1 {
        reveal(same_solid);
        assert(same_hull(p.hulls@[first as int], q.hulls@[first as int]));
    } else {
        boxes_agree(p, q, first, count / 2);
        boxes_agree(p, q, first + count / 2, (count - count / 2) as nat);
    }
}

proof fn measures_agree(
    g: SolidGeometry,
    f: SolidGeometry,
    p: PreparedSolid,
    q: PreparedSolid,
    hulls: Seq<HullView>,
    m: SolidMeasures,
    s: PhySolid,
    whole: u32,
    params: PhyParams,
)
    requires
        prepares(p, hulls),
        same_solid(p, q),
        measured(g, p, m, s, whole, params),
        measured(f, q, m, s, whole, params),
    ensures
        same_measures(g, f),
{
    reveal(same_measures);
    assert(p.points@ == q.points@ && p.nodes@ == q.nodes@) by {
        reveal(same_solid);
    }
    assert(p.hulls.len() <= usize::MAX);
    super::bounds::nodes_in_range(0, hulls.len());
    assert forall|i: int| 0 <= i < g.nodes@.len() implies same_node(
        #[trigger] g.nodes@[i],
        f.nodes@[i],
    ) by {
        let t = p.nodes@[i];
        assert(super::bounds::node_in_range(super::tree::tree(0, hulls.len())[i], 0, hulls.len()));
        boxes_agree(p, q, t.first as nat, t.count as nat);
        assert(measures_box(
            g.nodes@[i],
            range_box(p, p.nodes@[i].first as nat, p.nodes@[i].count as nat),
        ));
        assert(measures_box(
            f.nodes@[i],
            range_box(q, q.nodes@[i].first as nat, q.nodes@[i].count as nat),
        ));
    }
}

proof fn blocks_agree(
    solids: Seq<PhySolid>,
    g: Seq<SolidGeometry>,
    f: Seq<SolidGeometry>,
    params: PhyParams,
    n: int,
)
    requires
        n <= g.len(),
        g.len() == f.len(),
        forall|i: int|
            0 <= i < g.len() ==> (#[trigger] g[i]).mass == f[i].mass && g[i].volume == f[i].volume,
    ensures
        solid_blocks(solids, g, params, n) == solid_blocks(solids, f, params, n),
    decreases n,
{
    if n > 0 {
        blocks_agree(solids, g, f, params, n - 1);
        assert(g[n - 1].mass == f[n - 1].mass);
        assert(solid_block(n - 1, solids[n - 1], g[n - 1], params) == solid_block(
            n - 1,
            solids[n - 1],
            f[n - 1],
            params,
        ));
    }
}

proof fn all_bodies_agree(
    ps: Seq<PreparedSolid>,
    qs: Seq<PreparedSolid>,
    g: Seq<SolidGeometry>,
    f: Seq<SolidGeometry>,
    solids: Seq<PhySolid>,
    n: int,
)
    requires
        n <= ps.len(),
        forall|i: int|
            0 <= i < ps.len() ==> {
                &&& same_solid(#[trigger] ps[i], qs[i])
                &&& same_measures(g[i], f[i])
                &&& g[i].nodes@.len() == ps[i].nodes@.len()
            },
    ensures
        solids_bytes(ps, g, solids, n) == solids_bytes(qs, f, solids, n),
    decreases n,
{
    if n > 0 {
        all_bodies_agree(ps, qs, g, f, solids, n - 1);
        assert(same_solid(ps[n - 1], qs[n - 1]));
        bodies_agree(ps[n - 1], qs[n - 1], g[n - 1], f[n - 1], solids[n - 1].bone_index);
    }
}

/// The same hulls, measures and parameters make the same file.
pub proof fn files_agree(
    a: Seq<u8>,
    b: Seq<u8>,
    hulls: Seq<Vec<PhyHull>>,
    ms: Seq<SolidMeasures>,
    solids: Seq<PhySolid>,
    params: PhyParams,
)
    requires
        file_of(a, hulls, ms, solids, params),
        file_of(b, hulls, ms, solids, params),
        solids.len() == hulls.len(),
    ensures
        a == b,
{
    let (ps, g) = choose|ps: Seq<PreparedSolid>, g: Seq<SolidGeometry>|
        {
            &&& #[trigger] prepares_all(ps, hulls)
            &&& #[trigger] all_measured(g, ps, ms, solids, params)
            &&& a == file_bytes(ps, g, solids, params)
        };
    let (qs, f) = choose|qs: Seq<PreparedSolid>, f: Seq<SolidGeometry>|
        {
            &&& #[trigger] prepares_all(qs, hulls)
            &&& #[trigger] all_measured(f, qs, ms, solids, params)
            &&& b == file_bytes(qs, f, solids, params)
        };
    let whole = whole_volume(ms);
    assert forall|i: int| 0 <= i < ps.len() implies {
        &&& same_solid(#[trigger] ps[i], qs[i])
        &&& same_measures(g[i], f[i])
        &&& g[i].nodes@.len() == ps[i].nodes@.len()
    } by {
        assert(prepares(ps[i], hulls_of(hulls, i)));
        assert(prepares(qs[i], hulls_of(hulls, i)));
        solids_agree(ps[i], qs[i], hulls_of(hulls, i));
        assert(measured(g[i], ps[i], ms[i], solids[i], whole, params));
        assert(measured(f[i], qs[i], ms[i], solids[i], whole, params));
        measures_agree(
            g[i],
            f[i],
            ps[i],
            qs[i],
            hulls_of(hulls, i),
            ms[i],
            solids[i],
            whole,
            params,
        );
    }
    all_bodies_agree(ps, qs, g, f, solids, ps.len() as int);
    assert forall|i: int| 0 <= i < g.len() implies (#[trigger] g[i]).mass == f[i].mass
        && g[i].volume == f[i].volume by {
        assert(same_solid(ps[i], qs[i]));
        reveal(same_measures);
    }
    blocks_agree(solids, g, f, params, solids.len() as int);
    assert(section_text(solids, g, params) == section_text(solids, f, params));
}

/// Writing the same hulls, measures and parameters twice gives the same bytes, or fails twice.
pub proof fn writing_is_determined(
    r: Result<Vec<u8>, PhyError>,
    s: Result<Vec<u8>, PhyError>,
    hulls: Seq<Vec<PhyHull>>,
    ms: Seq<SolidMeasures>,
    solids: Seq<PhySolid>,
    params: PhyParams,
)
    requires
        written(r, hulls, ms, solids, params),
        written(s, hulls, ms, solids, params),
    ensures
        match (r, s) {
            (Ok(a), Ok(b)) => a@ == b@,
            (Err(_), Err(_)) => true,
            _ => false,
        },
{
    if writable(hulls, ms, solids, params) {
        let a = match r {
            Ok(a) => a@,
            Err(_) => choose|bytes: Seq<u8>| #[trigger]
                file_of(bytes, hulls, ms, solids, params) && !phy_ok(bytes),
        };
        let b = match s {
            Ok(b) => b@,
            Err(_) => choose|bytes: Seq<u8>| #[trigger]
                file_of(bytes, hulls, ms, solids, params) && !phy_ok(bytes),
        };
        files_agree(a, b, hulls, ms, solids, params);
    }
}

} // verus!
