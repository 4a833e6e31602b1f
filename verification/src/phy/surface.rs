//! Compact surfaces: the bytes of a solid.
use vstd::prelude::*;

use super::edges::back_edge_fits;
use super::error::{complains, PhyError};
use super::solid::{
    corners, hull_good, ledge_offset, lists_used, names_point, prepares, prepares_hull,
    shared_points, tri_point, tri_points_exist, tris_over_all_points, HullView, PreparedHull,
    PreparedSolid, COMPACT_SURFACE_SIZE,
};
use super::tree::{tree_hulls, TreeNode};
use crate::seqs::distinct_holds_each_once;
use crate::bytes::{le16, le32, put_i16, put_i32, put_u32, wrap32};
use crate::text::{decimal, push_decimal};

verus! {

/// Marks a compact surface: the letters `IVPS`.
pub const IVP_COMPACT_SURFACE_ID: u32 = 0x5350_5649;

/// The bounds of a tree node, as bit patterns, and its box in steps of its radius.
#[derive(Debug, Clone, Copy)]
pub struct NodeGeometry {
    /// The middle of the bounding box.
    pub center: [u32; 3],
    /// The radius around the middle.
    pub radius: u32,
    /// Half the box along each axis, in steps.
    pub box_sizes: [u8; 3],
}

/// The measured quantities of a solid, as bit patterns.
#[derive(Debug, Clone)]
pub struct SolidGeometry {
    /// The centre of mass.
    pub mass_center: [u32; 3],
    /// The diagonal of the inertia tensor.
    pub rotation_inertia: [u32; 3],
    /// The distance of the farthest point from the centre of mass.
    pub upper_limit_radius: u32,
    /// The bounds of the tree nodes, in the order of the tree.
    pub nodes: Vec<NodeGeometry>,
    /// The volume in cubic inches.
    pub volume: u32,
    /// The share of the mass.
    pub mass: u32,
}

/// The bytes of a vector.
pub open spec fn vec3_bytes(v: [u32; 3]) -> Seq<u8> {
    le32(v@[0]) + le32(v@[1]) + le32(v@[2])
}

/// Appends a vector.
pub fn put_vec3(buf: &mut Vec<u8>, v: [u32; 3])
    ensures
        final(buf)@ == old(buf)@ + vec3_bytes(v),
{
    put_u32(buf, v[0]);
    put_u32(buf, v[1]);
    put_u32(buf, v[2]);
    assert(buf@ =~= old(buf)@ + vec3_bytes(v));
}

/// What a hull says of the bone it belongs to: one more than the bone's index, 0 for none.
pub open spec fn client_data(bone: Option<u32>) -> int {
    match bone {
        Some(b) => b + 1,
        None => 0,
    }
}

/// The bytes of the surface header.
pub open spec fn surface_header(size: int, region: int, g: SolidGeometry) -> Seq<u8> {
    vec3_bytes(g.mass_center) + vec3_bytes(g.rotation_inertia) + le32(g.upper_limit_radius) + le32(
        (250 + 256 * (size % 16777216)) as u32,
    ) + le32((48 + region) as u32) + le32(0) + le32(0) + le32(IVP_COMPACT_SURFACE_ID)
}

/// The distance from edge `i` of triangle `k` to edge `i2` of triangle `k2`, in words.
pub open spec fn edge_distance(k: int, i: int, k2: int, i2: int) -> int {
    (4 * k2 + 1 + i2) - (4 * k + 1 + i)
}

/// An edge: its start and the distance to the edge that runs back, in 15 bits.
pub open spec fn edge_word(start: int, distance: int) -> u32 {
    (start + 65536 * (if distance >= 0 {
        distance
    } else {
        distance + 32768
    })) as u32
}

/// The word of edge `i` of triangle `k`.
pub open spec fn edge_of(h: PreparedHull, k: int, i: int) -> u32 {
    edge_word(
        h.tris@[k]@[i] as int,
        edge_distance(
            k,
            i,
            h.reverse@[3 * k + i]@[0] as int,
            h.reverse@[3 * k + i]@[1] as int,
        ),
    )
}

/// The bytes of triangle `k`.
pub open spec fn triangle_bytes(h: PreparedHull, k: int) -> Seq<u8> {
    le32((k * 4097) as u32) + le32(edge_of(h, k, 0)) + le32(edge_of(h, k, 1)) + le32(
        edge_of(h, k, 2),
    )
}

/// The bytes of the first `n` triangles.
pub open spec fn triangles_bytes(h: PreparedHull, n: int) -> Seq<u8>
    decreases n,
{
    if n <= 0 {
        Seq::empty()
    } else {
        triangles_bytes(h, n - 1) + triangle_bytes(h, n - 1)
    }
}

/// The bytes of a hull whose points start `to_points` bytes after it.
pub open spec fn ledge_bytes(h: PreparedHull, to_points: int, client: int) -> Seq<u8> {
    le32(to_points as u32) + le32(client as u32) + le32(
        (4 + 256 * (1 + h.tris@.len() + h.used@.len())) as u32,
    ) + le16(h.tris@.len() as u16) + le16(0) + triangles_bytes(h, h.tris@.len() as int)
}

/// The bytes of the first `n` hulls.
pub open spec fn ledges_bytes(p: PreparedSolid, ledges: int, client: int, n: int) -> Seq<u8>
    decreases n,
{
    if n <= 0 {
        Seq::empty()
    } else {
        ledges_bytes(p, ledges, client, n - 1) + ledge_bytes(
            p.hulls@[n - 1],
            ledges - p.hulls@[n - 1].offset,
            client,
        )
    }
}

/// The bytes of the first `n` points.
pub open spec fn points_bytes(points: Seq<[u32; 3]>, n: int) -> Seq<u8>
    decreases n,
{
    if n <= 0 {
        Seq::empty()
    } else {
        points_bytes(points, n - 1) + vec3_bytes(points[n - 1]) + le32(0)
    }
}

/// Where a node finds its hull: nowhere but in a leaf, and from the node's own place.
pub open spec fn node_link(p: PreparedSolid, i: int) -> int {
    match p.nodes@[i].hull {
        Some(h) => 48 - (48 + p.ledge_region_size + 28 * i) + p.hulls@[h as int].offset,
        None => 0,
    }
}

/// The bytes of node `i`.
pub open spec fn node_bytes(p: PreparedSolid, g: NodeGeometry, i: int) -> Seq<u8> {
    le32(wrap32(p.nodes@[i].right_offset)) + le32(wrap32(node_link(p, i) as i32)) + vec3_bytes(
        g.center,
    ) + le32(g.radius) + seq![g.box_sizes@[0], g.box_sizes@[1], g.box_sizes@[2], 0u8]
}

/// The bytes of the first `n` nodes.
pub open spec fn nodes_bytes(p: PreparedSolid, g: Seq<NodeGeometry>, n: int) -> Seq<u8>
    decreases n,
{
    if n <= 0 {
        Seq::empty()
    } else {
        nodes_bytes(p, g, n - 1) + node_bytes(p, g[n - 1], n - 1)
    }
}

/// The bytes of a solid: header, hulls, points, tree.
pub open spec fn solid_bytes(p: PreparedSolid, g: SolidGeometry, bone: Option<u32>) -> Seq<u8> {
    surface_header(p.surface_size as int, p.ledge_region_size as int, g) + ledges_bytes(
        p,
        p.ledge_region_size - 16 * p.points@.len(),
        client_data(bone),
        p.hulls@.len() as int,
    ) + points_bytes(p.points@, p.points@.len() as int) + nodes_bytes(
        p,
        g.nodes@,
        p.nodes@.len() as int,
    )
}

/// A prepared hull, as far as its bytes need it.
pub open spec fn hull_sound(h: PreparedHull) -> bool {
    &&& 0 < h.tris@.len() <= 4096
    &&& h.reverse@.len() == 3 * h.tris@.len()
    &&& forall|e: int|
        0 <= e < h.reverse@.len() ==> back_edge_fits(h.tris@, #[trigger] h.reverse@[e], e)
    &&& forall|e: int| 0 <= e < 3 * h.tris@.len() ==> #[trigger] tri_point(h.tris@, e) < 65535
    &&& h.used@.len() <= 65535
}

/// The word of an edge.
fn pack_edge(start: u32, k: usize, i: usize, k2: u32, i2: u32) -> (r: u32)
    requires
        start < 65536,
        k < 4096,
        i < 3,
        k2 < 4096,
        i2 < 3,
    ensures
        r == edge_word(
            start as int,
            edge_distance(k as int, i as int, k2 as int, i2 as int),
        ),
{
    let d: i32 = (4 * k2 as i32 + 1 + i2 as i32) - (4 * k as i32 + 1 + i as i32);
    let w: u32 = if d >= 0 {
        d as u32
    } else {
        (d + 32768) as u32
    };
    start + 65536 * w
}

/// Appends a triangle.
fn put_triangle(buf: &mut Vec<u8>, h: &PreparedHull, k: usize)
    requires
        hull_sound(*h),
        k < h.tris@.len(),
    ensures
        final(buf)@ == old(buf)@ + triangle_bytes(*h, k as int),
{
    let t: [u32; 3] = h.tris[k];
    proof {
        assert(back_edge_fits(h.tris@, h.reverse@[3 * k + 0], 3 * k + 0));
        assert(back_edge_fits(h.tris@, h.reverse@[3 * k + 1], 3 * k + 1));
        assert(back_edge_fits(h.tris@, h.reverse@[3 * k + 2], 3 * k + 2));
        assert(tri_point(h.tris@, 3 * k + 0) < 65535);
        assert(tri_point(h.tris@, 3 * k + 1) < 65535);
        assert(tri_point(h.tris@, 3 * k + 2) < 65535);
    }
    let a: [u32; 2] = h.reverse[3 * k];
    let b: [u32; 2] = h.reverse[3 * k + 1];
    let c: [u32; 2] = h.reverse[3 * k + 2];
    put_u32(buf, k as u32 * 4097);
    put_u32(buf, pack_edge(t[0], k, 0, a[0], a[1]));
    put_u32(buf, pack_edge(t[1], k, 1, b[0], b[1]));
    put_u32(buf, pack_edge(t[2], k, 2, c[0], c[1]));
    assert(buf@ =~= old(buf)@ + triangle_bytes(*h, k as int));
}

/// Appends a hull.
fn put_ledge(buf: &mut Vec<u8>, h: &PreparedHull, to_points: i32, client: i32)
    requires
        hull_sound(*h),
        to_points >= 0,
        client >= 0,
    ensures
        final(buf)@ == old(buf)@ + ledge_bytes(*h, to_points as int, client as int),
{
    put_i32(buf, to_points);
    put_i32(buf, client);
    put_u32(buf, 4 + 256 * (1 + h.tris.len() as u32 + h.used.len() as u32));
    put_i16(buf, h.tris.len() as i16);
    put_i16(buf, 0);
    let ghost head = buf@;
    let mut k: usize = 0;
    while k < h.tris.len()
        invariant
            hull_sound(*h),
            k <= h.tris@.len(),
            buf@ == head + triangles_bytes(*h, k as int),
        decreases h.tris@.len() - k,
    {
        put_triangle(buf, h, k);
        k = k + 1;
        assert(buf@ =~= head + triangles_bytes(*h, k as int));
    }
    assert(buf@ =~= old(buf)@ + ledge_bytes(*h, to_points as int, client as int));
}

/// Appends the hulls, which take `ledges` bytes together.
fn put_ledges(buf: &mut Vec<u8>, p: &PreparedSolid, ledges: usize, client: i32)
    requires
        forall|h: int| 0 <= h < p.hulls@.len() ==> hull_sound(#[trigger] p.hulls@[h]),
        forall|h: int| 0 <= h < p.hulls@.len() ==> (#[trigger] p.hulls@[h]).offset <= ledges,
        ledges <= i32::MAX,
        client >= 0,
    ensures
        final(buf)@ == old(buf)@ + ledges_bytes(
            *p,
            ledges as int,
            client as int,
            p.hulls@.len() as int,
        ),
{
    let mut h: usize = 0;
    while h < p.hulls.len()
        invariant
            forall|h: int| 0 <= h < p.hulls@.len() ==> hull_sound(#[trigger] p.hulls@[h]),
            forall|h: int| 0 <= h < p.hulls@.len() ==> (#[trigger] p.hulls@[h]).offset <= ledges,
            ledges <= i32::MAX,
            client >= 0,
            h <= p.hulls@.len(),
            buf@ == old(buf)@ + ledges_bytes(*p, ledges as int, client as int, h as int),
        decreases p.hulls@.len() - h,
    {
        let to_points: i32 = (ledges - p.hulls[h].offset) as i32;
        let ghost before = buf@;
        put_ledge(buf, &p.hulls[h], to_points, client);
        h = h + 1;
        assert(buf@ == before + ledge_bytes(p.hulls@[h - 1], to_points as int, client as int));
        assert(buf@ =~= old(buf)@ + ledges_bytes(*p, ledges as int, client as int, h as int));
    }
}

/// Appends the points.
fn put_points(buf: &mut Vec<u8>, points: &Vec<[u32; 3]>)
    ensures
        final(buf)@ == old(buf)@ + points_bytes(points@, points@.len() as int),
{
    let mut i: usize = 0;
    while i < points.len()
        invariant
            i <= points@.len(),
            buf@ == old(buf)@ + points_bytes(points@, i as int),
        decreases points@.len() - i,
    {
        put_vec3(buf, points[i]);
        put_u32(buf, 0);
        i = i + 1;
        assert(buf@ =~= old(buf)@ + points_bytes(points@, i as int));
    }
}

/// Appends the nodes.
fn put_nodes(buf: &mut Vec<u8>, p: &PreparedSolid, g: &Vec<NodeGeometry>)
    requires
        g@.len() == p.nodes@.len(),
        48 + p.ledge_region_size + 28 * p.nodes@.len() <= i32::MAX,
        forall|i: int|
            0 <= i < p.nodes@.len() ==> match (#[trigger] p.nodes@[i]).hull {
                Some(h) => h < p.hulls@.len() && p.hulls@[h as int].offset <= p.ledge_region_size,
                None => true,
            },
    ensures
        final(buf)@ == old(buf)@ + nodes_bytes(*p, g@, p.nodes@.len() as int),
{
    let mut i: usize = 0;
    while i < p.nodes.len()
        invariant
            i <= p.nodes@.len(),
            g@.len() == p.nodes@.len(),
            48 + p.ledge_region_size + 28 * p.nodes@.len() <= i32::MAX,
            forall|i: int|
                0 <= i < p.nodes@.len() ==> match (#[trigger] p.nodes@[i]).hull {
                    Some(h) => h < p.hulls@.len() && p.hulls@[h as int].offset
                        <= p.ledge_region_size,
                    None => true,
                },
            buf@ == old(buf)@ + nodes_bytes(*p, g@, i as int),
        decreases p.nodes@.len() - i,
    {
        let n: TreeNode = p.nodes[i];
        let b: NodeGeometry = g[i];
        let link: i32 = match n.hull {
            Some(h) => {
                let at: i32 = (COMPACT_SURFACE_SIZE + p.ledge_region_size + 28 * i) as i32;
                48 - at + p.hulls[h].offset as i32
            },
            None => 0,
        };
        put_i32(buf, n.right_offset);
        put_i32(buf, link);
        put_vec3(buf, b.center);
        put_u32(buf, b.radius);
        buf.push(b.box_sizes[0]);
        buf.push(b.box_sizes[1]);
        buf.push(b.box_sizes[2]);
        buf.push(0);
        i = i + 1;
        assert(buf@ =~= old(buf)@ + nodes_bytes(*p, g@, i as int));
    }
}

/// Where hull `n` starts, in bytes from the first hull.
pub open spec fn ledge_start(p: PreparedSolid, n: int) -> int
    decreases n,
{
    if n <= 0 {
        0
    } else {
        ledge_start(p, n - 1) + 16 + 16 * p.hulls@[n - 1].tris@.len()
    }
}

/// Hull `h` starts where it says.
pub open spec fn offset_ok(p: PreparedSolid, h: int) -> bool {
    p.hulls@[h].offset == ledge_start(p, h)
}

/// A prepared solid, as far as its bytes need it.
pub open spec fn solid_sound(p: PreparedSolid) -> bool {
    &&& p.hulls@.len() > 0
    &&& forall|h: int| 0 <= h < p.hulls@.len() ==> hull_sound(#[trigger] p.hulls@[h])
    &&& forall|h: int| 0 <= h < p.hulls@.len() ==> #[trigger] offset_ok(p, h)
    &&& 0 < p.points@.len() <= 65535
    &&& p.ledge_region_size == ledge_start(p, p.hulls@.len() as int) + 16 * p.points@.len()
    &&& p.surface_size == 48 + p.ledge_region_size + 28 * p.nodes@.len()
    &&& p.nodes@.len() == 2 * p.hulls@.len() - 1
    &&& forall|i: int|
        0 <= i < p.nodes@.len() ==> match (#[trigger] p.nodes@[i]).hull {
            Some(h) => h < p.hulls@.len(),
            None => true,
        }
}

/// The starts of the hulls do not decrease.
pub proof fn starts_grow(p: PreparedSolid, m: int, n: int)
    requires
        0 <= m <= n,
    ensures
        0 <= ledge_start(p, m) <= ledge_start(p, n),
        m < n ==> ledge_start(p, m) + 16 + 16 * p.hulls@[m].tris@.len() <= ledge_start(p, n),
    decreases n,
{
    if m < n {
        starts_grow(p, m, n - 1);
    } else if m > 0 {
        starts_grow(p, m - 1, m - 1);
    }
}

proof fn starts_are_offsets(p: PreparedSolid, hulls: Seq<HullView>, n: int)
    requires
        prepares(p, hulls),
        0 <= n <= hulls.len(),
    ensures
        ledge_start(p, n) == ledge_offset(hulls, n),
    decreases n,
{
    if n > 0 {
        starts_are_offsets(p, hulls, n - 1);
        assert(prepares_hull(p.hulls@[n - 1], hulls, n - 1));
    }
}

/// Whatever hulls a solid was prepared from, it is sound.
pub proof fn prepared_is_sound(p: PreparedSolid, hulls: Seq<HullView>)
    requires
        prepares(p, hulls),
    ensures
        solid_sound(p),
{
    let n = hulls.len() as int;
    starts_are_offsets(p, hulls, n);
    tree_hulls(0, hulls.len());
    let all = shared_points(hulls, n);
    distinct_holds_each_once(corners(hulls, n));
    assert forall|h: int| 0 <= h < p.hulls@.len() implies #[trigger] offset_ok(p, h) by {
        assert(prepares_hull(p.hulls@[h], hulls, h));
        starts_are_offsets(p, hulls, h);
    }
    assert forall|h: int| 0 <= h < p.hulls@.len() implies hull_sound(#[trigger] p.hulls@[h]) by {
        let q = p.hulls@[h];
        assert(prepares_hull(q, hulls, h));
        assert(hull_good(hulls, h));
        tris_over_all_points(hulls, h, n);
        let few = shared_points(hulls, h + 1);
        let hull = hulls[h];
        assert forall|e: int| 0 <= e < 3 * q.tris@.len() implies #[trigger] tri_point(q.tris@, e)
            < few.len() by {
            tri_points_exist(hulls, h, e);
        }
        used_are_few(q.used@, q.tris@, few.len());
    }
    assert(prepares_hull(p.hulls@[0], hulls, 0));
    assert(hull_good(hulls, 0));
    tris_over_all_points(hulls, 0, n);
    tri_points_exist(hulls, 0, 0);
}

/// A list of used points is no longer than the points are many.
proof fn used_are_few(used: Seq<u32>, tris: Seq<[u32; 3]>, n: nat)
    requires
        lists_used(used, tris),
        forall|e: int| 0 <= e < 3 * tris.len() ==> #[trigger] tri_point(tris, e) < n,
    ensures
        used.len() <= n,
{
    if used.len() > 0 {
        let k = used.len() - 1;
        increasing_exceeds_index(used, k);
        assert(used.contains(used[k]));
        assert(names_point(tris, used[k]));
    }
}

proof fn increasing_exceeds_index(used: Seq<u32>, i: int)
    requires
        forall|i: int, j: int| 0 <= i < j < used.len() ==> used[i] < used[j],
        0 <= i < used.len(),
    ensures
        used[i] >= i,
    decreases i,
{
    if i > 0 {
        increasing_exceeds_index(used, i - 1);
    }
}

/// What is wrong with a bone's index that does not fit.
pub open spec fn bone_error(bone: u32) -> Seq<char> {
    if bone == u32::MAX {
        "骨骼下标 "@ + decimal(bone as nat) + " +1 溢出 u32"@
    } else {
        "骨骼下标 "@ + decimal(bone as nat) + " +1 后超出 i32"@
    }
}

/// The bytes of a prepared solid; an error where the bone's index does not fit.
pub fn build_solid_body(p: &PreparedSolid, g: &SolidGeometry, bone_index: Option<u32>) -> (r:
    Result<Vec<u8>, PhyError>)
    requires
        solid_sound(*p),
        g.nodes@.len() == p.nodes@.len(),
    ensures
        match r {
            Ok(b) => client_data(bone_index) <= i32::MAX && b@ == solid_bytes(*p, *g, bone_index),
            Err(e) => {
                &&& client_data(bone_index) > i32::MAX
                &&& complains(e, "bone_index"@, bone_error(bone_index->0))
            },
        },
{
    let client: i32 = match bone_index {
        Some(b) => {
            if b >= 0x7FFF_FFFF {
                let mut detail: String = "骨骼下标 ".to_owned();
                push_decimal(&mut detail, b as u64);
                if b == 0xFFFF_FFFF {
                    detail.push_str(" +1 溢出 u32");
                } else {
                    detail.push_str(" +1 后超出 i32");
                }
                return Err(PhyError::BadParameter { what: "bone_index", detail });
            }
            (b + 1) as i32
        },
        None => 0,
    };
    let size: u32 = p.surface_size as u32;
    proof {
        starts_grow(*p, 0, p.hulls@.len() as int);
    }
    let ledges: usize = p.ledge_region_size - 16 * p.points.len();
    let mut body: Vec<u8> = Vec::new();
    put_vec3(&mut body, g.mass_center);
    put_vec3(&mut body, g.rotation_inertia);
    put_u32(&mut body, g.upper_limit_radius);
    put_u32(&mut body, 250 + 256 * (size % 16777216));
    put_u32(&mut body, (COMPACT_SURFACE_SIZE + p.ledge_region_size) as u32);
    put_u32(&mut body, 0);
    put_u32(&mut body, 0);
    put_u32(&mut body, IVP_COMPACT_SURFACE_ID);
    let ghost head = surface_header(p.surface_size as int, p.ledge_region_size as int, *g);
    assert(body@ =~= head);
    proof {
        assert forall|h: int| 0 <= h < p.hulls@.len() implies (#[trigger] p.hulls@[h]).offset
            <= ledges by {
            assert(offset_ok(*p, h));
            starts_grow(*p, h, p.hulls@.len() as int);
        }
    }
    put_ledges(&mut body, p, ledges, client);
    proof {
        assert forall|i: int| 0 <= i < p.nodes@.len() implies match (#[trigger] p.nodes@[i]).hull {
            Some(h) => h < p.hulls@.len() && p.hulls@[h as int].offset <= p.ledge_region_size,
            None => true,
        } by {
            match p.nodes@[i].hull {
                Some(h) => {
                    assert(offset_ok(*p, h as int));
                    starts_grow(*p, h as int, p.hulls@.len() as int);
                },
                None => {},
            }
        }
    }
    put_points(&mut body, &p.points);
    put_nodes(&mut body, p, &g.nodes);
    assert(body@ =~= solid_bytes(*p, *g, bone_index));
    Ok(body)
}

} // verus!
