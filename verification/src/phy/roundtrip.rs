//! What is written keeps every rule by which it is read.
use vstd::prelude::*;

use super::bounds::{
    box_around, boxes_agree, hull_box, measures_box, measures_nodes, middle_of,
    prepared_points_exist, radius_of, range_box, reach, BoundsView,
};
use super::check::{
    apart, at_most_zero, box_at, chain_ok, distance_at, end_at, file_points, first_link, frame_ok,
    header_ok, hull_end, hull_mesh_ok, hull_node_ok, hull_ok, hull_starts, link_at, linked,
    node_fits, node_ok, nodes_at, phy_ok, points_at, reach_ok, region_at, right_at, solid_base,
    solid_ok, surface_at, text_ok, tree_at, tree_ok, tri_at, triangle_at, triangles_at, tris_at,
    used_counts_named, used_is_unique, used_of, walk, COLLIDE_POLY, RADIUS_TOLERANCE, TOLERANCE,
    VPHYSICS_COLLISION_VERSION, VPHYSICS_ID,
};
use super::error::PhyError;
use super::legible::{clean_texts_keep_the_rules, texts_clean};
use super::edges::{back_edge_fits, edges_pair_up, opposite, opposite_edge_is_unique};
use super::mass::{all_measured, measured, whole_volume, SolidMeasures};
use super::params::{PhyParams, PhySolid};
use super::placing::{
    distance_fits, edge_reads, half_stands, ledge_reads, ledge_stands, ledges_size, measures_read,
    node_reads, node_stands, point_reads, points_size, solid_size, stand_apart, stands,
    triangle_reads, triangle_stands, vector_reads, word_stands,
};
use super::section::section_bytes;
use super::solid::{
    finite_point, hull_good, index_exists, lists_used, names_point, shared_points, surface_size,
    prepares, prepares_hull, tri_point, tri_points_exist,
    tris, tris_over_all_points, HullView, PhyHull, PreparedHull, PreparedSolid,
};
use super::surface::{
    client_data, edge_distance, hull_sound, ledge_start, ledges_bytes, node_link, nodes_bytes,
    offset_ok, points_bytes, prepared_is_sound, solid_bytes, solid_sound, starts_grow,
    surface_header, triangles_bytes, vec3_bytes, NodeGeometry, SolidGeometry,
    IVP_COMPACT_SURFACE_ID,
};
use super::tree::{tree, tree_size, TreeNode};
use super::write::{
    file_bytes, file_header, file_of, hulls_of, prepares_all, solid_header, solids_bytes, writable, written,
};
use crate::arith::{product, sum};
use crate::bytes::{i32_at, le16, le32, u16_at, u32_at, wrap16};
use crate::seqs::insert_sorted;
use crate::single::{has_sign, magnitude_of, negated};

use super::placed::ivp;

verus! {

/// A prepared solid stands at `base`, and its size fits where it is written in 24 bits.
#[verifier::opaque]
pub open spec fn solid_here(
    b: Seq<u8>,
    base: int,
    p: PreparedSolid,
    g: SolidGeometry,
    bone: Option<u32>,
) -> bool {
    &&& stands(b, base, solid_header(p.surface_size as int) + solid_bytes(p, g, bone))
    &&& solid_sound(p)
    &&& p.surface_size < 16777216
    &&& g.nodes@.len() == p.nodes@.len()
    &&& 0 <= client_data(bone) <= i32::MAX
}

/// What is known of a solid that stands somewhere.
proof fn here_is_sound(b: Seq<u8>, base: int, p: PreparedSolid, g: SolidGeometry, bone: Option<u32>)
    requires
        solid_here(b, base, p, g, bone),
    ensures
        solid_sound(p),
        p.surface_size < 16777216,
        g.nodes@.len() == p.nodes@.len(),
        0 <= client_data(bone) <= i32::MAX,
{
    reveal(solid_here);
}

/// How many bytes the hulls take.
pub open spec fn ledges_of(p: PreparedSolid) -> int {
    p.ledge_region_size - 16 * p.points@.len()
}

/// What is read of a solid's header.
proof fn header_reads(b: Seq<u8>, base: int, size: int)
    requires
        stands(b, base, solid_header(size)),
        0 <= size < 16777216,
    ensures
        i32_at(b, base) == size + 28,
        u32_at(b, base + 4) == VPHYSICS_ID,
        u16_at(b, base + 8) == VPHYSICS_COLLISION_VERSION,
        crate::bytes::i16_at(b, base + 10) == COLLIDE_POLY,
        i32_at(b, base + 12) == size,
        i32_at(b, base + 28) == 0,
{
    let a = le32((size + 28) as u32);
    let c = le32(VPHYSICS_ID);
    let d = le16(VPHYSICS_COLLISION_VERSION);
    let e = le16(wrap16(COLLIDE_POLY));
    let f = le32(size as u32);
    let one = le32(0x3F80_0000);
    let z = le32(0);
    stand_apart(b, base, a + c + d + e + f + one + one + one, z);
    stand_apart(b, base, a + c + d + e + f + one + one, one);
    stand_apart(b, base, a + c + d + e + f + one, one);
    stand_apart(b, base, a + c + d + e + f, one);
    stand_apart(b, base, a + c + d + e, f);
    stand_apart(b, base, a + c + d, e);
    stand_apart(b, base, a + c, d);
    stand_apart(b, base, a, c);
    word_stands(b, base, (size + 28) as u32);
    word_stands(b, base + 4, VPHYSICS_ID);
    half_stands(b, base + 8, VPHYSICS_COLLISION_VERSION);
    half_stands(b, base + 10, wrap16(COLLIDE_POLY));
    word_stands(b, base + 12, size as u32);
    word_stands(b, base + 28, 0);
}

/// The parts of a surface's header stand one behind the other.
proof fn surface_apart(b: Seq<u8>, o: int, size: int, region: int, g: SolidGeometry)
    requires
        stands(b, o, surface_header(size, region, g)),
    ensures
        stands(b, o, vec3_bytes(g.mass_center)),
        stands(b, o + 24, le32(g.upper_limit_radius)),
        stands(b, o + 28, le32((250 + 256 * (size % 16777216)) as u32)),
        stands(b, o + 32, le32((48 + region) as u32)),
        stands(b, o + 36, le32(0)),
        stands(b, o + 40, le32(0)),
        stands(b, o + 44, le32(IVP_COMPACT_SURFACE_ID)),
{
    let m = vec3_bytes(g.mass_center);
    let r = vec3_bytes(g.rotation_inertia);
    let u = le32(g.upper_limit_radius);
    let s = le32((250 + 256 * (size % 16777216)) as u32);
    let t = le32((48 + region) as u32);
    let z = le32(0);
    let id = le32(IVP_COMPACT_SURFACE_ID);
    stand_apart(b, o, m + r + u + s + t + z + z, id);
    stand_apart(b, o, m + r + u + s + t + z, z);
    stand_apart(b, o, m + r + u + s + t, z);
    stand_apart(b, o, m + r + u + s, t);
    stand_apart(b, o, m + r + u, s);
    stand_apart(b, o, m + r, u);
    stand_apart(b, o, m, r);
}

/// What is read of a surface's header.
#[verifier::spinoff_prover]
#[verifier::rlimit(60)]
proof fn surface_reads(b: Seq<u8>, o: int, size: int, region: int, g: SolidGeometry)
    requires
        stands(b, o, surface_header(size, region, g)),
        0 <= size < 16777216,
        0 <= region < 16777216,
    ensures
        u32_at(b, o) == g.mass_center@[0],
        u32_at(b, o + 4) == g.mass_center@[1],
        u32_at(b, o + 8) == g.mass_center@[2],
        u32_at(b, o + 24) == g.upper_limit_radius,
        u32_at(b, o + 28) == 250 + 256 * size,
        i32_at(b, o + 32) == 48 + region,
        i32_at(b, o + 36) == 0,
        i32_at(b, o + 40) == 0,
        u32_at(b, o + 44) == IVP_COMPACT_SURFACE_ID,
{
    surface_apart(b, o, size, region, g);
    vector_reads(b, o, g.mass_center);
    word_stands(b, o + 24, g.upper_limit_radius);
    word_stands(b, o + 28, (250 + 256 * (size % 16777216)) as u32);
    word_stands(b, o + 32, (48 + region) as u32);
    word_stands(b, o + 36, 0);
    word_stands(b, o + 40, 0);
    word_stands(b, o + 44, IVP_COMPACT_SURFACE_ID);
}

/// The sizes of headers.
proof fn headers_size(size: int, region: int, g: SolidGeometry)
    ensures
        solid_header(size).len() == 32,
        surface_header(size, region, g).len() == 48,
{
}

/// Four parts stand one behind the other.
proof fn four_stand(b: Seq<u8>, o: int, w: Seq<u8>, x: Seq<u8>, y: Seq<u8>, z: Seq<u8>)
    requires
        stands(b, o, w + x + y + z),
    ensures
        stands(b, o, w),
        stands(b, o + w.len(), x),
        stands(b, o + w.len() + x.len(), y),
        stands(b, o + w.len() + x.len() + y.len(), z),
{
    stand_apart(b, o, w + x + y, z);
    stand_apart(b, o, w + x, y);
    stand_apart(b, o, w, x);
}

/// The parts of a solid stand where its sizes say.
#[verifier::spinoff_prover]
proof fn parts_stand(b: Seq<u8>, base: int, p: PreparedSolid, g: SolidGeometry, bone: Option<u32>)
    requires
        solid_here(b, base, p, g, bone),
    ensures
        stands(b, base, solid_header(p.surface_size as int)),
        stands(
            b,
            base + 32,
            surface_header(p.surface_size as int, p.ledge_region_size as int, g),
        ),
        stands(
            b,
            base + 80,
            ledges_bytes(p, ledges_of(p), client_data(bone), p.hulls@.len() as int),
        ),
        stands(b, base + 80 + ledges_of(p), points_bytes(p.points@, p.points@.len() as int)),
        stands(
            b,
            base + 80 + p.ledge_region_size,
            nodes_bytes(p, g.nodes@, p.nodes@.len() as int),
        ),
        0 <= base,
        base + 32 + p.surface_size <= b.len(),
        ledges_of(p) == ledge_start(p, p.hulls@.len() as int),
{
    reveal(solid_here);
    reveal(stands);
    let n = p.hulls@.len() as int;
    let header = surface_header(p.surface_size as int, p.ledge_region_size as int, g);
    let ledges = ledges_bytes(p, ledges_of(p), client_data(bone), n);
    let points = points_bytes(p.points@, p.points@.len() as int);
    let nodes = nodes_bytes(p, g.nodes@, p.nodes@.len() as int);
    headers_size(p.surface_size as int, p.ledge_region_size as int, g);
    stand_apart(b, base, solid_header(p.surface_size as int), solid_bytes(p, g, bone));
    assert(solid_bytes(p, g, bone) == header + ledges + points + nodes);
    solid_size(p, g, bone);
    ledges_size(p, ledges_of(p), client_data(bone), n);
    points_size(p.points@, p.points@.len() as int);
    four_stand(b, base + 32, header, ledges, points, nodes);
}

/// Numbers that are read of headers make them as they must be.
proof fn frame_from_numbers(b: Seq<u8>, base: int, size: int, region: int, n: int)
    requires
        0 <= base,
        base + 32 + size <= b.len(),
        0 <= size < 16777216,
        0 < region < 16777216,
        0 < n,
        size == 48 + region + 28 * n,
        i32_at(b, base) == size + 28,
        u32_at(b, base + 4) == VPHYSICS_ID,
        u16_at(b, base + 8) == VPHYSICS_COLLISION_VERSION,
        crate::bytes::i16_at(b, base + 10) == COLLIDE_POLY,
        i32_at(b, base + 12) == size,
        i32_at(b, base + 28) == 0,
        u32_at(b, base + 60) == 250 + 256 * size,
        i32_at(b, base + 64) == 48 + region,
        i32_at(b, base + 68) == 0,
        i32_at(b, base + 72) == 0,
        u32_at(b, base + 76) == IVP_COMPACT_SURFACE_ID,
    ensures
        frame_ok(b, base),
        surface_at(b, base) == size,
        end_at(b, base) == base + 32 + size,
        tree_at(b, base) == base + 80 + region,
        nodes_at(b, base) == n,
{
    reveal(frame_ok);
    assert(end_at(b, base) - tree_at(b, base) == 28 * n);
    assert((28 * n) % 28 == 0) by (nonlinear_arith);
    assert((28 * n) / 28 == n) by (nonlinear_arith);
}

/// The headers of a written solid are as they must be.
proof fn frame_holds(b: Seq<u8>, base: int, p: PreparedSolid, g: SolidGeometry, bone: Option<u32>)
    requires
        solid_here(b, base, p, g, bone),
    ensures
        frame_ok(b, base),
        surface_at(b, base) == p.surface_size,
        end_at(b, base) == base + 32 + p.surface_size,
        tree_at(b, base) == base + 80 + p.ledge_region_size,
        nodes_at(b, base) == p.nodes@.len(),
{
    here_is_sound(b, base, p, g, bone);
    parts_stand(b, base, p, g, bone);
    starts_grow(p, 0, p.hulls@.len() as int);
    header_reads(b, base, p.surface_size as int);
    surface_reads(b, base + 32, p.surface_size as int, p.ledge_region_size as int, g);
    frame_from_numbers(
        b,
        base,
        p.surface_size as int,
        p.ledge_region_size as int,
        p.nodes@.len() as int,
    );
}

/// What is read of node `i` is what the solid has there.
pub open spec fn node_as_written(b: Seq<u8>, t: int, p: PreparedSolid, i: int) -> bool {
    &&& right_at(b, t, i) == p.nodes@[i].right_offset
    &&& link_at(b, t, i) == node_link(p, i)
    &&& b[t + 28 * i + 27] == 0
}

/// What is read of the nodes of a written solid.
proof fn nodes_hold(b: Seq<u8>, base: int, p: PreparedSolid, g: SolidGeometry, bone: Option<u32>)
    requires
        solid_here(b, base, p, g, bone),
    ensures
        forall|i: int|
            0 <= i < p.nodes@.len() ==> #[trigger] node_as_written(
                b,
                base + 80 + p.ledge_region_size,
                p,
                i,
            ),
{
    here_is_sound(b, base, p, g, bone);
    parts_stand(b, base, p, g, bone);
    let t = base + 80 + p.ledge_region_size;
    assert forall|i: int| 0 <= i < p.nodes@.len() implies #[trigger] node_as_written(
        b,
        t,
        p,
        i,
    ) by {
        node_stands(b, t, p, g.nodes@, p.nodes@.len() as int, i);
        node_reads(b, t + 28 * i, p, g.nodes@[i], i);
        match p.nodes@[i].hull {
            Some(h) => {
                assert(offset_ok(p, h as int));
                starts_grow(p, h as int, p.hulls@.len() as int);
            },
            None => {},
        }
    }
}

/// The numbers from `k` on, `m` of them.
spec fn range(k: int, m: int) -> Set<int> {
    Set::new(|i: int| k <= i < k + m)
}

/// The nodes from `k` on are the tree over `count` hulls from `first` on.
spec fn subtree(nodes: Seq<TreeNode>, k: int, first: nat, count: nat) -> bool {
    &&& 0 <= k
    &&& k + 2 * count - 1 <= nodes.len()
    &&& nodes.subrange(k, k + 2 * count - 1) == tree(first, count)
}

/// The children of a node that is no leaf are trees, the left one right behind it.
proof fn subtree_parts(nodes: Seq<TreeNode>, k: int, first: nat, count: nat)
    requires
        subtree(nodes, k, first, count),
        count > 1,
        56 * count <= i32::MAX,
    ensures
        nodes[k].hull is None,
        nodes[k].right_offset == 28 * (2 * (count / 2)),
        subtree(nodes, k + 1, first, count / 2),
        subtree(nodes, k + 2 * (count / 2), first + count / 2, (count - count / 2) as nat),
{
    let mid = count / 2;
    let left = tree(first, mid);
    let right = tree(first + mid, (count - mid) as nat);
    let all = nodes.subrange(k, k + 2 * count - 1);
    tree_size(first, count);
    tree_size(first, mid);
    tree_size(first + mid, (count - mid) as nat);
    assert(all[0] == nodes[k]);
    assert(nodes.subrange(k + 1, k + 2 * mid) =~= all.subrange(1, 2 * mid as int));
    assert(all.subrange(1, 2 * mid as int) =~= left);
    assert(nodes.subrange(k + 2 * mid, k + 2 * count - 1) =~= all.subrange(
        2 * mid as int,
        2 * count - 1,
    ));
    assert(all.subrange(2 * mid as int, 2 * count - 1) =~= right);
}

/// A leaf stands for its hull.
proof fn subtree_leaf(nodes: Seq<TreeNode>, k: int, first: nat)
    requires
        subtree(nodes, k, first, 1),
    ensures
        nodes[k].hull == Some(first as usize),
        nodes[k].right_offset == 0,
{
    let all = nodes.subrange(k, k + 1);
    assert(all[0] == nodes[k]);
}

/// Following the children below a node meets each node of its tree once.
proof fn walk_under(
    b: Seq<u8>,
    t: int,
    p: PreparedSolid,
    k: int,
    first: nat,
    count: nat,
    rest: Seq<int>,
    seen: Set<int>,
    left: nat,
)
    requires
        subtree(p.nodes@, k, first, count),
        count >= 1,
        56 * count <= i32::MAX,
        forall|i: int| 0 <= i < p.nodes@.len() ==> #[trigger] node_as_written(b, t, p, i),
        forall|i: int| k <= i < k + 2 * count - 1 ==> !#[trigger] seen.contains(i),
        left >= 2 * count - 1,
    ensures
        walk(b, t, p.nodes@.len() as int, rest.push(k), seen, left) == walk(
            b,
            t,
            p.nodes@.len() as int,
            rest,
            seen.union(range(k, 2 * count - 1)),
            (left - (2 * count - 1)) as nat,
        ),
    decreases count,
{
    let total = p.nodes@.len() as int;
    let todo = rest.push(k);
    assert(todo.last() == k);
    assert(todo.drop_last() =~= rest);
    assert(node_as_written(b, t, p, k));
    assert(!seen.contains(k));
    if count == 1 {
        subtree_leaf(p.nodes@, k, first);
        assert(seen.insert(k) =~= seen.union(range(k, 1)));
    } else {
        let mid = count / 2;
        subtree_parts(p.nodes@, k, first, count);
        let far = k + 2 * mid;
        let s1 = seen.insert(k);
        let m1 = (count - mid) as nat;
        assert(right_at(b, t, k) / 28 == 2 * mid);
        assert(right_at(b, t, k) != 0);
        walk_under(
            b,
            t,
            p,
            far,
            first + mid,
            m1,
            rest.push(k + 1),
            s1,
            (left - 1) as nat,
        );
        let s2 = s1.union(range(far, 2 * m1 - 1));
        let l2 = (left - 1 - (2 * m1 - 1)) as nat;
        walk_under(b, t, p, k + 1, first, mid, rest, s2, l2);
        assert(s2.union(range(k + 1, 2 * mid - 1)) =~= seen.union(range(k, 2 * count - 1)));
    }
}

/// The nodes of a written solid are a tree, and what they point at lies inside the solid.
proof fn tree_holds(b: Seq<u8>, base: int, p: PreparedSolid, g: SolidGeometry, bone: Option<u32>)
    requires
        solid_here(b, base, p, g, bone),
        p.nodes@ == tree(0, p.hulls@.len()),
    ensures
        tree_ok(
            b,
            region_at(base),
            base + 80 + p.ledge_region_size,
            p.nodes@.len() as int,
        ),
{
    here_is_sound(b, base, p, g, bone);
    let t = base + 80 + p.ledge_region_size;
    let n = p.hulls@.len();
    let total = p.nodes@.len() as int;
    nodes_hold(b, base, p, g, bone);
    starts_grow(p, 0, n as int);
    assert(56 * n <= i32::MAX);
    assert(p.nodes@.subrange(0, 2 * n - 1) =~= p.nodes@);
    assert(subtree(p.nodes@, 0, 0, n));
    let none = Seq::<int>::empty();
    walk_under(b, t, p, 0, 0, n, none, Set::empty(), total as nat);
    assert(none.push(0) =~= seq![0]);
    assert forall|i: int| 0 <= i < total implies #[trigger] node_ok(
        b,
        region_at(base),
        t,
        total,
        i,
    ) by {
        assert(node_as_written(b, t, p, i));
        match p.nodes@[i].hull {
            Some(h) => {
                assert(offset_ok(p, h as int));
                starts_grow(p, h as int, n as int);
            },
            None => {},
        }
        right_inside(p.nodes@, 0, 0, n, i);
    }
}

/// The right child of a node is a node.
proof fn right_inside(nodes: Seq<TreeNode>, k: int, first: nat, count: nat, i: int)
    requires
        subtree(nodes, k, first, count),
        count >= 1,
        56 * count <= i32::MAX,
        k <= i < k + 2 * count - 1,
    ensures
        nodes[i].right_offset % 28 == 0,
        0 <= nodes[i].right_offset,
        i + nodes[i].right_offset / 28 < k + 2 * count - 1,
    decreases count,
{
    if count == 1 {
        subtree_leaf(nodes, k, first);
    } else {
        let mid = count / 2;
        subtree_parts(nodes, k, first, count);
        if i > k {
            if i < k + 2 * mid {
                right_inside(nodes, k + 1, first, mid, i);
            } else {
                right_inside(nodes, k + 2 * mid, first + mid, (count - mid) as nat, i);
            }
        }
    }
}

/// Where the first `n` hulls of a solid at `base` start.
pub open spec fn starts_of(p: PreparedSolid, base: int, n: nat) -> Seq<int> {
    Seq::new(n, |h: int| base + 80 + ledge_start(p, h))
}

/// The hulls below a node come behind those before it, in order.
proof fn starts_under(
    b: Seq<u8>,
    base: int,
    p: PreparedSolid,
    k: int,
    first: nat,
    count: nat,
)
    requires
        solid_sound(p),
        subtree(p.nodes@, k, first, count),
        count >= 1,
        first + count <= p.hulls@.len() <= usize::MAX,
        56 * count <= i32::MAX,
        forall|i: int|
            0 <= i < p.nodes@.len() ==> #[trigger] node_as_written(
                b,
                base + 80 + p.ledge_region_size,
                p,
                i,
            ),
        hull_starts(b, base + 80 + p.ledge_region_size, k) == starts_of(p, base, first),
    ensures
        hull_starts(b, base + 80 + p.ledge_region_size, k + 2 * count - 1) == starts_of(
            p,
            base,
            first + count,
        ),
    decreases count,
{
    let t = base + 80 + p.ledge_region_size;
    assert(node_as_written(b, t, p, k));
    let before = starts_of(p, base, first);
    if count == 1 {
        subtree_leaf(p.nodes@, k, first);
        starts_grow(p, first as int, p.hulls@.len() as int);
        let at = base + 80 + ledge_start(p, first as int);
        assert(offset_ok(p, first as int));
        assert(linked(b, t, k) == at);
        assert(link_at(b, t, k) != 0);
        if first > 0 {
            starts_grow(p, first - 1, first as int);
            assert(before.last() == base + 80 + ledge_start(p, first - 1));
            assert(before.last() < at);
        }
        assert(insert_sorted(before, at) =~= before.push(at));
        assert(starts_of(p, base, first + 1) =~= before.push(at));
        assert(hull_starts(b, t, k + 1) == insert_sorted(hull_starts(b, t, k), linked(b, t, k)));
    } else {
        let mid = count / 2;
        subtree_parts(p.nodes@, k, first, count);
        assert(link_at(b, t, k) == 0);
        assert(hull_starts(b, t, k + 1) == hull_starts(b, t, k));
        starts_under(b, base, p, k + 1, first, mid);
        starts_under(b, base, p, k + 2 * mid, first + mid, (count - mid) as nat);
    }
}

/// The hulls of a written solid are found where they start.
proof fn starts_hold(b: Seq<u8>, base: int, p: PreparedSolid, g: SolidGeometry, bone: Option<u32>)
    requires
        solid_here(b, base, p, g, bone),
        p.nodes@ == tree(0, p.hulls@.len()),
    ensures
        hull_starts(b, base + 80 + p.ledge_region_size, p.nodes@.len() as int) == starts_of(
            p,
            base,
            p.hulls@.len(),
        ),
{
    here_is_sound(b, base, p, g, bone);
    let n = p.hulls@.len();
    nodes_hold(b, base, p, g, bone);
    starts_grow(p, 0, n as int);
    assert(p.nodes@.subrange(0, 2 * n - 1) =~= p.nodes@);
    assert(hull_starts(b, base + 80 + p.ledge_region_size, 0) =~= starts_of(p, base, 0));
    starts_under(b, base, p, 0, 0, n);
}

/// What is read of hull `h` of a written solid.
proof fn hull_reads(
    b: Seq<u8>,
    base: int,
    p: PreparedSolid,
    g: SolidGeometry,
    bone: Option<u32>,
    h: int,
)
    requires
        solid_here(b, base, p, g, bone),
        0 <= h < p.hulls@.len(),
    ensures
        ({
            let lo = base + 80 + ledge_start(p, h);
            let q = p.hulls@[h];
            &&& lo + i32_at(b, lo) == base + 80 + ledges_of(p)
            &&& u32_at(b, lo + 8) == 4 + 256 * (1 + q.tris@.len() + q.used@.len())
            &&& triangles_at(b, lo) == q.tris@.len()
            &&& crate::bytes::i16_at(b, lo + 14) == 0
            &&& stands(b, lo + 16, triangles_bytes(q, q.tris@.len() as int))
            &&& hull_end(b, lo) == base + 80 + ledge_start(p, h + 1)
            &&& hull_end(b, lo) <= base + 80 + ledges_of(p)
        }),
{
    here_is_sound(b, base, p, g, bone);
    let n = p.hulls@.len() as int;
    let q = p.hulls@[h];
    let lo = base + 80 + ledge_start(p, h);
    parts_stand(b, base, p, g, bone);
    ledge_stands(b, base + 80, p, ledges_of(p), client_data(bone), n, h);
    starts_grow(p, h, n);
    starts_grow(p, h + 1, n);
    assert(hull_sound(q));
    assert(offset_ok(p, h));
    ledge_reads(b, lo, q, ledges_of(p) - q.offset, client_data(bone));
}

/// The hulls of a written solid follow one another.
proof fn chain_holds(b: Seq<u8>, base: int, p: PreparedSolid, g: SolidGeometry, bone: Option<u32>)
    requires
        solid_here(b, base, p, g, bone),
    ensures
        ({
            let starts = starts_of(p, base, p.hulls@.len());
            &&& chain_ok(b, region_at(base), base + 80 + p.ledge_region_size, starts)
            &&& points_at(b, starts) == base + 80 + ledges_of(p)
        }),
{
    here_is_sound(b, base, p, g, bone);
    let n = p.hulls@.len();
    let starts = starts_of(p, base, n);
    let t = base + 80 + p.ledge_region_size;
    assert(starts[0] == region_at(base));
    assert forall|i: int| 0 <= i < starts.len() implies triangles_at(b, #[trigger] starts[i]) > 0
        && hull_end(b, starts[i]) <= t by {
        hull_reads(b, base, p, g, bone, i);
        assert(hull_sound(p.hulls@[i]));
    }
    assert forall|i: int| 0 < i < starts.len() implies #[trigger] starts[i] == hull_end(
        b,
        starts[i - 1],
    ) by {
        hull_reads(b, base, p, g, bone, i - 1);
    }
    hull_reads(b, base, p, g, bone, n - 1);
    parts_stand(b, base, p, g, bone);
}

/// What is read of triangle `k` is what the hull has there.
pub open spec fn triangle_as_written(b: Seq<u8>, lo: int, q: PreparedHull, k: int) -> bool {
    &&& u32_at(b, triangle_at(lo, k)) % 4096 == k
    &&& tri_at(b, lo, k) == q.tris@[k]
    &&& distance_read(b, lo, q, 3 * k)
    &&& distance_read(b, lo, q, 3 * k + 1)
    &&& distance_read(b, lo, q, 3 * k + 2)
}

/// What is read of the triangles of hull `h` of a written solid.
proof fn tris_read(
    b: Seq<u8>,
    base: int,
    p: PreparedSolid,
    g: SolidGeometry,
    bone: Option<u32>,
    h: int,
)
    requires
        solid_here(b, base, p, g, bone),
        0 <= h < p.hulls@.len(),
    ensures
        triangles_at(b, base + 80 + ledge_start(p, h)) == p.hulls@[h].tris@.len(),
        forall|k: int|
            0 <= k < p.hulls@[h].tris@.len() ==> #[trigger] triangle_as_written(
                b,
                base + 80 + ledge_start(p, h),
                p.hulls@[h],
                k,
            ),
{
    here_is_sound(b, base, p, g, bone);
    let lo = base + 80 + ledge_start(p, h);
    let q = p.hulls@[h];
    hull_reads(b, base, p, g, bone, h);
    assert(hull_sound(q));
    assert forall|k: int| 0 <= k < q.tris@.len() implies #[trigger] triangle_as_written(
        b,
        lo,
        q,
        k,
    ) by {
        triangle_is_read(b, lo, q, k);
    }
}

/// Triangles that are read as they were written make up the hull that was written.
proof fn tris_agree(b: Seq<u8>, lo: int, q: PreparedHull)
    requires
        triangles_at(b, lo) == q.tris@.len(),
        forall|k: int| 0 <= k < q.tris@.len() ==> #[trigger] triangle_as_written(b, lo, q, k),
    ensures
        tris_at(b, lo) == q.tris@,
        forall|k: int|
            0 <= k < q.tris@.len() ==> u32_at(b, #[trigger] triangle_at(lo, k)) % 4096 == k,
        forall|e: int| 0 <= e < 3 * q.tris@.len() ==> #[trigger] distance_read(b, lo, q, e),
{
    assert forall|k: int| 0 <= k < q.tris@.len() implies tris_at(b, lo)[k] == q.tris@[k] by {
        assert(triangle_as_written(b, lo, q, k));
    }
    assert(tris_at(b, lo) =~= q.tris@);
    assert forall|k: int| 0 <= k < q.tris@.len() implies u32_at(b, #[trigger] triangle_at(lo, k))
        % 4096 == k by {
        assert(triangle_as_written(b, lo, q, k));
    }
    assert forall|e: int| 0 <= e < 3 * q.tris@.len() implies #[trigger] distance_read(
        b,
        lo,
        q,
        e,
    ) by {
        let k = e / 3;
        assert(triangle_as_written(b, lo, q, k));
        assert(e == 3 * k || e == 3 * k + 1 || e == 3 * k + 2);
    }
}

/// The distance that is read of edge `e` is the one that was written.
pub open spec fn distance_read(b: Seq<u8>, lo: int, q: PreparedHull, e: int) -> bool {
    distance_at(b, lo, e) == edge_distance(
        e / 3,
        e % 3,
        q.reverse@[e]@[0] as int,
        q.reverse@[e]@[1] as int,
    )
}

/// What is read of triangle `k` of a hull.
#[verifier::spinoff_prover]
#[verifier::rlimit(30)]
proof fn triangle_is_read(b: Seq<u8>, lo: int, q: PreparedHull, k: int)
    requires
        stands(b, lo + 16, triangles_bytes(q, q.tris@.len() as int)),
        hull_sound(q),
        0 <= k < q.tris@.len(),
    ensures
        u32_at(b, triangle_at(lo, k)) % 4096 == k,
        tri_at(b, lo, k) == q.tris@[k],
        distance_read(b, lo, q, 3 * k),
        distance_read(b, lo, q, 3 * k + 1),
        distance_read(b, lo, q, 3 * k + 2),
{
    let at = triangle_at(lo, k);
    triangle_stands(b, lo + 16, q, q.tris@.len() as int, k);
    triangle_reads(b, at, q, k);
    assert((k * 4097) % 4096 == k) by (nonlinear_arith)
        requires
            0 <= k < 4096,
    ;
    distance_fits(q, k, 0);
    distance_fits(q, k, 1);
    distance_fits(q, k, 2);
    let r0 = q.reverse@[3 * k];
    let r1 = q.reverse@[3 * k + 1];
    let r2 = q.reverse@[3 * k + 2];
    edge_reads(q.tris@[k]@[0] as int, edge_distance(k, 0, r0@[0] as int, r0@[1] as int));
    edge_reads(q.tris@[k]@[1] as int, edge_distance(k, 1, r1@[0] as int, r1@[1] as int));
    edge_reads(q.tris@[k]@[2] as int, edge_distance(k, 2, r2@[0] as int, r2@[1] as int));
    assert(tri_at(b, lo, k)@ =~= q.tris@[k]@);
    assert((3 * k) / 3 == k && (3 * k) % 3 == 0);
    assert((3 * k + 1) / 3 == k && (3 * k + 1) % 3 == 1);
    assert((3 * k + 2) / 3 == k && (3 * k + 2) % 3 == 2);
}

/// What is read of a hull makes its mesh as it must be.
proof fn mesh_from_read(b: Seq<u8>, lo: int, q: PreparedHull, points: int)
    requires
        hull_sound(q),
        triangles_at(b, lo) == q.tris@.len(),
        forall|k: int| 0 <= k < q.tris@.len() ==> #[trigger] triangle_as_written(b, lo, q, k),
        u32_at(b, lo + 8) == 4 + 256 * (1 + q.tris@.len() + q.used@.len()),
        edges_pair_up(q.tris@, true),
        lists_used(q.used@, q.tris@),
        forall|e: int| 0 <= e < 3 * q.tris@.len() ==> #[trigger] tri_point(q.tris@, e) < points,
    ensures
        hull_mesh_ok(b, lo, points),
        u32_at(b, lo + 8) % 256 == 4,
{
    reveal(hull_mesh_ok);
    let tris = tris_at(b, lo);
    tris_agree(b, lo, q);
    used_counts_named(q.used@, q.tris@);
    assert forall|d: int, e: int|
        0 <= d < 3 * tris.len() && 0 <= e < 3 * tris.len() && #[trigger] opposite(
            tris,
            d,
            e,
        ) implies distance_at(b, lo, e) == edge_distance(e / 3, e % 3, d / 3, d % 3) by {
        let r = q.reverse@[e];
        assert(back_edge_fits(q.tris@, r, e));
        let c = 3 * r@[0] + r@[1];
        opposite_edge_is_unique(tris, true, c, d, e);
        assert(c / 3 == r@[0] && c % 3 == r@[1]);
        assert(distance_read(b, lo, q, e));
    }
}

/// The measures that were written of a solid are those of its boxes and points. Each hull has
/// points, and reaches farther than zero.
#[verifier::opaque]
pub open spec fn well_measured(p: PreparedSolid, g: SolidGeometry) -> bool {
    &&& measures_nodes(g.nodes@, p, p.nodes@.len() as int)
    &&& g.upper_limit_radius == reach(p.points@, g.mass_center, p.points@.len() as int)
    &&& forall|h: int| 0 <= h < p.hulls@.len() ==> #[trigger] has_extent(p, h)
}

/// Hull `h` of a solid has points, all of them finite, and its box reaches farther than zero.
pub open spec fn has_extent(p: PreparedSolid, h: int) -> bool {
    let used = p.hulls@[h].used@;
    &&& used.len() > 0
    &&& forall|i: int| 0 <= i < used.len() ==> finite_point(p.points@[#[trigger] used[i] as int])
    &&& !at_most_zero(radius_of(hull_box(p, h)))
}

/// A number is not apart from itself.
proof fn same_is_not_apart(x: u32, tolerance: u32)
    requires
        tolerance < 0x8000_0000,
    ensures
        !apart(x, x, tolerance),
{
    reveal(sum);
    let y = negated(x);
    assert(magnitude_of(y) == magnitude_of(x));
    assert(has_sign(y) == !has_sign(x));
}

/// A node that is read as it was measured gives the measures of its box.
proof fn node_fits_as_measured(b: Seq<u8>, at: int, g: NodeGeometry, v: BoundsView)
    requires
        measures_box(g, v),
        !at_most_zero(radius_of(v)),
        u32_at(b, at + 8) == g.center@[0],
        u32_at(b, at + 12) == g.center@[1],
        u32_at(b, at + 16) == g.center@[2],
        u32_at(b, at + 20) == g.radius,
        b[at + 24] == g.box_sizes@[0],
        b[at + 25] == g.box_sizes@[1],
        b[at + 26] == g.box_sizes@[2],
        b[at + 27] == 0,
    ensures
        node_fits(b, at, v),
{
    reveal(node_fits);
    same_is_not_apart(middle_of(v, 0), TOLERANCE);
    same_is_not_apart(middle_of(v, 1), TOLERANCE);
    same_is_not_apart(middle_of(v, 2), TOLERANCE);
    same_is_not_apart(radius_of(v), RADIUS_TOLERANCE);
}

/// The leaves of a tree are each over one hull.
proof fn leaves_are_over_one(first: nat, count: nat)
    requires
        count >= 1,
        first + count <= usize::MAX,
    ensures
        forall|i: int|
            0 <= i < tree(first, count).len() ==> match (#[trigger] tree(first, count)[i]).hull {
                Some(h) => tree(first, count)[i].first == h && tree(first, count)[i].count == 1,
                None => true,
            },
    decreases count,
{
    if count > 1 {
        let mid = count / 2;
        let left = tree(first, mid);
        let right = tree(first + mid, (count - mid) as nat);
        leaves_are_over_one(first, mid);
        leaves_are_over_one(first + mid, (count - mid) as nat);
        let all = tree(first, count);
        assert forall|i: int| 0 <= i < all.len() implies match (#[trigger] all[i]).hull {
            Some(h) => all[i].first == h && all[i].count == 1,
            None => true,
        } by {
            if 0 < i <= left.len() {
                assert(all[i] == left[i - 1]);
            } else if i > 0 {
                assert(all[i] == right[i - 1 - left.len()]);
            }
        }
    }
}

/// The points of a written solid are read as they were written.
proof fn points_read(b: Seq<u8>, base: int, p: PreparedSolid, g: SolidGeometry, bone: Option<u32>)
    requires
        solid_here(b, base, p, g, bone),
    ensures
        file_points(b, base + 80 + ledges_of(p), p.points@.len() as int) == p.points@,
{
    parts_stand(b, base, p, g, bone);
    let shared = base + 80 + ledges_of(p);
    let n = p.points@.len() as int;
    assert forall|i: int| 0 <= i < n implies file_points(b, shared, n)[i] == p.points@[i] by {
        point_reads(b, shared, p.points@, n, i);
    }
    assert(file_points(b, shared, n) =~= p.points@);
}

/// A node that links to a hull is the leaf of that hull.
proof fn linked_leaf(b: Seq<u8>, base: int, p: PreparedSolid, h: int, i: int)
    requires
        solid_sound(p),
        node_as_written(b, base + 80 + p.ledge_region_size, p, i),
        0 <= i < p.nodes@.len(),
        0 <= h < p.hulls@.len(),
        first_link(
            b,
            base + 80 + p.ledge_region_size,
            base + 80 + ledge_start(p, h),
            i,
        ),
    ensures
        p.nodes@[i].hull == Some(h as usize),
{
    let t = base + 80 + p.ledge_region_size;
    assert(p.nodes@[i].hull is Some);
    let k = p.nodes@[i].hull->0 as int;
    assert(offset_ok(p, k));
    if k < h {
        starts_grow(p, k, h);
    } else if h < k {
        starts_grow(p, h, k);
    }
}

/// The node of hull `h` of a written solid gives the measures of its box.
proof fn hull_node_holds(
    b: Seq<u8>,
    base: int,
    p: PreparedSolid,
    g: SolidGeometry,
    bone: Option<u32>,
    h: int,
)
    requires
        solid_here(b, base, p, g, bone),
        well_measured(p, g),
        p.nodes@ == tree(0, p.hulls@.len()),
        p.hulls@.len() <= usize::MAX,
        0 <= h < p.hulls@.len(),
        tris_at(b, base + 80 + ledge_start(p, h)) == p.hulls@[h].tris@,
        lists_used(p.hulls@[h].used@, p.hulls@[h].tris@),
    ensures
        hull_node_ok(
            b,
            base + 80 + p.ledge_region_size,
            p.nodes@.len() as int,
            base + 80 + ledges_of(p),
            p.points@.len() as int,
            base + 80 + ledge_start(p, h),
        ),
{
    reveal(hull_node_ok);
    reveal(well_measured);
    here_is_sound(b, base, p, g, bone);
    parts_stand(b, base, p, g, bone);
    points_read(b, base, p, g, bone);
    nodes_hold(b, base, p, g, bone);
    leaves_are_over_one(0, p.hulls@.len());
    let t = base + 80 + p.ledge_region_size;
    let lo = base + 80 + ledge_start(p, h);
    let shared = base + 80 + ledges_of(p);
    let n = p.points@.len() as int;
    let q = p.hulls@[h];
    used_is_unique(q.used@, used_of(q.tris@), q.tris@);
    assert(has_extent(p, h));
    boxes_agree(p.points@, q.used@, q.used@.len() as int);
    assert(box_at(b, shared, n, lo) == hull_box(p, h));
    assert forall|i: int| 0 <= i < p.nodes@.len() && #[trigger] first_link(
        b,
        t,
        lo,
        i,
    ) implies node_fits(b, t + 28 * i, box_at(b, shared, n, lo)) by {
        assert(node_as_written(b, t, p, i));
        linked_leaf(b, base, p, h, i);
        node_stands(b, t, p, g.nodes@, p.nodes@.len() as int, i);
        measures_read(b, t + 28 * i, p, g.nodes@[i], i);
        assert(p.nodes@[i] == tree(0, p.hulls@.len())[i]);
        assert(range_box(p, h as nat, 1) == hull_box(p, h));
        assert(measures_box(g.nodes@[i], hull_box(p, h)));
        node_fits_as_measured(b, t + 28 * i, g.nodes@[i], hull_box(p, h));
    }
}

/// Numbers that are read of a solid make its radius the distance of its farthest point.
proof fn reach_from_numbers(b: Seq<u8>, base: int, shared: int, points: Seq<[u32; 3]>, c: [u32; 3])
    requires
        file_points(b, shared, points.len() as int) == points,
        u32_at(b, base + 32) == c@[0],
        u32_at(b, base + 36) == c@[1],
        u32_at(b, base + 40) == c@[2],
        u32_at(b, base + 56) == reach(points, c, points.len() as int),
    ensures
        reach_ok(b, base, shared, points.len() as int),
{
    reveal(reach_ok);
    let d = [u32_at(b, base + 32), u32_at(b, base + 36), u32_at(b, base + 40)];
    assert(d@ =~= c@);
    assert(d == c);
    same_is_not_apart(u32_at(b, base + 56), TOLERANCE);
}

/// The radius of a written solid is the distance of its farthest point.
proof fn reach_holds(b: Seq<u8>, base: int, p: PreparedSolid, g: SolidGeometry, bone: Option<u32>)
    requires
        solid_here(b, base, p, g, bone),
        well_measured(p, g),
    ensures
        reach_ok(b, base, base + 80 + ledges_of(p), p.points@.len() as int),
{
    reveal(well_measured);
    here_is_sound(b, base, p, g, bone);
    parts_stand(b, base, p, g, bone);
    starts_grow(p, 0, p.hulls@.len() as int);
    points_read(b, base, p, g, bone);
    surface_reads(b, base + 32, p.surface_size as int, p.ledge_region_size as int, g);
    reach_from_numbers(b, base, base + 80 + ledges_of(p), p.points@, g.mass_center);
}

/// Hull `h` of a written solid keeps every rule.
proof fn hull_holds(
    b: Seq<u8>,
    base: int,
    p: PreparedSolid,
    g: SolidGeometry,
    bone: Option<u32>,
    h: int,
)
    requires
        solid_here(b, base, p, g, bone),
        well_measured(p, g),
        p.nodes@ == tree(0, p.hulls@.len()),
        p.hulls@.len() <= usize::MAX,
        0 <= h < p.hulls@.len(),
        edges_pair_up(p.hulls@[h].tris@, true),
        lists_used(p.hulls@[h].used@, p.hulls@[h].tris@),
        forall|e: int|
            0 <= e < 3 * p.hulls@[h].tris@.len() ==> #[trigger] tri_point(p.hulls@[h].tris@, e)
                < p.points@.len(),
    ensures
        hull_ok(
            b,
            base + 80 + p.ledge_region_size,
            p.nodes@.len() as int,
            base + 80 + ledges_of(p),
            p.points@.len() as int,
            base + 80 + ledge_start(p, h),
        ),
{
    let lo = base + 80 + ledge_start(p, h);
    here_is_sound(b, base, p, g, bone);
    assert(hull_sound(p.hulls@[h]));
    hull_reads(b, base, p, g, bone, h);
    tris_read(b, base, p, g, bone, h);
    mesh_from_read(b, lo, p.hulls@[h], p.points@.len() as int);
    tris_agree(b, lo, p.hulls@[h]);
    hull_node_holds(b, base, p, g, bone, h);
}

/// The parts of a solid make it as it must be.
proof fn solid_from_parts(
    b: Seq<u8>,
    base: int,
    t: int,
    nodes: int,
    starts: Seq<int>,
    shared: int,
    points: int,
)
    requires
        frame_ok(b, base),
        t == tree_at(b, base),
        nodes == nodes_at(b, base),
        starts == hull_starts(b, t, nodes),
        shared == points_at(b, starts),
        t - shared == 16 * points,
        points > 0,
        tree_ok(b, region_at(base), t, nodes),
        chain_ok(b, region_at(base), t, starts),
        forall|i: int|
            0 <= i < starts.len() ==> hull_ok(b, t, nodes, shared, points, #[trigger] starts[i]),
        nodes == 1 ==> link_at(b, t, 0) == 80 + base - t,
        reach_ok(b, base, shared, points),
    ensures
        solid_ok(b, base),
{
    reveal(solid_ok);
    assert((16 * points) % 16 == 0) by (nonlinear_arith);
    assert((16 * points) / 16 == points) by (nonlinear_arith);
}

/// A written solid keeps every rule.
proof fn solid_holds(b: Seq<u8>, base: int, p: PreparedSolid, g: SolidGeometry, bone: Option<u32>)
    requires
        solid_here(b, base, p, g, bone),
        well_measured(p, g),
        p.nodes@ == tree(0, p.hulls@.len()),
        p.hulls@.len() <= usize::MAX,
        forall|h: int|
            0 <= h < p.hulls@.len() ==> edges_pair_up((#[trigger] p.hulls@[h]).tris@, true)
                && lists_used(p.hulls@[h].used@, p.hulls@[h].tris@),
        forall|h: int, e: int|
            0 <= h < p.hulls@.len() && 0 <= e < 3 * p.hulls@[h].tris@.len()
                ==> #[trigger] tri_point(p.hulls@[h].tris@, e) < p.points@.len(),
    ensures
        solid_ok(b, base),
{
    here_is_sound(b, base, p, g, bone);
    let t = base + 80 + p.ledge_region_size;
    let nodes = p.nodes@.len() as int;
    let starts = starts_of(p, base, p.hulls@.len());
    let shared = base + 80 + ledges_of(p);
    frame_holds(b, base, p, g, bone);
    tree_holds(b, base, p, g, bone);
    starts_hold(b, base, p, g, bone);
    chain_holds(b, base, p, g, bone);
    nodes_hold(b, base, p, g, bone);
    assert(t - shared == 16 * p.points@.len());
    assert forall|i: int| 0 <= i < starts.len() implies hull_ok(
        b,
        t,
        nodes,
        shared,
        p.points@.len() as int,
        #[trigger] starts[i],
    ) by {
        assert(edges_pair_up(p.hulls@[i].tris@, true));
        hull_holds(b, base, p, g, bone, i);
    }
    if nodes == 1 {
        assert(node_as_written(b, t, p, 0));
        assert(p.hulls@.len() == 1);
        assert(offset_ok(p, 0));
        assert(p.nodes@[0].hull == Some(0usize));
    }
    reach_holds(b, base, p, g, bone);
    solid_from_parts(b, base, t, nodes, starts, shared, p.points@.len() as int);
}

/// Where solid `i` of a file starts.
pub open spec fn base_of(ps: Seq<PreparedSolid>, i: int) -> int
    decreases i,
{
    if i <= 0 {
        16
    } else {
        base_of(ps, i - 1) + 32 + ps[i - 1].surface_size
    }
}

/// A solid can stand in a file.
#[verifier::opaque]
spec fn is_sound(p: PreparedSolid, g: SolidGeometry, bone: Option<u32>) -> bool {
    &&& solid_sound(p)
    &&& p.surface_size < 16777216
    &&& g.nodes@.len() == p.nodes@.len()
    &&& well_measured(p, g)
    &&& 0 <= client_data(bone) <= i32::MAX
}

/// A sound solid stands.
proof fn sound_is_here(b: Seq<u8>, base: int, p: PreparedSolid, g: SolidGeometry, bone: Option<u32>)
    requires
        is_sound(p, g, bone),
        stands(b, base, solid_header(p.surface_size as int) + solid_bytes(p, g, bone)),
    ensures
        solid_here(b, base, p, g, bone),
{
    reveal(solid_here);
    reveal(is_sound);
}

/// The size of a sound solid with its header.
proof fn sound_size(p: PreparedSolid, g: SolidGeometry, bone: Option<u32>)
    requires
        is_sound(p, g, bone),
    ensures
        solid_header(p.surface_size as int).len() == 32,
        solid_bytes(p, g, bone).len() == p.surface_size,
{
    reveal(is_sound);
    solid_size(p, g, bone);
    headers_size(p.surface_size as int, 0, g);
}

/// Every solid can stand in a file.
spec fn all_sound(
    ps: Seq<PreparedSolid>,
    g: Seq<SolidGeometry>,
    solids: Seq<PhySolid>,
) -> bool {
    &&& g.len() == ps.len()
    &&& solids.len() == ps.len()
    &&& forall|i: int| 0 <= i < ps.len() ==> is_sound(#[trigger] ps[i], g[i], solids[i].bone_index)
}

/// The size of solids.
proof fn solids_size(
    ps: Seq<PreparedSolid>,
    g: Seq<SolidGeometry>,
    solids: Seq<PhySolid>,
    n: int,
)
    requires
        all_sound(ps, g, solids),
        0 <= n <= ps.len(),
    ensures
        solids_bytes(ps, g, solids, n).len() == base_of(ps, n) - 16,
    decreases n,
{
    if n > 0 {
        solids_size(ps, g, solids, n - 1);
        assert(is_sound(ps[n - 1], g[n - 1], solids[n - 1].bone_index));
        sound_size(ps[n - 1], g[n - 1], solids[n - 1].bone_index);
    }
}

/// Each of some solids stands where it starts.
proof fn solid_stands(
    b: Seq<u8>,
    ps: Seq<PreparedSolid>,
    g: Seq<SolidGeometry>,
    solids: Seq<PhySolid>,
    n: int,
    i: int,
)
    requires
        all_sound(ps, g, solids),
        stands(b, 16, solids_bytes(ps, g, solids, n)),
        0 <= i < n <= ps.len(),
    ensures
        solid_here(b, base_of(ps, i), ps[i], g[i], solids[i].bone_index),
    decreases n,
{
    let before = solids_bytes(ps, g, solids, n - 1);
    let h = solid_header(ps[n - 1].surface_size as int);
    let s = solid_bytes(ps[n - 1], g[n - 1], solids[n - 1].bone_index);
    assert(solids_bytes(ps, g, solids, n) =~= before + (h + s));
    stand_apart(b, 16, before, h + s);
    solids_size(ps, g, solids, n - 1);
    if i < n - 1 {
        solid_stands(b, ps, g, solids, n - 1, i);
    } else {
        assert(is_sound(ps[i], g[i], solids[i].bone_index));
        sound_is_here(b, base_of(ps, i), ps[i], g[i], solids[i].bone_index);
    }
}

/// Solids are found where they start.
proof fn bases_hold(
    b: Seq<u8>,
    ps: Seq<PreparedSolid>,
    g: Seq<SolidGeometry>,
    solids: Seq<PhySolid>,
    i: int,
)
    requires
        all_sound(ps, g, solids),
        stands(b, 16, solids_bytes(ps, g, solids, ps.len() as int)),
        0 <= i <= ps.len(),
    ensures
        solid_base(b, i) == base_of(ps, i),
    decreases i,
{
    if i > 0 {
        bases_hold(b, ps, g, solids, i - 1);
        solid_stands(b, ps, g, solids, ps.len() as int, i - 1);
        frame_holds(
            b,
            base_of(ps, i - 1),
            ps[i - 1],
            g[i - 1],
            solids[i - 1].bone_index,
        );
    }
}

/// A prepared solid is as the rules ask.
proof fn prepared_keeps(p: PreparedSolid, hulls: Seq<super::solid::HullView>)
    requires
        prepares(p, hulls),
    ensures
        solid_sound(p),
        p.nodes@ == tree(0, p.hulls@.len()),
        p.hulls@.len() <= usize::MAX,
        forall|h: int|
            0 <= h < p.hulls@.len() ==> edges_pair_up((#[trigger] p.hulls@[h]).tris@, true)
                && lists_used(p.hulls@[h].used@, p.hulls@[h].tris@),
        forall|h: int, e: int|
            0 <= h < p.hulls@.len() && 0 <= e < 3 * p.hulls@[h].tris@.len()
                ==> #[trigger] tri_point(p.hulls@[h].tris@, e) < p.points@.len(),
{
    prepared_is_sound(p, hulls);
    assert(p.hulls.len() <= usize::MAX);
    let n = hulls.len() as int;
    assert forall|h: int| 0 <= h < p.hulls@.len() implies edges_pair_up(
        (#[trigger] p.hulls@[h]).tris@,
        true,
    ) && lists_used(p.hulls@[h].used@, p.hulls@[h].tris@) by {
        assert(prepares_hull(p.hulls@[h], hulls, h));
        assert(hull_good(hulls, h));
        let t = p.hulls@[h].tris@;
        assert forall|e: int| 0 <= e < 3 * t.len() implies !#[trigger] super::edges::repeats(
            t,
            true,
            e,
        ) by {
            assert(!super::edges::repeats(t, false, e));
        }
    }
    assert forall|h: int, e: int|
        0 <= h < p.hulls@.len() && 0 <= e < 3 * p.hulls@[h].tris@.len() implies #[trigger] tri_point(
        p.hulls@[h].tris@,
        e,
    ) < p.points@.len() by {
        assert(prepares_hull(p.hulls@[h], hulls, h));
        tris_over_all_points(hulls, h, n);
        tri_points_exist(hulls, h, e);
    }
}

/// What is read of a file's header.
proof fn file_header_reads(b: Seq<u8>, n: int, checksum: u32)
    requires
        stands(b, 0, file_header(n, checksum)),
        0 <= n <= i32::MAX,
    ensures
        b.len() >= 16,
        header_ok(b),
        i32_at(b, 8) == n,
{
    reveal(stands);
    let a = le32(16);
    let z = le32(0);
    let c = le32(n as u32);
    let k = le32(checksum);
    stand_apart(b, 0, a + z + c, k);
    stand_apart(b, 0, a + z, c);
    stand_apart(b, 0, a, z);
    word_stands(b, 0, 16);
    word_stands(b, 4, 0);
    word_stands(b, 8, n as u32);
}

/// Solids that stand in a file keep every rule.
proof fn solids_hold(
    b: Seq<u8>,
    hulls: Seq<Vec<PhyHull>>,
    ps: Seq<PreparedSolid>,
    g: Seq<SolidGeometry>,
    solids: Seq<PhySolid>,
)
    requires
        all_sound(ps, g, solids),
        prepares_all(ps, hulls),
        stands(b, 16, solids_bytes(ps, g, solids, ps.len() as int)),
    ensures
        forall|i: int| 0 <= i < ps.len() ==> solid_ok(b, #[trigger] solid_base(b, i)),
        forall|i: int| 0 <= i <= ps.len() ==> #[trigger] solid_base(b, i) == base_of(ps, i),
{
    let n = ps.len() as int;
    assert forall|i: int| 0 <= i < n implies solid_ok(b, #[trigger] solid_base(b, i)) by {
        bases_hold(b, ps, g, solids, i);
        solid_stands(b, ps, g, solids, n, i);
        assert(prepares(ps[i], hulls_of(hulls, i)));
        prepared_keeps(ps[i], hulls_of(hulls, i));
        assert(well_measured(ps[i], g[i])) by {
            assert(is_sound(ps[i], g[i], solids[i].bone_index));
            reveal(is_sound);
        }
        solid_holds(b, base_of(ps, i), ps[i], g[i], solids[i].bone_index);
    }
    assert forall|i: int| 0 <= i <= n implies #[trigger] solid_base(b, i) == base_of(ps, i) by {
        bases_hold(b, ps, g, solids, i);
    }
}

/// Hull `h` of a solid reaches farther than zero.
pub open spec fn hull_spreads(hulls: Seq<HullView>, h: int) -> bool {
    let used = used_of(tris(hulls, h));
    !at_most_zero(
        radius_of(
            box_around(shared_points(hulls, hulls.len() as int), used, used.len() as int),
        ),
    )
}

/// Each hull of a solid reaches farther than zero.
pub open spec fn hulls_spread(hulls: Seq<HullView>) -> bool {
    forall|h: int| 0 <= h < hulls.len() ==> #[trigger] hull_spreads(hulls, h)
}

/// The hulls of a solid that reach farther than zero have an extent.
proof fn prepared_has_extent(p: PreparedSolid, hulls: Seq<HullView>, h: int)
    requires
        prepares(p, hulls),
        hulls_spread(hulls),
        0 <= h < hulls.len(),
    ensures
        has_extent(p, h),
{
    let n = hulls.len() as int;
    let q = p.hulls@[h];
    prepared_points_exist(p, hulls);
    assert(super::bounds::hull_points_exist(q, p));
    assert(prepares_hull(q, hulls, h));
    assert(hull_good(hulls, h));
    assert(hull_spreads(hulls, h));
    used_is_unique(q.used@, used_of(q.tris@), q.tris@);
    tris_over_all_points(hulls, h, n);
    assert forall|i: int| 0 <= i < q.used@.len() implies finite_point(
        p.points@[#[trigger] q.used@[i] as int],
    ) by {
        assert(q.used@.contains(q.used@[i]));
        assert(names_point(q.tris@, q.used@[i]));
        let e = choose|e: int|
            0 <= e < 3 * q.tris@.len() && #[trigger] tri_point(q.tris@, e) == q.used@[i];
        tri_points_exist(hulls, h, e);
        let few = shared_points(hulls, h + 1);
        assert(few[q.used@[i] as int] == p.points@[q.used@[i] as int]);
        assert(index_exists(hulls[h], e));
    }
}

/// Solids of a writable file can stand in it.
proof fn writable_is_sound(
    hulls: Seq<Vec<PhyHull>>,
    ps: Seq<PreparedSolid>,
    g: Seq<SolidGeometry>,
    ms: Seq<SolidMeasures>,
    solids: Seq<PhySolid>,
    params: PhyParams,
)
    requires
        writable(hulls, ms, solids, params),
        prepares_all(ps, hulls),
        all_measured(g, ps, ms, solids, params),
        forall|i: int|
            0 <= i < hulls.len() ==> {
                &&& surface_size(#[trigger] hulls_of(hulls, i)) < 16777216
                &&& hulls_spread(hulls_of(hulls, i))
            },
    ensures
        all_sound(ps, g, solids),
{
    assert forall|i: int| 0 <= i < ps.len() implies is_sound(
        #[trigger] ps[i],
        g[i],
        solids[i].bone_index,
    ) by {
        reveal(is_sound);
        assert(prepares(ps[i], hulls_of(hulls, i)));
        prepared_keeps(ps[i], hulls_of(hulls, i));
        reveal(well_measured);
        assert(measured(g[i], ps[i], ms[i], solids[i], whole_volume(ms), params));
        assert(client_data(solids[i].bone_index) <= i32::MAX);
        assert forall|h: int| 0 <= h < ps[i].hulls@.len() implies #[trigger] has_extent(
            ps[i],
            h,
        ) by {
            prepared_has_extent(ps[i], hulls_of(hulls, i), h);
        }
    }
}

/// Header, solids and text make a file as it must be.
#[verifier::spinoff_prover]
#[verifier::rlimit(80)]
proof fn file_from_parts(
    b: Seq<u8>,
    hulls: Seq<Vec<PhyHull>>,
    ps: Seq<PreparedSolid>,
    g: Seq<SolidGeometry>,
    solids: Seq<PhySolid>,
    checksum: u32,
    text: Seq<u8>,
)
    requires
        ps.len() <= i32::MAX,
        b == file_header(ps.len() as int, checksum) + solids_bytes(
            ps,
            g,
            solids,
            ps.len() as int,
        ) + text,
        all_sound(ps, g, solids),
        prepares_all(ps, hulls),
        text_ok(text, ps.len() as int),
    ensures
        phy_ok(b),
        forall|i: int| 0 <= i <= ps.len() ==> #[trigger] solid_base(b, i) == base_of(ps, i),
{
    let n = ps.len() as int;
    let head = file_header(n, checksum);
    let body = solids_bytes(ps, g, solids, n);
    assert(b.subrange(0, b.len() as int) =~= b);
    assert(stands(b, 0, head + body + text)) by {
        reveal(stands);
    }
    stand_apart(b, 0, head + body, text);
    stand_apart(b, 0, head, body);
    assert(head.len() == 16);
    file_header_reads(b, n, checksum);
    solids_size(ps, g, solids, n);
    solids_hold(b, hulls, ps, g, solids);
    assert(b.skip(solid_base(b, n)) =~= text);
}

/// A file that is written keeps every rule by which files are read, as soon as its text does: its
/// headers, sizes and trees, the measures of its nodes, and of each hull that its edges pair up and
/// point at one another. The sizes of surfaces must fit in the 24 bits that a file has for them, and
/// the hulls must not be so small that their radius is zero.
pub proof fn written_files_keep_the_rules(
    hulls: Seq<Vec<PhyHull>>,
    ps: Seq<PreparedSolid>,
    g: Seq<SolidGeometry>,
    ms: Seq<SolidMeasures>,
    solids: Seq<PhySolid>,
    params: PhyParams,
)
    requires
        writable(hulls, ms, solids, params),
        prepares_all(ps, hulls),
        all_measured(g, ps, ms, solids, params),
        forall|i: int|
            0 <= i < hulls.len() ==> {
                &&& surface_size(#[trigger] hulls_of(hulls, i)) < 16777216
                &&& hulls_spread(hulls_of(hulls, i))
            },
        text_ok(section_bytes(solids, g, params), hulls.len() as int),
    ensures
        phy_ok(file_bytes(ps, g, solids, params)),
        forall|i: int|
            0 <= i <= ps.len() ==> #[trigger] solid_base(file_bytes(ps, g, solids, params), i)
                == base_of(ps, i),
{
    writable_is_sound(hulls, ps, g, ms, solids, params);
    file_from_parts(
        file_bytes(ps, g, solids, params),
        hulls,
        ps,
        g,
        solids,
        params.checksum,
        section_bytes(solids, g, params),
    );
}

/// Writing succeeds on all that can be written: hulls that make up solids, parameters in range, and
/// texts without zero characters and ends of lines. The sizes of surfaces must fit in 24 bits, and
/// the hulls must not be so small that their radius is zero.
pub proof fn clean_files_are_written(
    r: Result<Vec<u8>, PhyError>,
    hulls: Seq<Vec<PhyHull>>,
    ms: Seq<SolidMeasures>,
    solids: Seq<PhySolid>,
    params: PhyParams,
)
    requires
        written(r, hulls, ms, solids, params),
        writable(hulls, ms, solids, params),
        texts_clean(solids, params),
        forall|i: int|
            0 <= i < hulls.len() ==> {
                &&& surface_size(#[trigger] hulls_of(hulls, i)) < 16777216
                &&& hulls_spread(hulls_of(hulls, i))
            },
    ensures
        r is Ok,
{
    if r is Err {
        let bytes = choose|bytes: Seq<u8>| #[trigger]
            file_of(bytes, hulls, ms, solids, params) && !phy_ok(bytes);
        let (ps, g) = choose|ps: Seq<PreparedSolid>, g: Seq<SolidGeometry>|
            {
                &&& #[trigger] prepares_all(ps, hulls)
                &&& #[trigger] all_measured(g, ps, ms, solids, params)
                &&& bytes == file_bytes(ps, g, solids, params)
            };
        clean_texts_keep_the_rules(solids, g, params);
        written_files_keep_the_rules(hulls, ps, g, ms, solids, params);
    }
}

/// Where vector `v` stands, its three numbers stand one behind the other.
spec fn vector_at(b: Seq<u8>, o: int, v: [u32; 3]) -> bool {
    u32_at(b, o) == v@[0] && u32_at(b, o + 4) == v@[1] && u32_at(b, o + 8) == v@[2]
}

/// What is read of the header of a solid's surface: the centre of mass, the inertia, and the
/// radius.
proof fn surface_numbers(b: Seq<u8>, o: int, size: int, region: int, g: SolidGeometry)
    requires
        stands(b, o, surface_header(size, region, g)),
    ensures
        vector_at(b, o, g.mass_center),
        vector_at(b, o + 12, g.rotation_inertia),
        u32_at(b, o + 24) == g.upper_limit_radius,
{
    let m = vec3_bytes(g.mass_center);
    let i = vec3_bytes(g.rotation_inertia);
    let u = le32(g.upper_limit_radius);
    let a = le32((250 + 256 * (size % 16777216)) as u32);
    let c = le32((48 + region) as u32);
    let z = le32(0);
    let d = le32(IVP_COMPACT_SURFACE_ID);
    stand_apart(b, o, m + i + u + a + c + z + z, d);
    stand_apart(b, o, m + i + u + a + c + z, z);
    stand_apart(b, o, m + i + u + a + c, z);
    stand_apart(b, o, m + i + u + a, c);
    stand_apart(b, o, m + i + u, a);
    stand_apart(b, o, m + i, u);
    stand_apart(b, o, m, i);
    vector_reads(b, o, g.mass_center);
    vector_reads(b, o + 12, g.rotation_inertia);
    word_stands(b, o + 24, g.upper_limit_radius);
}

/// What is read of the number of the bone in a hull's header.
proof fn client_reads(b: Seq<u8>, o: int, h: PreparedHull, to_points: int, client: int)
    requires
        stands(b, o, super::surface::ledge_bytes(h, to_points, client)),
        0 <= client <= i32::MAX,
    ensures
        i32_at(b, o + 4) == client,
{
    let a = le32(to_points as u32);
    let c = le32(client as u32);
    let d = le32((4 + 256 * (1 + h.tris@.len() + h.used@.len())) as u32);
    let e = le16(h.tris@.len() as u16);
    let z = le16(0);
    stand_apart(b, o, a + c + d + e + z, triangles_bytes(h, h.tris@.len() as int));
    stand_apart(b, o, a + c + d + e, z);
    stand_apart(b, o, a + c + d, e);
    stand_apart(b, o, a + c, d);
    stand_apart(b, o, a, c);
    word_stands(b, o + 4, client as u32);
}

/// A solid stands in a file where it starts.
proof fn solid_is_in_the_file(
    hulls: Seq<Vec<PhyHull>>,
    ps: Seq<PreparedSolid>,
    g: Seq<SolidGeometry>,
    ms: Seq<SolidMeasures>,
    solids: Seq<PhySolid>,
    params: PhyParams,
    i: int,
)
    requires
        writable(hulls, ms, solids, params),
        prepares_all(ps, hulls),
        all_measured(g, ps, ms, solids, params),
        forall|i: int|
            0 <= i < hulls.len() ==> {
                &&& surface_size(#[trigger] hulls_of(hulls, i)) < 16777216
                &&& hulls_spread(hulls_of(hulls, i))
            },
        0 <= i < hulls.len(),
    ensures
        ({
            let b = file_bytes(ps, g, solids, params);
            &&& solid_here(b, base_of(ps, i), ps[i], g[i], solids[i].bone_index)
            &&& u32_at(b, 0) == 16
            &&& u32_at(b, 4) == 0
            &&& u32_at(b, 8) == hulls.len()
            &&& u32_at(b, 12) == params.checksum
        }),
{
    writable_is_sound(hulls, ps, g, ms, solids, params);
    let n = ps.len() as int;
    let b = file_bytes(ps, g, solids, params);
    let body = solids_bytes(ps, g, solids, n);
    header_is_read(b, n, params.checksum, body, section_bytes(solids, g, params));
    solid_stands(b, ps, g, solids, n, i);
}

/// What is measured of a solid.
proof fn measured_numbers(
    g: SolidGeometry,
    p: PreparedSolid,
    m: SolidMeasures,
    s: PhySolid,
    whole: u32,
    params: PhyParams,
)
    requires
        measured(g, p, m, s, whole, params),
    ensures
        g.mass_center == (match params.mass_center {
            Some(c) => ivp(c),
            None => m.mass_center,
        }),
        g.rotation_inertia@[0] == product(m.inertia@[0], params.inertia_scale),
        g.rotation_inertia@[1] == product(m.inertia@[1], params.inertia_scale),
        g.rotation_inertia@[2] == product(m.inertia@[2], params.inertia_scale),
        g.upper_limit_radius == reach(p.points@, g.mass_center, p.points@.len() as int),
{
}

/// The numbers that were to be written are read back from a file. The header gives the number of
/// solids and the checksum; the header of each surface the centre of mass, the inertia and the
/// radius; and the header of each hull the bone, counted from one.
#[verifier::spinoff_prover]
pub proof fn files_hold_their_numbers(
    hulls: Seq<Vec<PhyHull>>,
    ps: Seq<PreparedSolid>,
    g: Seq<SolidGeometry>,
    ms: Seq<SolidMeasures>,
    solids: Seq<PhySolid>,
    params: PhyParams,
    i: int,
    h: int,
)
    requires
        writable(hulls, ms, solids, params),
        prepares_all(ps, hulls),
        all_measured(g, ps, ms, solids, params),
        forall|i: int|
            0 <= i < hulls.len() ==> {
                &&& surface_size(#[trigger] hulls_of(hulls, i)) < 16777216
                &&& hulls_spread(hulls_of(hulls, i))
            },
        0 <= i < hulls.len(),
        0 <= h < hulls[i]@.len(),
    ensures
        ({
            let b = file_bytes(ps, g, solids, params);
            let base = base_of(ps, i);
            let center = match params.mass_center {
                Some(m) => ivp(m),
                None => ms[i].mass_center,
            };
            &&& u32_at(b, 0) == 16
            &&& u32_at(b, 4) == 0
            &&& u32_at(b, 8) == hulls.len()
            &&& u32_at(b, 12) == params.checksum
            &&& u32_at(b, base + 32) == center@[0]
            &&& u32_at(b, base + 36) == center@[1]
            &&& u32_at(b, base + 40) == center@[2]
            &&& u32_at(b, base + 44) == product(ms[i].inertia@[0], params.inertia_scale)
            &&& u32_at(b, base + 48) == product(ms[i].inertia@[1], params.inertia_scale)
            &&& u32_at(b, base + 52) == product(ms[i].inertia@[2], params.inertia_scale)
            &&& u32_at(b, base + 56) == reach(ps[i].points@, center, ps[i].points@.len() as int)
            &&& i32_at(b, base + 80 + ledge_start(ps[i], h) + 4) == (
            match solids[i].bone_index {
                Some(n) => n + 1,
                None => 0,
            })
        }),
{
    solid_is_in_the_file(hulls, ps, g, ms, solids, params, i);
    let b = file_bytes(ps, g, solids, params);
    assert(prepares(ps[i], hulls_of(hulls, i)));
    surface_is_read(b, base_of(ps, i), ps[i], g[i], solids[i].bone_index, h);
    assert(measured(g[i], ps[i], ms[i], solids[i], whole_volume(ms), params));
    measured_numbers(g[i], ps[i], ms[i], solids[i], whole_volume(ms), params);
}

/// Each corner of each face of each hull leads, in a file, to the point that this corner has in the
/// hull, along the axes and in the units of the file.
#[verifier::spinoff_prover]
pub proof fn files_hold_their_corners(
    hulls: Seq<Vec<PhyHull>>,
    ps: Seq<PreparedSolid>,
    g: Seq<SolidGeometry>,
    ms: Seq<SolidMeasures>,
    solids: Seq<PhySolid>,
    params: PhyParams,
    i: int,
    h: int,
    f: int,
    c: int,
)
    requires
        writable(hulls, ms, solids, params),
        prepares_all(ps, hulls),
        all_measured(g, ps, ms, solids, params),
        forall|i: int|
            0 <= i < hulls.len() ==> {
                &&& surface_size(#[trigger] hulls_of(hulls, i)) < 16777216
                &&& hulls_spread(hulls_of(hulls, i))
            },
        0 <= i < hulls.len(),
        0 <= h < hulls[i]@.len(),
        0 <= f < hulls[i]@[h]@.faces.len(),
        0 <= c < 3,
    ensures
        ({
            let b = file_bytes(ps, g, solids, params);
            let lo = base_of(ps, i) + 80 + ledge_start(ps[i], h);
            let corner = u32_at(b, lo + 16 + 16 * f + 4 + 4 * c) % 65536;
            let at = lo + i32_at(b, lo) + 16 * corner;
            let hull = hulls[i]@[h]@;
            let v = ivp(hull.vertices[hull.faces[f]@[c] as int]);
            u32_at(b, at) == v@[0] && u32_at(b, at + 4) == v@[1] && u32_at(b, at + 8) == v@[2]
        }),
{
    solid_is_in_the_file(hulls, ps, g, ms, solids, params, i);
    let b = file_bytes(ps, g, solids, params);
    let hv = hulls_of(hulls, i);
    assert(prepares(ps[i], hv));
    corner_is_found(b, base_of(ps, i), ps[i], g[i], solids[i].bone_index, hv, h, f, c);
    let hull = hulls[i]@[h]@;
    let k = hull.faces[f]@[c] as int;
    assert(k < hull.vertices.len()) by {
        let e = 3 * f + c;
        assert(e / 3 == f && e % 3 == c);
        assert(hull_good(hv, h));
        assert(index_exists(hv[h], e));
    }
    assert(hv[h].vertices[k] == ivp(hull.vertices[k]));
}

/// What is read of a file's header.
proof fn header_is_read(b: Seq<u8>, n: int, checksum: u32, body: Seq<u8>, text: Seq<u8>)
    requires
        b == file_header(n, checksum) + body + text,
        0 <= n <= i32::MAX,
    ensures
        stands(b, 16, body),
        u32_at(b, 0) == 16,
        u32_at(b, 4) == 0,
        u32_at(b, 8) == n,
        u32_at(b, 12) == checksum,
{
    let head = file_header(n, checksum);
    assert(b.subrange(0, b.len() as int) =~= b);
    assert(stands(b, 0, head + body + text)) by {
        reveal(stands);
    }
    stand_apart(b, 0, head + body, text);
    stand_apart(b, 0, head, body);
    assert(head.len() == 16);
    let a = le32(16);
    let z = le32(0);
    let k = le32(n as u32);
    let s = le32(checksum);
    stand_apart(b, 0, a + z + k, s);
    stand_apart(b, 0, a + z, k);
    stand_apart(b, 0, a, z);
    word_stands(b, 0, 16);
    word_stands(b, 4, 0);
    word_stands(b, 8, n as u32);
    word_stands(b, 12, checksum);
}

/// What is read of a solid's measures and of the bone of a hull.
#[verifier::spinoff_prover]
proof fn surface_is_read(
    b: Seq<u8>,
    base: int,
    p: PreparedSolid,
    g: SolidGeometry,
    bone: Option<u32>,
    h: int,
)
    requires
        solid_here(b, base, p, g, bone),
        0 <= h < p.hulls@.len(),
    ensures
        vector_at(b, base + 32, g.mass_center),
        vector_at(b, base + 44, g.rotation_inertia),
        u32_at(b, base + 56) == g.upper_limit_radius,
        i32_at(b, base + 80 + ledge_start(p, h) + 4) == client_data(bone),
{
    here_is_sound(b, base, p, g, bone);
    parts_stand(b, base, p, g, bone);
    surface_numbers(b, base + 32, p.surface_size as int, p.ledge_region_size as int, g);
    let lo = base + 80 + ledge_start(p, h);
    ledge_stands(b, base + 80, p, ledges_of(p), client_data(bone), p.hulls@.len() as int, h);
    client_reads(b, lo, p.hulls@[h], ledges_of(p) - p.hulls@[h].offset, client_data(bone));
}

/// The corner of a face leads to its point.
#[verifier::spinoff_prover]
proof fn corner_is_found(
    b: Seq<u8>,
    base: int,
    p: PreparedSolid,
    g: SolidGeometry,
    bone: Option<u32>,
    hv: Seq<HullView>,
    h: int,
    f: int,
    c: int,
)
    requires
        solid_here(b, base, p, g, bone),
        prepares(p, hv),
        0 <= h < hv.len(),
        0 <= f < hv[h].faces.len(),
        0 <= c < 3,
    ensures
        ({
            let lo = base + 80 + ledge_start(p, h);
            let corner = u32_at(b, lo + 16 + 16 * f + 4 + 4 * c) % 65536;
            let at = lo + i32_at(b, lo) + 16 * corner;
            vector_at(b, at, hv[h].vertices[hv[h].faces[f]@[c] as int])
        }),
{
    here_is_sound(b, base, p, g, bone);
    let lo = base + 80 + ledge_start(p, h);
    let q = p.hulls@[h];
    let e = 3 * f + c;
    assert(e / 3 == f && e % 3 == c);
    assert(prepares_hull(q, hv, h));
    hull_reads(b, base, p, g, bone, h);
    assert(hull_sound(q));
    triangle_is_read(b, lo, q, f);
    let t = tri_at(b, lo, f);
    assert(t@[c] == q.tris@[f]@[c]);
    let n = hv.len() as int;
    tris_over_all_points(hv, h, n);
    tri_points_exist(hv, h, e);
    let k = q.tris@[f]@[c] as int;
    assert(tri_point(q.tris@, e) == k);
    points_read(b, base, p, g, bone);
    assert(p.points@[k] == super::solid::corner(hv[h], e));
    let shared = base + 80 + ledges_of(p);
    assert(file_points(b, shared, p.points@.len() as int)[k] == super::check::file_point(b, shared, k));
    let w = super::check::file_point(b, shared, k);
    assert(w@[0] == u32_at(b, shared + 16 * k));
    assert(w@[1] == u32_at(b, shared + 16 * k + 4));
    assert(w@[2] == u32_at(b, shared + 16 * k + 8));
    assert(u32_at(b, lo + 16 + 16 * f + 4 + 4 * c) % 65536 == k);
}

} // verus!
