//! Reading collision files back: every rule of the layout.
use vstd::prelude::*;

use super::bounds::{
    box_of_points, farthest, half_steps, middle_of, node_geometry, open_box, radius_of, reach, Bounds,
    BoundsView,
};
use super::edges::{edges_pair_up, opposite, opposite_edge_is_unique, pair_edges, Pairing};
use super::error::PhyError;
use super::faults::{
    solid_says_only, solid_told, tell_chain, tell_frame, tell_header, tell_hulls, tell_only_link,
    tell_reach, tell_tree, text_words, told,
};
use super::solid::{lists_used, names_point, tri_point, used_points};
use super::surface::{edge_distance, NodeGeometry, IVP_COMPACT_SURFACE_ID};
use crate::arith::{abs, absolute, below, difference, less, minus};
use crate::bytes::{
    i16_at, i32_at, read_i16, read_i32, read_u16, read_u32, u16_at, u32_at,
};
use crate::single::{is_nan, rank, rank_of, INFINITE};
use crate::seqs::{increasing, insert_sorted, insert_sorted_keeps_order};
use crate::text::push_decimal;

verus! {

/// The size of the file header in bytes.
pub const PHY_HEADER_SIZE: usize = 16;

/// The size of a solid's header in bytes.
pub const SOLID_HEADER_SIZE: usize = 32;

/// Marks a solid: the letters `VPHY`.
pub const VPHYSICS_ID: u32 = 0x5948_5056;

/// The version of the solid format.
pub const VPHYSICS_COLLISION_VERSION: u16 = 0x0100;

/// The kind of a solid made of polygons.
pub const COLLIDE_POLY: i16 = 0;

/// What a collision file holds, by sizes and counts.
#[derive(Debug, Clone, PartialEq, Eq)]
pub struct PhyLayout {
    /// The size of the file in bytes.
    pub file_size: usize,
    /// How many solids there are.
    pub solid_count: usize,
    /// Where the text section starts.
    pub solids_end: usize,
    /// The size of the text section in bytes.
    pub text_size: usize,
    /// The size of each surface in bytes.
    pub surface_sizes: Vec<i32>,
    /// The number of tree nodes of each solid.
    pub node_counts: Vec<usize>,
    /// The size of the hulls and points of each solid in bytes.
    pub ledge_region_sizes: Vec<usize>,
}

/// The size of the surface of the solid at `base`.
pub open spec fn surface_at(b: Seq<u8>, base: int) -> int {
    i32_at(b, base + 12) as int
}

/// Where the solid at `base` ends.
pub open spec fn end_at(b: Seq<u8>, base: int) -> int {
    base + 32 + surface_at(b, base)
}

/// Where the tree of the solid at `base` starts.
pub open spec fn tree_at(b: Seq<u8>, base: int) -> int {
    base + 32 + i32_at(b, base + 64)
}

/// How many tree nodes the solid at `base` has.
pub open spec fn nodes_at(b: Seq<u8>, base: int) -> int {
    (end_at(b, base) - tree_at(b, base)) / 28
}

/// Where the hulls of the solid at `base` start.
pub open spec fn region_at(base: int) -> int {
    base + 80
}

/// The headers of the solid at `base` are as they must be, and its parts lie inside the file.
#[verifier::opaque]
pub open spec fn frame_ok(b: Seq<u8>, base: int) -> bool {
    &&& base + 32 <= b.len()
    &&& u32_at(b, base + 4) == VPHYSICS_ID
    &&& u16_at(b, base + 8) == VPHYSICS_COLLISION_VERSION
    &&& i16_at(b, base + 10) == COLLIDE_POLY
    &&& i32_at(b, base + 28) == 0
    &&& i32_at(b, base) - surface_at(b, base) == 28
    &&& surface_at(b, base) >= 76
    &&& end_at(b, base) <= b.len()
    &&& tree_at(b, base) > region_at(base)
    &&& tree_at(b, base) + 28 <= end_at(b, base)
    &&& (end_at(b, base) - tree_at(b, base)) % 28 == 0
    &&& u32_at(b, base + 60) / 256 == surface_at(b, base)
    &&& u32_at(b, base + 60) % 256 != 0
    &&& u32_at(b, base + 76) == IVP_COMPACT_SURFACE_ID
    &&& i32_at(b, base + 68) == 0
    &&& i32_at(b, base + 72) == 0
}

/// The distance from node `i` to its right child in bytes; 0 for a leaf.
pub open spec fn right_at(b: Seq<u8>, tree: int, i: int) -> int {
    i32_at(b, tree + 28 * i) as int
}

/// The distance from node `i` to its hull in bytes; 0 for none.
pub open spec fn link_at(b: Seq<u8>, tree: int, i: int) -> int {
    i32_at(b, tree + 28 * i + 4) as int
}

/// Where the hull of node `i` starts.
pub open spec fn linked(b: Seq<u8>, tree: int, i: int) -> int {
    tree + 28 * i + link_at(b, tree, i)
}

/// What node `i` points at lies inside the solid.
pub open spec fn node_ok(b: Seq<u8>, region: int, tree: int, nodes: int, i: int) -> bool {
    &&& link_at(b, tree, i) != 0 ==> {
        &&& region <= linked(b, tree, i)
        &&& linked(b, tree, i) + 16 <= tree
    }
    &&& right_at(b, tree, i) != 0 ==> {
        &&& right_at(b, tree, i) % 28 == 0
        &&& 0 <= i + right_at(b, tree, i) / 28 < nodes
    }
}

/// Following the children from the nodes `todo`, top first, meets each of the `left` nodes that
/// are not in `seen` once, and no other.
pub open spec fn walk(
    b: Seq<u8>,
    tree: int,
    nodes: int,
    todo: Seq<int>,
    seen: Set<int>,
    left: nat,
) -> bool
    decreases left,
{
    if todo.len() == 0 {
        left == 0
    } else {
        let i = todo.last();
        let rest = todo.drop_last();
        &&& left > 0
        &&& 0 <= i < nodes
        &&& !seen.contains(i)
        &&& walk(
            b,
            tree,
            nodes,
            if right_at(b, tree, i) == 0 {
                rest
            } else {
                rest.push(i + 1).push(i + right_at(b, tree, i) / 28)
            },
            seen.insert(i),
            (left - 1) as nat,
        )
    }
}

/// The nodes are a tree under the first node.
pub open spec fn tree_ok(b: Seq<u8>, region: int, tree: int, nodes: int) -> bool {
    &&& forall|i: int| 0 <= i < nodes ==> #[trigger] node_ok(b, region, tree, nodes, i)
    &&& walk(b, tree, nodes, seq![0], Set::empty(), nodes as nat)
}

/// Where the hulls of the first `n` nodes start, in increasing order, each once.
pub open spec fn hull_starts(b: Seq<u8>, tree: int, n: int) -> Seq<int>
    decreases n,
{
    if n <= 0 {
        Seq::empty()
    } else if link_at(b, tree, n - 1) == 0 {
        hull_starts(b, tree, n - 1)
    } else {
        insert_sorted(hull_starts(b, tree, n - 1), linked(b, tree, n - 1))
    }
}

/// How many triangles the hull at `lo` says it has.
pub open spec fn triangles_at(b: Seq<u8>, lo: int) -> int {
    i16_at(b, lo + 12) as int
}

/// Where the hull at `lo` ends.
pub open spec fn hull_end(b: Seq<u8>, lo: int) -> int {
    lo + 16 + 16 * triangles_at(b, lo)
}

/// The hulls follow one another from `region` on and end before `tree`.
pub open spec fn chain_ok(b: Seq<u8>, region: int, tree: int, starts: Seq<int>) -> bool {
    &&& starts.len() > 0
    &&& starts[0] == region
    &&& forall|i: int|
        0 <= i < starts.len() ==> triangles_at(b, #[trigger] starts[i]) > 0 && hull_end(
            b,
            starts[i],
        ) <= tree
    &&& forall|i: int| 0 < i < starts.len() ==> #[trigger] starts[i] == hull_end(b, starts[i - 1])
}

/// Where the points start.
pub open spec fn points_at(b: Seq<u8>, starts: Seq<int>) -> int {
    hull_end(b, starts.last())
}

/// The header of the hull at `lo` is as it must be.
pub open spec fn hull_header_ok(b: Seq<u8>, lo: int, shared: int) -> bool {
    &&& lo + i32_at(b, lo) == shared
    &&& u32_at(b, lo + 8) % 256 == 4
    &&& i16_at(b, lo + 14) == 0
}

/// Where triangle `k` of the hull at `lo` stands.
pub open spec fn triangle_at(lo: int, k: int) -> int {
    lo + 16 + 16 * k
}

/// Triangle `k` of the hull at `lo`, as indices into the points.
pub open spec fn tri_at(b: Seq<u8>, lo: int, k: int) -> [u32; 3] {
    [
        (u32_at(b, triangle_at(lo, k) + 4) % 65536) as u32,
        (u32_at(b, triangle_at(lo, k) + 8) % 65536) as u32,
        (u32_at(b, triangle_at(lo, k) + 12) % 65536) as u32,
    ]
}

/// The triangles of the hull at `lo`.
pub open spec fn tris_at(b: Seq<u8>, lo: int) -> Seq<[u32; 3]> {
    Seq::new(triangles_at(b, lo) as nat, |k: int| tri_at(b, lo, k))
}

/// The distance that edge `e` of the hull at `lo` gives, in 15 bits.
pub open spec fn distance_at(b: Seq<u8>, lo: int, e: int) -> int {
    let raw = (u32_at(b, triangle_at(lo, e / 3) + 4 + 4 * (e % 3)) / 65536) % 32768;
    if raw >= 16384 {
        raw - 32768
    } else {
        raw as int
    }
}

/// The points that triangles name.
pub open spec fn named_points(tris: Seq<[u32; 3]>) -> Set<u32> {
    Set::new(|g: u32| names_point(tris, g))
}

/// The triangles of the hull at `lo` are numbered, name existing points, and close a surface on
/// which each edge gives the distance to the edge that runs back.
#[verifier::opaque]
pub open spec fn hull_mesh_ok(b: Seq<u8>, lo: int, points: int) -> bool {
    let tris = tris_at(b, lo);
    &&& forall|k: int|
        0 <= k < tris.len() ==> u32_at(b, #[trigger] triangle_at(lo, k)) % 4096 == k
    &&& forall|e: int| 0 <= e < 3 * tris.len() ==> #[trigger] tri_point(tris, e) < points
    &&& edges_pair_up(tris, true)
    &&& forall|d: int, e: int|
        0 <= d < 3 * tris.len() && 0 <= e < 3 * tris.len() && #[trigger] opposite(tris, d, e)
            ==> distance_at(b, lo, e) == edge_distance(e / 3, e % 3, d / 3, d % 3)
    &&& u32_at(b, lo + 8) / 256 == 1 + tris.len() + named_points(tris).len()
}

/// Node `i` is the first that links to the hull at `lo`.
pub open spec fn first_link(b: Seq<u8>, tree: int, lo: int, i: int) -> bool {
    &&& link_at(b, tree, i) != 0 && linked(b, tree, i) == lo
    &&& forall|j: int|
        0 <= j < i ==> !(#[trigger] link_at(b, tree, j) != 0 && linked(b, tree, j) == lo)
}

/// Point `i` of those that start at `shared`.
pub open spec fn file_point(b: Seq<u8>, shared: int, i: int) -> [u32; 3] {
    [
        u32_at(b, shared + 16 * i),
        u32_at(b, shared + 16 * i + 4),
        u32_at(b, shared + 16 * i + 8),
    ]
}

/// The `points` points that start at `shared`.
pub open spec fn file_points(b: Seq<u8>, shared: int, points: int) -> Seq<[u32; 3]> {
    Seq::new(points as nat, |i: int| file_point(b, shared, i))
}

/// The points that triangles name, in increasing order.
pub open spec fn used_of(tris: Seq<[u32; 3]>) -> Seq<u32> {
    choose|used: Seq<u32>| lists_used(used, tris)
}

/// The box around the hull at `lo`.
pub open spec fn box_at(b: Seq<u8>, shared: int, points: int, lo: int) -> BoundsView {
    let used = used_of(tris_at(b, lo));
    open_box(file_points(b, shared, points), used, used.len() as int)
}

/// A distance that counts as none.
pub const TOLERANCE: u32 = 0x38D1_B717;

/// A difference of radii that counts as none.
pub const RADIUS_TOLERANCE: u32 = 0x3A83_126F;

/// Two numbers are farther apart than a tolerance.
pub open spec fn apart(x: u32, y: u32, tolerance: u32) -> bool {
    below(tolerance, absolute(difference(x, y)))
}

/// The node at `at` gives the measures of a box: its middle and its radius within a tolerance, and
/// the steps exactly. The radius is more than zero, and the unused byte is 0.
#[verifier::opaque]
pub open spec fn node_fits(b: Seq<u8>, at: int, v: BoundsView) -> bool {
    &&& !apart(u32_at(b, at + 8), middle_of(v, 0), TOLERANCE)
    &&& !apart(u32_at(b, at + 12), middle_of(v, 1), TOLERANCE)
    &&& !apart(u32_at(b, at + 16), middle_of(v, 2), TOLERANCE)
    &&& !apart(u32_at(b, at + 20), radius_of(v), RADIUS_TOLERANCE)
    &&& !at_most_zero(u32_at(b, at + 20))
    &&& b[at + 24] == half_steps(v, 0)
    &&& b[at + 25] == half_steps(v, 1)
    &&& b[at + 26] == half_steps(v, 2)
    &&& b[at + 27] == 0
}

/// A number is zero or less.
pub open spec fn at_most_zero(v: u32) -> bool {
    !is_nan(v) && rank(v) <= 0
}

/// The first node that links to the hull at `lo` gives the measures of its box.
#[verifier::opaque]
pub open spec fn hull_node_ok(
    b: Seq<u8>,
    tree: int,
    nodes: int,
    shared: int,
    points: int,
    lo: int,
) -> bool {
    forall|i: int|
        0 <= i < nodes && #[trigger] first_link(b, tree, lo, i) ==> node_fits(
            b,
            tree + 28 * i,
            box_at(b, shared, points, lo),
        )
}

/// The radius of the solid at `base` is the distance of its farthest point from its centre of
/// mass.
#[verifier::opaque]
pub open spec fn reach_ok(b: Seq<u8>, base: int, shared: int, points: int) -> bool {
    !apart(
        u32_at(b, base + 56),
        reach(
            file_points(b, shared, points),
            [u32_at(b, base + 32), u32_at(b, base + 36), u32_at(b, base + 40)],
            points,
        ),
        TOLERANCE,
    )
}

/// The hull at `lo` keeps every rule.
pub open spec fn hull_ok(
    b: Seq<u8>,
    tree: int,
    nodes: int,
    shared: int,
    points: int,
    lo: int,
) -> bool {
    hull_header_ok(b, lo, shared) && hull_mesh_ok(b, lo, points) && hull_node_ok(
        b,
        tree,
        nodes,
        shared,
        points,
        lo,
    )
}

/// The solid at `base` keeps every rule.
#[verifier::opaque]
pub open spec fn solid_ok(b: Seq<u8>, base: int) -> bool {
    let tree = tree_at(b, base);
    let nodes = nodes_at(b, base);
    let starts = hull_starts(b, tree, nodes);
    let shared = points_at(b, starts);
    let points = (tree - shared) / 16;
    &&& frame_ok(b, base)
    &&& tree_ok(b, region_at(base), tree, nodes)
    &&& chain_ok(b, region_at(base), tree, starts)
    &&& (tree - shared) % 16 == 0
    &&& points > 0
    &&& forall|i: int|
        0 <= i < starts.len() ==> hull_ok(b, tree, nodes, shared, points, #[trigger] starts[i])
    &&& nodes == 1 ==> link_at(b, tree, 0) == 80 + base - tree
    &&& reach_ok(b, base, shared, points)
}

/// Where solid `i` starts.
pub open spec fn solid_base(b: Seq<u8>, i: int) -> int
    decreases i,
{
    if i <= 0 {
        16
    } else {
        end_at(b, solid_base(b, i - 1))
    }
}

/// The parts of a solid, by where they stand in the file.
#[derive(Debug, Clone)]
pub struct SolidSite {
    /// Where the solid starts.
    pub base: usize,
    /// Where the tree starts.
    pub tree: usize,
    /// How many tree nodes there are.
    pub nodes: usize,
    /// Where the solid ends.
    pub end: usize,
    /// Where the hulls start, in order.
    pub hulls: Vec<usize>,
    /// Where the points start.
    pub shared: usize,
    /// How many points there are.
    pub points: usize,
}

/// Numbers as mathematical integers.
pub open spec fn as_ints(s: Seq<usize>) -> Seq<int> {
    Seq::new(s.len(), |i: int| s[i] as int)
}

/// `s` gives the parts of the solid at `s.base`.
pub open spec fn site_fits(b: Seq<u8>, s: SolidSite) -> bool {
    &&& s.tree == tree_at(b, s.base as int)
    &&& s.nodes == nodes_at(b, s.base as int)
    &&& s.end == end_at(b, s.base as int)
    &&& as_ints(s.hulls@) == hull_starts(b, s.tree as int, s.nodes as int)
    &&& s.shared == points_at(b, as_ints(s.hulls@))
    &&& s.points == (s.tree - s.shared) / 16
}

/// The solids that `sites` give the parts of keep every rule.
pub open spec fn sites_fit(b: Seq<u8>, sites: Seq<SolidSite>) -> bool {
    forall|i: int|
        0 <= i < sites.len() ==> {
            &&& (#[trigger] sites[i]).base == solid_base(b, i)
            &&& solid_ok(b, solid_base(b, i))
            &&& site_fits(b, sites[i])
        }
}

/// The end of the solid at `base`, the start of its tree and the number of its nodes, if its
/// headers are as they must be.
fn check_frame(bytes: &[u8], base: usize) -> (r: Option<(usize, usize, usize)>)
    requires
        base <= bytes@.len(),
    ensures
        match r {
            Some((end, tree, nodes)) => {
                &&& frame_ok(bytes@, base as int)
                &&& end == end_at(bytes@, base as int)
                &&& tree == tree_at(bytes@, base as int)
                &&& nodes == nodes_at(bytes@, base as int)
                &&& region_at(base as int) < tree
                &&& tree + 28 * nodes == end
                &&& 0 < nodes
                &&& end <= bytes@.len()
                &&& end - base <= u32::MAX
            },
            None => !frame_ok(bytes@, base as int),
        },
{
    reveal(frame_ok);
    if bytes.len() - base < SOLID_HEADER_SIZE {
        return None;
    }
    if read_u32(bytes, base + 4) != VPHYSICS_ID || read_u16(bytes, base + 8)
        != VPHYSICS_COLLISION_VERSION || read_i16(bytes, base + 10) != COLLIDE_POLY || read_i32(
        bytes,
        base + 28,
    ) != 0 {
        return None;
    }
    let size: i64 = read_i32(bytes, base) as i64;
    let surface: i64 = read_i32(bytes, base + 12) as i64;
    if size - surface != 28 || surface < 76 {
        return None;
    }
    let surface: usize = surface as usize;
    let body: usize = base + SOLID_HEADER_SIZE;
    if bytes.len() - body < surface {
        return None;
    }
    let root: i64 = read_i32(bytes, body + 32) as i64;
    if root <= 48 || root + 28 > surface as i64 || (surface as i64 - root) % 28 != 0 {
        return None;
    }
    let packed: u32 = read_u32(bytes, body + 28);
    if packed / 256 == surface as u32 && packed % 256 != 0 && read_u32(bytes, body + 44)
        == IVP_COMPACT_SURFACE_ID && read_i32(bytes, body + 36) == 0 && read_i32(bytes, body + 40)
        == 0 {
        let end: usize = body + surface;
        let tree: usize = body + root as usize;
        Some((end, tree, (end - tree) / 28))
    } else {
        None
    }
}

/// A node's numbers lie inside its solid.
pub open spec fn tree_inside(b: Seq<u8>, region: int, tree: int, nodes: int) -> bool {
    0 <= region < tree && tree + 28 * nodes <= b.len() && 0 < nodes && b.len() <= usize::MAX
}

/// Tells whether what node `i` points at lies inside the solid.
fn check_node(bytes: &[u8], region: usize, tree: usize, nodes: usize, i: usize) -> (r: bool)
    requires
        tree_inside(bytes@, region as int, tree as int, nodes as int),
        i < nodes,
    ensures
        r == node_ok(bytes@, region as int, tree as int, nodes as int, i as int),
{
    let at: usize = tree + 28 * i;
    let link: i128 = read_i32(bytes, at + 4) as i128;
    if link != 0 {
        let lo: i128 = at as i128 + link;
        if lo < region as i128 || lo + 16 > tree as i128 {
            return false;
        }
    }
    let right: i32 = read_i32(bytes, at);
    if right != 0 {
        if right >= 0 {
            if right % 28 != 0 || (right / 28) as u128 + i as u128 >= nodes as u128 {
                return false;
            }
        } else {
            let back: i64 = -(right as i64);
            assert(right_at(bytes@, tree as int, i as int) == -back);
            if back % 28 != 0 || (back / 28) as u128 > i as u128 {
                assert(back % 28 != 0 ==> (-back) % 28 != 0);
                assert(back % 28 == 0 ==> (-back) / 28 == -(back / 28));
                return false;
            }
            assert((-back) % 28 == 0 && (-back) / 28 == -(back / 28));
        }
    }
    true
}

/// Tells whether all nodes point inside the solid.
fn check_nodes(bytes: &[u8], region: usize, tree: usize, nodes: usize) -> (r: bool)
    requires
        tree_inside(bytes@, region as int, tree as int, nodes as int),
    ensures
        r == (forall|i: int|
            0 <= i < nodes ==> #[trigger] node_ok(
                bytes@,
                region as int,
                tree as int,
                nodes as int,
                i,
            )),
{
    let mut i: usize = 0;
    while i < nodes
        invariant
            tree_inside(bytes@, region as int, tree as int, nodes as int),
            i <= nodes,
            forall|j: int|
                0 <= j < i ==> #[trigger] node_ok(
                    bytes@,
                    region as int,
                    tree as int,
                    nodes as int,
                    j,
                ),
        decreases nodes - i,
    {
        if !check_node(bytes, region, tree, nodes, i) {
            assert(!node_ok(bytes@, region as int, tree as int, nodes as int, i as int));
            return false;
        }
        i = i + 1;
    }
    true
}

/// Tells whether the nodes are a tree under the first node.
fn check_walk(bytes: &[u8], region: usize, tree: usize, nodes: usize) -> (r: bool)
    requires
        tree_inside(bytes@, region as int, tree as int, nodes as int),
        forall|i: int|
            0 <= i < nodes ==> #[trigger] node_ok(
                bytes@,
                region as int,
                tree as int,
                nodes as int,
                i,
            ),
    ensures
        r == walk(
            bytes@,
            tree as int,
            nodes as int,
            seq![0],
            Set::empty(),
            nodes as nat,
        ),
{
    let mut visited: Vec<bool> = Vec::new();
    let mut i: usize = 0;
    while i < nodes
        invariant
            i <= nodes,
            visited@.len() == i,
            forall|j: int| 0 <= j < i ==> !#[trigger] visited@[j],
        decreases nodes - i,
    {
        visited.push(false);
        i = i + 1;
    }
    let mut todo: Vec<usize> = Vec::new();
    todo.push(0);
    let mut left: usize = nodes;
    let ghost mut seen: Set<int> = Set::empty();
    assert(as_ints(todo@) =~= seq![0]);
    while todo.len() > 0
        invariant
            tree_inside(bytes@, region as int, tree as int, nodes as int),
            forall|i: int|
                0 <= i < nodes ==> #[trigger] node_ok(
                    bytes@,
                    region as int,
                    tree as int,
                    nodes as int,
                    i,
                ),
            visited@.len() == nodes,
            forall|j: int| 0 <= j < nodes ==> (#[trigger] visited@[j] <==> seen.contains(j)),
            walk(bytes@, tree as int, nodes as int, as_ints(todo@), seen, left as nat) == walk(
                bytes@,
                tree as int,
                nodes as int,
                seq![0],
                Set::empty(),
                nodes as nat,
            ),
            todo@.len() + left <= usize::MAX,
        decreases left,
    {
        let ghost before = as_ints(todo@);
        let i: usize = todo[todo.len() - 1];
        todo.pop();
        assert(as_ints(todo@) =~= before.drop_last());
        assert(before.last() == i);
        if left == 0 || i >= nodes || visited[i] {
            return false;
        }
        assert(node_ok(bytes@, region as int, tree as int, nodes as int, i as int));
        visited.set(i, true);
        proof {
            seen = seen.insert(i as int);
        }
        left = left - 1;
        let right: i32 = read_i32(bytes, tree + 28 * i);
        if right != 0 {
            let next: i128 = i as i128 + (if right >= 0 {
                (right / 28) as i128
            } else {
                -((-(right as i64) / 28) as i128)
            });
            assert(next == i + right as int / 28) by {
                if right < 0 {
                    let back = -(right as int);
                    assert((-back) / 28 == -(back / 28));
                }
            }
            todo.push(i + 1);
            todo.push(next as usize);
            assert(as_ints(todo@) =~= before.drop_last().push(i + 1).push(next as int));
        }
    }
    left == 0
}

/// Puts `x` at its place among increasing numbers, unless it is there.
fn insert_start(v: &mut Vec<usize>, x: usize)
    requires
        increasing(as_ints(old(v)@)),
        old(v)@.len() < usize::MAX,
    ensures
        as_ints(final(v)@) == insert_sorted(as_ints(old(v)@), x as int),
        increasing(as_ints(final(v)@)),
        final(v)@.len() <= old(v)@.len() + 1,
{
    let ghost s = as_ints(v@);
    proof {
        insert_sorted_keeps_order(s, x as int);
    }
    let mut at: usize = v.len();
    while at > 0 && v[at - 1] > x
        invariant
            at <= v@.len(),
            s == as_ints(v@),
            forall|j: int| at <= j < s.len() ==> #[trigger] s[j] > x,
        decreases at,
    {
        assert(s[at - 1] == v@[at - 1]);
        at = at - 1;
    }
    if at > 0 && v[at - 1] == x {
        assert(s[at - 1] == x);
        proof {
            insert_at(s, x as int, at as int);
        }
        return ;
    }
    assert(at > 0 ==> s[at - 1] == v@[at - 1]);
    proof {
        insert_at(s, x as int, at as int);
    }
    v.insert(at, x);
    assert(as_ints(v@) =~= s.insert(at as int, x as int));
}

/// Sorted insertion puts a number behind all smaller ones.
proof fn insert_at(s: Seq<int>, x: int, at: int)
    requires
        0 <= at <= s.len(),
        forall|j: int| at <= j < s.len() ==> #[trigger] s[j] > x,
        at > 0 ==> s[at - 1] <= x,
    ensures
        insert_sorted(s, x) == (if at > 0 && s[at - 1] == x {
            s
        } else {
            s.insert(at, x)
        }),
    decreases s.len(),
{
    if at == s.len() {
        if at == 0 {
            assert(s.insert(at, x) =~= seq![x]);
        } else {
            assert(s.insert(at, x) =~= s.push(x));
        }
    } else {
        let d = s.drop_last();
        insert_at(d, x, at);
        assert(s =~= d.push(s.last()));
        if !(at > 0 && s[at - 1] == x) {
            assert(d.insert(at, x).push(s.last()) =~= s.insert(at, x));
        }
    }
}

/// Where the hulls start.
fn find_hulls(bytes: &[u8], region: usize, tree: usize, nodes: usize) -> (r: Vec<usize>)
    requires
        tree_inside(bytes@, region as int, tree as int, nodes as int),
        forall|i: int|
            0 <= i < nodes ==> #[trigger] node_ok(
                bytes@,
                region as int,
                tree as int,
                nodes as int,
                i,
            ),
    ensures
        as_ints(r@) == hull_starts(bytes@, tree as int, nodes as int),
        increasing(as_ints(r@)),
        forall|i: int| 0 <= i < r@.len() ==> region <= #[trigger] r@[i] && r@[i] + 16 <= tree,
{
    let mut out: Vec<usize> = Vec::new();
    let mut i: usize = 0;
    assert(as_ints(out@) =~= Seq::empty());
    while i < nodes
        invariant
            tree_inside(bytes@, region as int, tree as int, nodes as int),
            forall|i: int|
                0 <= i < nodes ==> #[trigger] node_ok(
                    bytes@,
                    region as int,
                    tree as int,
                    nodes as int,
                    i,
                ),
            i <= nodes,
            out@.len() <= i,
            as_ints(out@) == hull_starts(bytes@, tree as int, i as int),
            increasing(as_ints(out@)),
            forall|x: int| #[trigger]
                as_ints(out@).contains(x) ==> region <= x && x + 16 <= tree,
        decreases nodes - i,
    {
        assert(node_ok(bytes@, region as int, tree as int, nodes as int, i as int));
        let at: usize = tree + 28 * i;
        let link: i32 = read_i32(bytes, at + 4);
        if link != 0 {
            let lo: usize = (at as i128 + link as i128) as usize;
            proof {
                insert_sorted_keeps_order(as_ints(out@), lo as int);
            }
            insert_start(&mut out, lo);
        }
        i = i + 1;
    }
    assert forall|i: int| 0 <= i < out@.len() implies region <= #[trigger] out@[i] && out@[i] + 16
        <= tree by {
        assert(as_ints(out@)[i] == out@[i]);
        assert(as_ints(out@).contains(out@[i] as int));
    }
    out
}

/// Where the points start, if the hulls follow one another up to there.
fn check_chain(bytes: &[u8], region: usize, tree: usize, starts: &Vec<usize>) -> (r: Option<usize>)
    requires
        region <= tree <= bytes@.len(),
        forall|i: int|
            0 <= i < starts@.len() ==> region <= #[trigger] starts@[i] && starts@[i] + 16 <= tree,
    ensures
        match r {
            Some(shared) => {
                &&& chain_ok(bytes@, region as int, tree as int, as_ints(starts@))
                &&& shared == points_at(bytes@, as_ints(starts@))
                &&& shared <= tree
            },
            None => !chain_ok(bytes@, region as int, tree as int, as_ints(starts@)),
        },
{
    let ghost s = as_ints(starts@);
    if starts.len() == 0 {
        return None;
    }
    let mut cursor: usize = region;
    let mut i: usize = 0;
    while i < starts.len()
        invariant
            s == as_ints(starts@),
            region <= tree <= bytes@.len(),
            forall|i: int|
                0 <= i < starts@.len() ==> region <= #[trigger] starts@[i] && starts@[i] + 16
                    <= tree,
            i <= starts@.len(),
            i == 0 ==> cursor == region,
            i > 0 ==> cursor == hull_end(bytes@, s[i - 1]) && s[0] == region,
            cursor <= tree,
            forall|j: int|
                0 <= j < i ==> triangles_at(bytes@, #[trigger] s[j]) > 0 && hull_end(bytes@, s[j])
                    <= tree,
            forall|j: int| 0 < j < i ==> #[trigger] s[j] == hull_end(bytes@, s[j - 1]),
        decreases starts@.len() - i,
    {
        let lo: usize = starts[i];
        assert(s[i as int] == lo);
        if lo != cursor {
            return None;
        }
        let n: i16 = read_i16(bytes, lo + 12);
        if n <= 0 {
            assert(triangles_at(bytes@, s[i as int]) <= 0);
            return None;
        }
        let size: usize = 16 + 16 * n as usize;
        if tree - lo < size {
            assert(hull_end(bytes@, s[i as int]) > tree);
            return None;
        }
        cursor = lo + size;
        i = i + 1;
    }
    Some(cursor)
}

/// Tells whether the header of the hull at `lo` is as it must be.
pub(crate) fn check_hull_header(bytes: &[u8], lo: usize, shared: usize) -> (r: bool)
    requires
        lo + 16 <= bytes@.len(),
    ensures
        r == hull_header_ok(bytes@, lo as int, shared as int),
{
    let total: usize = bytes.len();
    lo as i128 + read_i32(bytes, lo) as i128 == shared as i128 && read_u32(bytes, lo + 8) % 256
        == 4 && read_i16(bytes, lo + 14) == 0
}

/// The triangles of the hull at `lo`, if they are numbered and name existing points.
pub(crate) fn read_triangles(bytes: &[u8], lo: usize, points: usize) -> (r: Option<Vec<[u32; 3]>>)
    requires
        lo + 16 <= bytes@.len(),
        triangles_at(bytes@, lo as int) > 0,
        hull_end(bytes@, lo as int) <= bytes@.len(),
    ensures
        ({
            let tris = tris_at(bytes@, lo as int);
            let good = (forall|k: int|
                0 <= k < tris.len() ==> u32_at(bytes@, #[trigger] triangle_at(lo as int, k)) % 4096
                    == k) && (forall|e: int|
                0 <= e < 3 * tris.len() ==> #[trigger] tri_point(tris, e) < points);
            match r {
                Some(t) => good && t@ == tris,
                None => !good,
            }
        }),
{
    let ghost tris = tris_at(bytes@, lo as int);
    let total: usize = bytes.len();
    let n: usize = read_i16(bytes, lo + 12) as usize;
    let mut out: Vec<[u32; 3]> = Vec::new();
    let mut k: usize = 0;
    while k < n
        invariant
            total == bytes@.len(),
            n == triangles_at(bytes@, lo as int),
            n <= 32767,
            lo + 16 + 16 * n <= bytes@.len(),
            tris == tris_at(bytes@, lo as int),
            k <= n,
            out@.len() == k,
            forall|j: int| 0 <= j < k ==> #[trigger] out@[j] == tris[j],
            forall|j: int|
                0 <= j < k ==> u32_at(bytes@, #[trigger] triangle_at(lo as int, j)) % 4096 == j,
            forall|e: int| 0 <= e < 3 * k ==> #[trigger] tri_point(tris, e) < points,
        decreases n - k,
    {
        let o: usize = lo + 16 + 16 * k;
        assert(o == triangle_at(lo as int, k as int));
        if read_u32(bytes, o) % 4096 != k as u32 {
            return None;
        }
        let t: [u32; 3] = [
            read_u32(bytes, o + 4) % 65536,
            read_u32(bytes, o + 8) % 65536,
            read_u32(bytes, o + 12) % 65536,
        ];
        assert(t@ =~= tri_at(bytes@, lo as int, k as int)@);
        assert(t == tris[k as int]);
        assert(tri_point(tris, 3 * k + 0) == t@[0]);
        assert(tri_point(tris, 3 * k + 1) == t@[1]);
        assert(tri_point(tris, 3 * k + 2) == t@[2]);
        if t[0] as usize >= points || t[1] as usize >= points || t[2] as usize >= points {
            return None;
        }
        out.push(t);
        k = k + 1;
    }
    assert(out@ =~= tris);
    Some(out)
}

/// The distance that edge `e` of the hull at `lo` gives.
pub(crate) fn read_distance(bytes: &[u8], lo: usize, e: usize) -> (r: i32)
    requires
        triangles_at(bytes@, lo as int) > 0,
        e < 3 * triangles_at(bytes@, lo as int),
        hull_end(bytes@, lo as int) <= bytes@.len(),
    ensures
        r == distance_at(bytes@, lo as int, e as int),
{
    let total: usize = bytes.len();
    let k: usize = e / 3;
    let i: usize = e % 3;
    let raw: i32 = ((read_u32(bytes, lo + 16 + 16 * k + 4 + 4 * i) / 65536) % 32768) as i32;
    if raw >= 16384 {
        raw - 32768
    } else {
        raw
    }
}

/// Lists without repeats of the named points are as long as the points are many.
pub proof fn used_counts_named(used: Seq<u32>, tris: Seq<[u32; 3]>)
    requires
        lists_used(used, tris),
    ensures
        named_points(tris).len() == used.len(),
        named_points(tris).finite(),
{
    assert(used.no_duplicates());
    used.unique_seq_to_set();
    assert(used.to_set() =~= named_points(tris));
}

/// The points that the triangles of the hull at `lo` name, if the triangles close a surface.
pub(crate) fn check_hull_mesh(bytes: &[u8], lo: usize, points: usize) -> (r: Option<Vec<u32>>)
    requires
        lo + 16 <= bytes@.len(),
        triangles_at(bytes@, lo as int) > 0,
        hull_end(bytes@, lo as int) <= bytes@.len(),
        points <= u32::MAX,
    ensures
        match r {
            Some(used) => {
                &&& hull_mesh_ok(bytes@, lo as int, points as int)
                &&& lists_used(used@, tris_at(bytes@, lo as int))
                &&& forall|i: int| 0 <= i < used@.len() ==> #[trigger] used@[i] < points
            },
            None => !hull_mesh_ok(bytes@, lo as int, points as int),
        },
{
    reveal(hull_mesh_ok);
    let ghost tris = tris_at(bytes@, lo as int);
    let total: usize = bytes.len();
    let t: Vec<[u32; 3]> = match read_triangles(bytes, lo, points) {
        Some(t) => t,
        None => {
            return None;
        },
    };
    let used: Vec<u32> = used_points(&t, points);
    proof {
        used_counts_named(used@, tris);
    }
    match pair_edges(&t, true) {
        Pairing::Closed(back) => {
            let mut e: usize = 0;
            while e < back.len()
                invariant
                    tris == tris_at(bytes@, lo as int),
                    edges_pair_up(tris, true),
                    back@.len() == 3 * tris.len(),
                    triangles_at(bytes@, lo as int) > 0,
                    hull_end(bytes@, lo as int) <= bytes@.len(),
                    forall|d: int|
                        0 <= d < back@.len() ==> {
                            &&& (#[trigger] back@[d]) < back@.len()
                            &&& opposite(tris, back@[d] as int, d)
                        },
                    e <= back@.len(),
                    forall|c: int, d: int|
                        0 <= c < 3 * tris.len() && 0 <= d < e && #[trigger] opposite(tris, c, d)
                            ==> distance_at(bytes@, lo as int, d) == edge_distance(
                            d / 3,
                            d % 3,
                            c / 3,
                            c % 3,
                        ),
                decreases back@.len() - e,
            {
                let d: u32 = back[e];
                assert(opposite(tris, d as int, e as int));
                let want: i32 = (4 * (d / 3) as i32 + 1 + (d % 3) as i32) - (4 * (e / 3) as i32 + 1
                    + (e % 3) as i32);
                if read_distance(bytes, lo, e) != want {
                    reveal(hull_mesh_ok);
                    return None;
                }
                assert forall|c: int|
                    0 <= c < 3 * tris.len() && #[trigger] opposite(
                        tris,
                        c,
                        e as int,
                    ) implies distance_at(bytes@, lo as int, e as int) == edge_distance(
                    e as int / 3,
                    e as int % 3,
                    c / 3,
                    c % 3,
                ) by {
                    opposite_edge_is_unique(tris, true, c, d as int, e as int);
                }
                e = e + 1;
            }
            if read_u32(bytes, lo + 8) as u64 / 256 == 1 + t.len() as u64 + used.len() as u64 {
                assert forall|i: int| 0 <= i < used@.len() implies #[trigger] used@[i]
                    < points by {
                    assert(used@.contains(used@[i]));
                    assert(names_point(tris, used@[i]));
                }
                Some(used)
            } else {
                None
            }
        },
        _ => None,
    }
}

/// Lists of the named points in increasing order are the same.
pub proof fn used_is_unique(a: Seq<u32>, b: Seq<u32>, tris: Seq<[u32; 3]>)
    requires
        lists_used(a, tris),
        lists_used(b, tris),
    ensures
        a == b,
{
    assert forall|g: u32| a.contains(g) <==> b.contains(g) by {
        assert(a.contains(g) <==> names_point(tris, g));
        assert(b.contains(g) <==> names_point(tris, g));
    }
    increasing_lists_agree(a, b);
}

proof fn increasing_lists_agree(a: Seq<u32>, b: Seq<u32>)
    requires
        forall|i: int, j: int| 0 <= i < j < a.len() ==> a[i] < a[j],
        forall|i: int, j: int| 0 <= i < j < b.len() ==> b[i] < b[j],
        forall|g: u32| #[trigger] a.contains(g) <==> b.contains(g),
    ensures
        a == b,
    decreases a.len(),
{
    if a.len() == 0 {
        if b.len() > 0 {
            assert(b.contains(b[0]));
            assert(a.contains(b[0]));
        }
        assert(a =~= b);
    } else {
        assert(a.contains(a[0]));
        assert(b.contains(a[0]));
        let x = a.last();
        let y = b.last();
        assert(a.contains(x));
        assert(b.contains(x));
        assert(b.contains(y));
        assert(a.contains(y));
        let i = choose|i: int| 0 <= i < b.len() && b[i] == x;
        let j = choose|j: int| 0 <= j < a.len() && a[j] == y;
        assert(x <= y);
        assert(y <= x);
        let c = a.drop_last();
        let d = b.drop_last();
        assert forall|g: u32| #[trigger] c.contains(g) <==> d.contains(g) by {
            if c.contains(g) {
                let k = choose|k: int| 0 <= k < c.len() && c[k] == g;
                assert(a[k] == g);
                assert(a.contains(g));
                assert(b.contains(g));
                let l = choose|l: int| 0 <= l < b.len() && b[l] == g;
                assert(d[l] == g);
            }
            if d.contains(g) {
                let k = choose|k: int| 0 <= k < d.len() && d[k] == g;
                assert(b[k] == g);
                assert(b.contains(g));
                assert(a.contains(g));
                let l = choose|l: int| 0 <= l < a.len() && a[l] == g;
                assert(c[l] == g);
            }
        }
        increasing_lists_agree(c, d);
        assert(a =~= c.push(x));
        assert(b =~= d.push(y));
    }
}

/// The `points` points that start at `shared`.
fn read_points(bytes: &[u8], shared: usize, points: usize) -> (r: Vec<[u32; 3]>)
    requires
        shared + 16 * points <= bytes@.len(),
    ensures
        r@ == file_points(bytes@, shared as int, points as int),
{
    let total: usize = bytes.len();
    let mut out: Vec<[u32; 3]> = Vec::new();
    let mut i: usize = 0;
    while i < points
        invariant
            total == bytes@.len(),
            shared + 16 * points <= bytes@.len(),
            i <= points,
            out@.len() == i,
            forall|j: int|
                0 <= j < i ==> #[trigger] out@[j] == file_point(bytes@, shared as int, j),
        decreases points - i,
    {
        let at: usize = shared + 16 * i;
        let p: [u32; 3] = [
            read_u32(bytes, at),
            read_u32(bytes, at + 4),
            read_u32(bytes, at + 8),
        ];
        assert(p@ =~= file_point(bytes@, shared as int, i as int)@);
        out.push(p);
        i = i + 1;
    }
    assert(out@ =~= file_points(bytes@, shared as int, points as int));
    out
}

/// Tells whether two numbers are farther apart than a tolerance.
pub(crate) fn are_apart(x: u32, y: u32, tolerance: u32) -> (r: bool)
    ensures
        r == apart(x, y, tolerance),
{
    less(tolerance, abs(minus(x, y)))
}

/// Tells whether the node at `at` gives the measures of a box.
fn check_measures(bytes: &[u8], at: usize, v: Bounds) -> (r: bool)
    requires
        at + 28 <= bytes@.len(),
    ensures
        r == node_fits(bytes@, at as int, v@),
{
    reveal(node_fits);
    let total: usize = bytes.len();
    let g: NodeGeometry = node_geometry(v);
    let radius: u32 = read_u32(bytes, at + 20);
    let center: bool = !are_apart(read_u32(bytes, at + 8), g.center[0], TOLERANCE) && !are_apart(
        read_u32(bytes, at + 12),
        g.center[1],
        TOLERANCE,
    ) && !are_apart(read_u32(bytes, at + 16), g.center[2], TOLERANCE);
    let around: bool = !are_apart(radius, g.radius, RADIUS_TOLERANCE) && !(radius % 0x8000_0000
        <= INFINITE && rank_of(radius) <= 0);
    center && around && bytes[at + 24] == g.box_sizes[0] && bytes[at + 25] == g.box_sizes[1]
        && bytes[at + 26] == g.box_sizes[2] && bytes[at + 27] == 0
}

/// Tells whether the first node that links to the hull at `lo` gives the measures of its box.
pub(crate) fn check_hull_node(
    bytes: &[u8],
    tree: usize,
    nodes: usize,
    list: &Vec<[u32; 3]>,
    used: &Vec<u32>,
    lo: usize,
    Ghost(shared): Ghost<int>,
) -> (r: bool)
    requires
        tree + 28 * nodes <= bytes@.len(),
        list@ == file_points(bytes@, shared, list@.len() as int),
        lists_used(used@, tris_at(bytes@, lo as int)),
        forall|i: int| 0 <= i < used@.len() ==> #[trigger] used@[i] < list@.len(),
    ensures
        r == hull_node_ok(
            bytes@,
            tree as int,
            nodes as int,
            shared,
            list@.len() as int,
            lo as int,
        ),
{
    reveal(hull_node_ok);
    let total: usize = bytes.len();
    proof {
        let tris = tris_at(bytes@, lo as int);
        used_is_unique(used@, used_of(tris), tris);
    }
    match find_node_for_hull(bytes, tree, nodes, lo) {
        Some(i) => check_measures(bytes, tree + 28 * i, box_of_points(list, used)),
        None => true,
    }
}

/// Tells whether the radius of the solid at `base` is the distance of its farthest point.
fn check_reach(bytes: &[u8], base: usize, list: &Vec<[u32; 3]>, Ghost(shared): Ghost<int>) -> (r:
    bool)
    requires
        base + 80 <= bytes@.len(),
        list@ == file_points(bytes@, shared, list@.len() as int),
    ensures
        r == reach_ok(bytes@, base as int, shared, list@.len() as int),
{
    reveal(reach_ok);
    let total: usize = bytes.len();
    let c: [u32; 3] = [
        read_u32(bytes, base + 32),
        read_u32(bytes, base + 36),
        read_u32(bytes, base + 40),
    ];
    assert(c@ =~= [
        u32_at(bytes@, base + 32),
        u32_at(bytes@, base + 36),
        u32_at(bytes@, base + 40),
    ]@);
    !are_apart(read_u32(bytes, base + 56), farthest(list, c), TOLERANCE)
}

/// The first node that links to the hull at `lo`.
pub fn find_node_for_hull(bytes: &[u8], tree: usize, nodes: usize, lo: usize) -> (r: Option<usize>)
    requires
        tree + 28 * nodes <= bytes@.len(),
    ensures
        match r {
            Some(i) => {
                &&& i < nodes
                &&& first_link(bytes@, tree as int, lo as int, i as int)
                &&& forall|j: int|
                    0 <= j < nodes && #[trigger] first_link(bytes@, tree as int, lo as int, j) ==> j
                        == i
            },
            None => forall|j: int|
                0 <= j < nodes ==> !#[trigger] first_link(bytes@, tree as int, lo as int, j),
        },
{
    let total: usize = bytes.len();
    let mut i: usize = 0;
    while i < nodes
        invariant
            total == bytes@.len(),
            tree + 28 * nodes <= bytes@.len(),
            i <= nodes,
            forall|j: int|
                0 <= j < i ==> !(#[trigger] link_at(bytes@, tree as int, j) != 0 && linked(
                    bytes@,
                    tree as int,
                    j,
                ) == lo),
        decreases nodes - i,
    {
        let at: usize = tree + 28 * i;
        let link: i32 = read_i32(bytes, at + 4);
        if link != 0 && at as i128 + link as i128 == lo as i128 {
            assert(first_link(bytes@, tree as int, lo as int, i as int));
            assert forall|j: int|
                0 <= j < nodes && #[trigger] first_link(
                    bytes@,
                    tree as int,
                    lo as int,
                    j,
                ) implies j == i by {
                if j > i {
                    assert(link_at(bytes@, tree as int, i as int) != 0);
                } else if j < i {
                    assert(link_at(bytes@, tree as int, j) != 0);
                }
            }
            return Some(i);
        }
        i = i + 1;
    }
    assert forall|j: int| 0 <= j < nodes implies !#[trigger] first_link(
        bytes@,
        tree as int,
        lo as int,
        j,
    ) by {
        assert(!(link_at(bytes@, tree as int, j) != 0 && linked(bytes@, tree as int, j) == lo));
    }
    None
}

/// Tells whether all hulls keep every rule.
fn check_hulls(
    bytes: &[u8],
    region: usize,
    tree: usize,
    nodes: usize,
    shared: usize,
    points: usize,
    list: &Vec<[u32; 3]>,
    starts: &Vec<usize>,
) -> (r: bool)
    requires
        chain_ok(bytes@, region as int, tree as int, as_ints(starts@)),
        tree + 28 * nodes <= bytes@.len(),
        points <= u32::MAX,
        list@ == file_points(bytes@, shared as int, points as int),
    ensures
        r == (forall|i: int|
            0 <= i < starts@.len() ==> hull_ok(
                bytes@,
                tree as int,
                nodes as int,
                shared as int,
                points as int,
                #[trigger] as_ints(starts@)[i],
            )),
{
    let ghost s = as_ints(starts@);
    let mut i: usize = 0;
    while i < starts.len()
        invariant
            i <= starts@.len(),
            s == as_ints(starts@),
            points <= u32::MAX,
            tree + 28 * nodes <= bytes@.len(),
            list@ == file_points(bytes@, shared as int, points as int),
            chain_ok(bytes@, region as int, tree as int, s),
            forall|j: int|
                0 <= j < i ==> hull_ok(
                    bytes@,
                    tree as int,
                    nodes as int,
                    shared as int,
                    points as int,
                    #[trigger] s[j],
                ),
        decreases starts@.len() - i,
    {
        let lo: usize = starts[i];
        assert(s[i as int] == lo);
        if !check_hull_header(bytes, lo, shared) {
            return false;
        }
        let used: Vec<u32> = match check_hull_mesh(bytes, lo, points) {
            Some(used) => used,
            None => {
                return false;
            },
        };
        if !check_hull_node(bytes, tree, nodes, list, &used, lo, Ghost(shared as int)) {
            return false;
        }
        i = i + 1;
    }
    true
}

/// The parts of solid `i`, which starts at `base`, or what is wrong with it.
fn check_solid(bytes: &[u8], base: usize, i: usize) -> (r: Result<SolidSite, String>)
    requires
        base <= bytes@.len(),
    ensures
        match r {
            Ok(s) => {
                &&& solid_ok(bytes@, base as int)
                &&& s.base == base
                &&& site_fits(bytes@, s)
            },
            Err(m) => !solid_ok(bytes@, base as int) && solid_told(
                bytes@,
                base as int,
                i as int,
                m@,
            ),
        },
{
    reveal(solid_ok);
    let total: usize = bytes.len();
    let (end, tree, nodes) = match check_frame(bytes, base) {
        Some(frame) => frame,
        None => {
            return Err(tell_frame(bytes, base, i));
        },
    };
    let region: usize = base + 80;
    if !check_nodes(bytes, region, tree, nodes) {
        return Err(tell_tree(bytes, region, tree, nodes, i));
    }
    if !check_walk(bytes, region, tree, nodes) {
        return Err(tell_tree(bytes, region, tree, nodes, i));
    }
    let starts: Vec<usize> = find_hulls(bytes, region, tree, nodes);
    let shared: usize = match check_chain(bytes, region, tree, &starts) {
        Some(shared) => shared,
        None => {
            return Err(tell_chain(bytes, region, tree, &starts, i));
        },
    };
    if (tree - shared) % 16 != 0 {
        return Err(solid_says_only(i, "共享点数组不是 16 字节对齐"));
    }
    if (tree - shared) / 16 == 0 {
        return Err(solid_says_only(i, "共享点数组是空的"));
    }
    let points: usize = (tree - shared) / 16;
    let list: Vec<[u32; 3]> = read_points(bytes, shared, points);
    if !check_hulls(bytes, region, tree, nodes, shared, points, &list, &starts) {
        return Err(
            tell_hulls(bytes, region, tree, nodes, shared, points, &list, &starts, i),
        );
    }
    if nodes == 1 && read_i32(bytes, tree + 4) as i128 != region as i128 - tree as i128 {
        return Err(tell_only_link(bytes, base, tree, i));
    }
    if !check_reach(bytes, base, &list, Ghost(shared as int)) {
        reveal(reach_ok);
        return Err(tell_reach(bytes, base, &list, i, Ghost(shared as int)));
    }
    Ok(SolidSite { base, tree, nodes, end, hulls: starts, shared, points })
}

/// The letters with which the text of a solid starts.
pub open spec fn block_mark() -> Seq<u8> {
    seq![0x73u8, 0x6F, 0x6C, 0x69, 0x64, 0x20, 0x7B]
}

/// A line that starts at `p` opens the text of a solid.
pub open spec fn block_at(t: Seq<u8>, p: int) -> bool {
    &&& p == 0 || t[p - 1] == 0x0A
    &&& p + 7 <= t.len()
    &&& t.subrange(p, p + 7) == block_mark()
}

/// How many lines that start before `n` open the text of a solid.
pub open spec fn blocks(t: Seq<u8>, n: int) -> nat
    decreases n,
{
    if n <= 0 {
        0
    } else {
        blocks(t, n - 1) + if block_at(t, n - 1) {
            1nat
        } else {
            0nat
        }
    }
}

/// The text section: UTF-8 without zero bytes, one block for each of `solids` solids before
/// anything else, and a single zero byte at the end.
pub open spec fn text_ok(t: Seq<u8>, solids: int) -> bool {
    let body = t.drop_last();
    &&& t.len() > 0
    &&& t.last() == 0
    &&& forall|i: int| 0 <= i < body.len() ==> #[trigger] body[i] != 0
    &&& vstd::utf8::valid_utf8(body)
    &&& block_at(body, 0)
    &&& body.len() >= 2
    &&& body[body.len() - 2] == 0x7D
    &&& body[body.len() - 1] == 0x0A
    &&& blocks(body, body.len() as int) == solids
}

/// The header of the file is as it must be.
pub open spec fn header_ok(b: Seq<u8>) -> bool {
    b.len() >= 16 && i32_at(b, 0) == 16 && i32_at(b, 4) == 0 && i32_at(b, 8) >= 0
}

/// The file keeps every rule.
pub open spec fn phy_ok(b: Seq<u8>) -> bool {
    let count = i32_at(b, 8) as int;
    &&& header_ok(b)
    &&& forall|i: int| 0 <= i < count ==> solid_ok(b, #[trigger] solid_base(b, i))
    &&& text_ok(b.skip(solid_base(b, count)), count)
}

/// `l` gives the sizes and counts of the file.
pub open spec fn layout_fits(l: PhyLayout, b: Seq<u8>) -> bool {
    &&& l.file_size == b.len()
    &&& l.solid_count == i32_at(b, 8)
    &&& l.solids_end == solid_base(b, i32_at(b, 8) as int)
    &&& l.text_size == b.len() - l.solids_end
    &&& l.surface_sizes@.len() == l.solid_count
    &&& l.node_counts@.len() == l.solid_count
    &&& l.ledge_region_sizes@.len() == l.solid_count
    &&& forall|i: int|
        0 <= i < l.solid_count ==> {
            let base = #[trigger] solid_base(b, i);
            &&& l.surface_sizes@[i] == surface_at(b, base)
            &&& l.node_counts@[i] == nodes_at(b, base)
            &&& l.ledge_region_sizes@[i] == tree_at(b, base) - region_at(base)
        }
}

/// Tells whether a line that starts at `p` opens the text of a solid.
fn opens_block(t: &[u8], p: usize) -> (r: bool)
    requires
        p <= t@.len(),
    ensures
        r == block_at(t@, p as int),
{
    if p > 0 && t[p - 1] != 0x0A {
        return false;
    }
    if t.len() - p < 7 {
        return false;
    }
    let r: bool = t[p] == 0x73 && t[p + 1] == 0x6F && t[p + 2] == 0x6C && t[p + 3] == 0x69 && t[p
        + 4] == 0x64 && t[p + 5] == 0x20 && t[p + 6] == 0x7B;
    proof {
        let s = t@.subrange(p as int, p + 7);
        let m = block_mark();
        assert(s[0] == t@[p as int] && s[1] == t@[p + 1] && s[2] == t@[p + 2] && s[3] == t@[p + 3]
            && s[4] == t@[p + 4] && s[5] == t@[p + 5] && s[6] == t@[p + 6]);
        if r {
            assert(s =~= m);
        } else {
            assert(m[0] == 0x73 && m[1] == 0x6F && m[2] == 0x6C && m[3] == 0x69 && m[4] == 0x64
                && m[5] == 0x20 && m[6] == 0x7B);
        }
    }
    r
}

/// What is wrong with the text section, if something is.
fn check_text(t: &[u8], solids: usize) -> (r: Result<(), String>)
    ensures
        match r {
            Ok(_) => text_ok(t@, solids as int),
            Err(m) => !text_ok(t@, solids as int) && m@ == text_words(t@, solids as int),
        },
{
    if t.len() == 0 {
        return Err("没有 text section".to_owned());
    }
    if t[t.len() - 1] != 0 {
        return Err("text section 末尾不是单个 0x00".to_owned());
    }
    let n: usize = t.len() - 1;
    let body: &[u8] = vstd::slice::slice_subrange(t, 0, n);
    assert(body@ =~= t@.drop_last());
    let mut found: usize = 0;
    let mut i: usize = 0;
    while i < n
        invariant
            n == body@.len(),
            t@.len() == n + 1,
            t@.last() == 0,
            body@ == t@.drop_last(),
            i <= n,
            found <= i,
            found == blocks(body@, i as int),
            forall|j: int| 0 <= j < i ==> #[trigger] body@[j] != 0,
        decreases n - i,
    {
        if body[i] == 0 {
            assert(t@.drop_last()[i as int] == 0);
            return Err("text section 内部有 NUL 字节".to_owned());
        }
        if opens_block(body, i) {
            found = found + 1;
        }
        i = i + 1;
    }
    if let Err(e) = crate::text::utf8_text(body) {
        let mut m: String = "text section 不是 UTF-8：".to_owned();
        m.push_str(e.as_str());
        return Err(m);
    }
    if !opens_block(body, 0) {
        return Err("text section 没有以 \"solid {\" 开头".to_owned());
    }
    if !(n >= 2 && body[n - 2] == 0x7D && body[n - 1] == 0x0A) {
        return Err("text section 没有以 \"}\\n\" 结尾".to_owned());
    }
    if found != solids {
        let mut m: String = "text section 里有 ".to_owned();
        push_decimal(&mut m, found as u64);
        m.push_str(" 个 \"solid {\" 块，但 solidCount=");
        push_decimal(&mut m, solids as u64);
        return Err(m);
    }
    Ok(())
}

/// The parts of the solids of a file, if the solids keep every rule.
pub fn solid_sites(bytes: &[u8]) -> (r: Result<Vec<SolidSite>, PhyError>)
    ensures
        match r {
            Ok(sites) => {
                &&& header_ok(bytes@)
                &&& sites@.len() == i32_at(bytes@, 8)
                &&& sites_fit(bytes@, sites@)
                &&& solid_base(bytes@, sites@.len() as int) <= bytes@.len()
            },
            Err(e) => {
                &&& e matches PhyError::SelfCheck(m) && told(bytes@, m@)
                &&& !(header_ok(bytes@) && forall|i: int|
                    0 <= i < i32_at(bytes@, 8) ==> solid_ok(
                        bytes@,
                        #[trigger] solid_base(bytes@, i),
                    ))
            },
        },
{
    if bytes.len() < PHY_HEADER_SIZE || read_i32(bytes, 0) != 16 || read_i32(bytes, 4) != 0
        || read_i32(bytes, 8) < 0 {
        return Err(PhyError::SelfCheck(tell_header(bytes)));
    }
    let count: usize = read_i32(bytes, 8) as usize;
    let mut out: Vec<SolidSite> = Vec::new();
    let mut base: usize = PHY_HEADER_SIZE;
    let mut i: usize = 0;
    while i < count
        invariant
            header_ok(bytes@),
            count == i32_at(bytes@, 8),
            i <= count,
            out@.len() == i,
            base == solid_base(bytes@, i as int),
            base <= bytes@.len(),
            sites_fit(bytes@, out@),
        decreases count - i,
    {
        match check_solid(bytes, base, i) {
            Ok(site) => {
                reveal(solid_ok);
                reveal(frame_ok);
                base = site.end;
                out.push(site);
            },
            Err(m) => {
                assert(!solid_ok(bytes@, solid_base(bytes@, i as int)));
                proof {
                    assert forall|j: int| 0 <= j < i implies solid_ok(
                        bytes@,
                        #[trigger] solid_base(bytes@, j),
                    ) by {
                        assert(out@[j].base == solid_base(bytes@, j));
                    }
                }
                return Err(PhyError::SelfCheck(m));
            },
        }
        i = i + 1;
    }
    Ok(out)
}

/// Reads a file back: its layout, or an error where it breaks a rule.
pub fn check_invariants(bytes: &[u8]) -> (r: Result<PhyLayout, PhyError>)
    ensures
        match r {
            Ok(l) => phy_ok(bytes@) && layout_fits(l, bytes@),
            Err(e) => !phy_ok(bytes@) && (e matches PhyError::SelfCheck(m) && told(bytes@, m@)),
        },
{
    let sites: Vec<SolidSite> = match solid_sites(bytes) {
        Ok(sites) => sites,
        Err(e) => {
            return Err(e);
        },
    };
    let mut surface_sizes: Vec<i32> = Vec::new();
    let mut node_counts: Vec<usize> = Vec::new();
    let mut ledge_region_sizes: Vec<usize> = Vec::new();
    let mut base: usize = PHY_HEADER_SIZE;
    let mut i: usize = 0;
    while i < sites.len()
        invariant
            i <= sites@.len(),
            base == solid_base(bytes@, i as int),
            base <= bytes@.len(),
            surface_sizes@.len() == i,
            node_counts@.len() == i,
            ledge_region_sizes@.len() == i,
            sites_fit(bytes@, sites@),
            forall|j: int|
                0 <= j < i ==> {
                    let b = #[trigger] solid_base(bytes@, j);
                    &&& surface_sizes@[j] == surface_at(bytes@, b)
                    &&& node_counts@[j] == nodes_at(bytes@, b)
                    &&& ledge_region_sizes@[j] == tree_at(bytes@, b) - region_at(b)
                },
        decreases sites@.len() - i,
    {
        reveal(solid_ok);
        reveal(frame_ok);
        let s: &SolidSite = &sites[i];
        assert(solid_ok(bytes@, solid_base(bytes@, i as int)));
        surface_sizes.push((s.end - s.base - 32) as i32);
        node_counts.push(s.nodes);
        ledge_region_sizes.push(s.tree - s.base - 80);
        base = s.end;
        i = i + 1;
    }
    proof {
        assert forall|j: int| 0 <= j < i32_at(bytes@, 8) implies solid_ok(
            bytes@,
            #[trigger] solid_base(bytes@, j),
        ) by {
            assert(sites@[j].base == solid_base(bytes@, j));
        }
    }
    let text: &[u8] = vstd::slice::slice_subrange(bytes, base, bytes.len());
    assert(text@ =~= bytes@.skip(base as int));
    if let Err(m) = check_text(text, sites.len()) {
        return Err(PhyError::SelfCheck(m));
    }
    Ok(
        PhyLayout {
            file_size: bytes.len(),
            solid_count: sites.len(),
            solids_end: base,
            text_size: bytes.len() - base,
            surface_sizes,
            node_counts,
            ledge_region_sizes,
        },
    )
}

/// The sizes of a file that keeps every rule add up: each surface is its header, its hulls and
/// points, and its tree; each solid starts where the one before it ends, four bytes behind the size
/// that it gives; and the text takes the rest of the file.
pub proof fn sizes_add_up(b: Seq<u8>, l: PhyLayout)
    requires
        phy_ok(b),
        layout_fits(l, b),
    ensures
        l.solids_end + l.text_size == l.file_size,
        forall|i: int|
            0 <= i < l.solid_count ==> {
                &&& #[trigger] l.surface_sizes@[i] == 48 + l.ledge_region_sizes@[i] + 28
                    * l.node_counts@[i]
                &&& solid_base(b, i + 1) == solid_base(b, i) + i32_at(b, solid_base(b, i)) + 4
            },
{
    reveal(solid_ok);
    reveal(frame_ok);
    assert forall|i: int| 0 <= i < l.solid_count implies {
        &&& #[trigger] l.surface_sizes@[i] == 48 + l.ledge_region_sizes@[i] + 28
            * l.node_counts@[i]
        &&& solid_base(b, i + 1) == solid_base(b, i) + i32_at(b, solid_base(b, i)) + 4
    } by {
        let base = solid_base(b, i);
        assert(solid_ok(b, base));
        let d = end_at(b, base) - tree_at(b, base);
        assert(d == 28 * (d / 28)) by {
            vstd::arithmetic::div_mod::lemma_fundamental_div_mod(d, 28);
        }
    }
}

} // verus!
