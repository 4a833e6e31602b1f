//! Where the parts of a written solid stand, and what is read there.
use vstd::prelude::*;

use super::check::file_point;
use super::edges::back_edge_fits;

use super::solid::{tri_point, PreparedHull, PreparedSolid};
use super::surface::{
    client_data, edge_distance, edge_of, edge_word, hull_sound, ledge_bytes, ledge_start,
    ledges_bytes, node_bytes, node_link, nodes_bytes, points_bytes, solid_bytes, solid_sound,
    triangle_bytes, triangles_bytes, vec3_bytes, NodeGeometry, SolidGeometry,
};

use crate::bytes::{
    i16_at, i32_at, le16, le32, u16_at, u32_at, unwrap16, unwrap32, wrap32, wrapping_is_invertible,
    written_u16_reads_back, written_u32_reads_back,
};

verus! {

/// `s` stands in `b` from place `o` on.
#[verifier::opaque]
pub open spec fn stands(b: Seq<u8>, o: int, s: Seq<u8>) -> bool {
    0 <= o && o + s.len() <= b.len() && b.subrange(o, o + s.len()) == s
}

/// The two parts of what stands somewhere stand one behind the other.
pub proof fn stand_apart(b: Seq<u8>, o: int, x: Seq<u8>, y: Seq<u8>)
    requires
        stands(b, o, x + y),
    ensures
        stands(b, o, x),
        stands(b, o + x.len(), y),
{
    reveal(stands);
    let s = b.subrange(o, o + (x + y).len());
    assert(b.subrange(o, o + x.len()) =~= s.subrange(0, x.len() as int));
    assert(s.subrange(0, x.len() as int) =~= x);
    assert(b.subrange(o + x.len(), o + x.len() + y.len()) =~= s.subrange(
        x.len() as int,
        (x + y).len() as int,
    ));
    assert(s.subrange(x.len() as int, (x + y).len() as int) =~= y);
}

/// A 32-bit number is read where it stands.
pub proof fn word_stands(b: Seq<u8>, o: int, v: u32)
    requires
        stands(b, o, le32(v)),
    ensures
        u32_at(b, o) == v,
        i32_at(b, o) == unwrap32(v),
{
    reveal(stands);
    written_u32_reads_back(b, o, v);
}

/// A 16-bit number is read where it stands.
pub proof fn half_stands(b: Seq<u8>, o: int, v: u16)
    requires
        stands(b, o, le16(v)),
    ensures
        u16_at(b, o) == v,
        i16_at(b, o) == unwrap16(v),
{
    reveal(stands);
    written_u16_reads_back(b, o, v);
}

/// The size of triangles.
pub proof fn triangles_size(h: PreparedHull, n: int)
    requires
        0 <= n,
    ensures
        triangles_bytes(h, n).len() == 16 * n,
    decreases n,
{
    if n > 0 {
        triangles_size(h, n - 1);
    }
}

/// The size of hulls.
pub proof fn ledges_size(p: PreparedSolid, ledges: int, client: int, n: int)
    requires
        0 <= n <= p.hulls@.len(),
    ensures
        ledges_bytes(p, ledges, client, n).len() == ledge_start(p, n),
    decreases n,
{
    if n > 0 {
        ledges_size(p, ledges, client, n - 1);
        triangles_size(p.hulls@[n - 1], p.hulls@[n - 1].tris@.len() as int);
    }
}

/// The size of points.
pub proof fn points_size(points: Seq<[u32; 3]>, n: int)
    requires
        0 <= n,
    ensures
        points_bytes(points, n).len() == 16 * n,
    decreases n,
{
    if n > 0 {
        points_size(points, n - 1);
    }
}

/// The size of nodes.
pub proof fn nodes_size(p: PreparedSolid, g: Seq<NodeGeometry>, n: int)
    requires
        0 <= n,
    ensures
        nodes_bytes(p, g, n).len() == 28 * n,
    decreases n,
{
    if n > 0 {
        nodes_size(p, g, n - 1);
    }
}

/// The size of a solid's surface is the size that the solid gives.
pub proof fn solid_size(p: PreparedSolid, g: SolidGeometry, bone: Option<u32>)
    requires
        solid_sound(p),
    ensures
        solid_bytes(p, g, bone).len() == p.surface_size,
{
    let ledges = p.ledge_region_size - 16 * p.points@.len();
    ledges_size(p, ledges, client_data(bone), p.hulls@.len() as int);
    points_size(p.points@, p.points@.len() as int);
    nodes_size(p, g.nodes@, p.nodes@.len() as int);
}

/// Each of some hulls stands where it starts.
pub proof fn ledge_stands(
    b: Seq<u8>,
    o: int,
    p: PreparedSolid,
    ledges: int,
    client: int,
    n: int,
    h: int,
)
    requires
        stands(b, o, ledges_bytes(p, ledges, client, n)),
        0 <= h < n <= p.hulls@.len(),
    ensures
        stands(
            b,
            o + ledge_start(p, h),
            ledge_bytes(p.hulls@[h], ledges - p.hulls@[h].offset, client),
        ),
    decreases n,
{
    let before = ledges_bytes(p, ledges, client, n - 1);
    let last = ledge_bytes(p.hulls@[n - 1], ledges - p.hulls@[n - 1].offset, client);
    stand_apart(b, o, before, last);
    ledges_size(p, ledges, client, n - 1);
    if h < n - 1 {
        ledge_stands(b, o, p, ledges, client, n - 1, h);
    }
}

/// Each of some triangles stands in its place.
pub proof fn triangle_stands(b: Seq<u8>, o: int, h: PreparedHull, n: int, k: int)
    requires
        stands(b, o, triangles_bytes(h, n)),
        0 <= k < n,
    ensures
        stands(b, o + 16 * k, triangle_bytes(h, k)),
    decreases n,
{
    stand_apart(b, o, triangles_bytes(h, n - 1), triangle_bytes(h, n - 1));
    triangles_size(h, n - 1);
    if k < n - 1 {
        triangle_stands(b, o, h, n - 1, k);
    }
}

/// Each of some nodes stands in its place.
pub proof fn node_stands(b: Seq<u8>, o: int, p: PreparedSolid, g: Seq<NodeGeometry>, n: int, i: int)
    requires
        stands(b, o, nodes_bytes(p, g, n)),
        0 <= i < n,
    ensures
        stands(b, o + 28 * i, node_bytes(p, g[i], i)),
    decreases n,
{
    stand_apart(b, o, nodes_bytes(p, g, n - 1), node_bytes(p, g[n - 1], n - 1));
    nodes_size(p, g, n - 1);
    if i < n - 1 {
        node_stands(b, o, p, g, n - 1, i);
    }
}

/// What is read of a node.
pub proof fn node_reads(b: Seq<u8>, o: int, p: PreparedSolid, g: NodeGeometry, i: int)
    requires
        stands(b, o, node_bytes(p, g, i)),
    ensures
        i32_at(b, o) == p.nodes@[i].right_offset,
        i32_at(b, o + 4) == node_link(p, i) as i32,
        b[o + 27] == 0,
{
    reveal(stands);
    let r = p.nodes@[i].right_offset;
    let l = node_link(p, i) as i32;
    let tail = seq![g.box_sizes@[0], g.box_sizes@[1], g.box_sizes@[2], 0u8];
    wrapping_is_invertible(0, r, 0, 0);
    wrapping_is_invertible(0, l, 0, 0);
    stand_apart(
        b,
        o,
        le32(wrap32(r)) + le32(wrap32(l)) + vec3_bytes(g.center) + le32(g.radius),
        tail,
    );
    assert(b.subrange(o + 24, o + 28)[3] == b[o + 27]);
    stand_apart(
        b,
        o,
        le32(wrap32(r)) + le32(wrap32(l)) + vec3_bytes(g.center),
        le32(g.radius),
    );
    stand_apart(b, o, le32(wrap32(r)) + le32(wrap32(l)), vec3_bytes(g.center));
    stand_apart(b, o, le32(wrap32(r)), le32(wrap32(l)));
    word_stands(b, o, wrap32(r));
    word_stands(b, o + 4, wrap32(l));
}

/// What is read of a vector.
pub proof fn vector_reads(b: Seq<u8>, o: int, v: [u32; 3])
    requires
        stands(b, o, vec3_bytes(v)),
    ensures
        u32_at(b, o) == v@[0],
        u32_at(b, o + 4) == v@[1],
        u32_at(b, o + 8) == v@[2],
{
    stand_apart(b, o, le32(v@[0]) + le32(v@[1]), le32(v@[2]));
    stand_apart(b, o, le32(v@[0]), le32(v@[1]));
    word_stands(b, o, v@[0]);
    word_stands(b, o + 4, v@[1]);
    word_stands(b, o + 8, v@[2]);
}

/// What is read of the measures of a node.
pub proof fn measures_read(b: Seq<u8>, o: int, p: PreparedSolid, g: NodeGeometry, i: int)
    requires
        stands(b, o, node_bytes(p, g, i)),
    ensures
        u32_at(b, o + 8) == g.center@[0],
        u32_at(b, o + 12) == g.center@[1],
        u32_at(b, o + 16) == g.center@[2],
        u32_at(b, o + 20) == g.radius,
        b[o + 24] == g.box_sizes@[0],
        b[o + 25] == g.box_sizes@[1],
        b[o + 26] == g.box_sizes@[2],
{
    reveal(stands);
    let r = le32(wrap32(p.nodes@[i].right_offset));
    let l = le32(wrap32(node_link(p, i) as i32));
    let tail = seq![g.box_sizes@[0], g.box_sizes@[1], g.box_sizes@[2], 0u8];
    stand_apart(b, o, r + l + vec3_bytes(g.center) + le32(g.radius), tail);
    let t = b.subrange(o + 24, o + 28);
    assert(t[0] == b[o + 24] && t[1] == b[o + 25] && t[2] == b[o + 26]);
    stand_apart(b, o, r + l + vec3_bytes(g.center), le32(g.radius));
    stand_apart(b, o, r + l, vec3_bytes(g.center));
    vector_reads(b, o + 8, g.center);
    word_stands(b, o + 20, g.radius);
}

/// Points are read as they were written.
pub proof fn point_reads(b: Seq<u8>, o: int, points: Seq<[u32; 3]>, n: int, i: int)
    requires
        stands(b, o, points_bytes(points, n)),
        0 <= i < n,
    ensures
        file_point(b, o, i) == points[i],
    decreases n,
{
    let before = points_bytes(points, n - 1);
    let v = vec3_bytes(points[n - 1]);
    stand_apart(b, o, before + v, le32(0));
    stand_apart(b, o, before, v);
    points_size(points, n - 1);
    if i < n - 1 {
        point_reads(b, o, points, n - 1, i);
    } else {
        vector_reads(b, o + 16 * i, points[i]);
        assert(file_point(b, o, i)@ =~= points[i]@);
    }
}

/// What is read of a hull's header.
pub proof fn ledge_reads(b: Seq<u8>, o: int, h: PreparedHull, to_points: int, client: int)
    requires
        stands(b, o, ledge_bytes(h, to_points, client)),
        hull_sound(h),
        0 <= to_points <= i32::MAX,
    ensures
        i32_at(b, o) == to_points,
        u32_at(b, o + 8) == 4 + 256 * (1 + h.tris@.len() + h.used@.len()),
        i16_at(b, o + 12) == h.tris@.len(),
        i16_at(b, o + 14) == 0,
        stands(b, o + 16, triangles_bytes(h, h.tris@.len() as int)),
{
    let a = le32(to_points as u32);
    let c = le32(client as u32);
    let d = le32((4 + 256 * (1 + h.tris@.len() + h.used@.len())) as u32);
    let e = le16(h.tris@.len() as u16);
    let z = le16(0);
    stand_apart(b, o, a + c + d + e + z, triangles_bytes(h, h.tris@.len() as int));
    stand_apart(b, o, a + c + d + e, z);
    stand_apart(b, o, a + c + d, e);
    stand_apart(b, o, a + c, d);
    stand_apart(b, o, a, c);
    word_stands(b, o, to_points as u32);
    word_stands(b, o + 8, (4 + 256 * (1 + h.tris@.len() + h.used@.len())) as u32);
    half_stands(b, o + 12, h.tris@.len() as u16);
    half_stands(b, o + 14, 0);
}

/// What is read of an edge: its start, and the distance that was written.
pub proof fn edge_reads(start: int, distance: int)
    requires
        0 <= start < 65536,
        -16384 <= distance < 16384,
    ensures
        edge_word(start, distance) % 65536 == start,
        ({
            let raw = (edge_word(start, distance) / 65536) % 32768;
            (if raw >= 16384 {
                raw - 32768
            } else {
                raw as int
            }) == distance
        }),
{
    let w = if distance >= 0 {
        distance
    } else {
        distance + 32768
    };
    assert(0 <= w < 32768);
    assert(edge_word(start, distance) == start + 65536 * w);
    assert((start + 65536 * w) % 65536 == start) by (nonlinear_arith)
        requires
            0 <= start < 65536,
            0 <= w,
    ;
    assert((start + 65536 * w) / 65536 == w) by (nonlinear_arith)
        requires
            0 <= start < 65536,
            0 <= w,
    ;
}

/// What is read of a triangle.
pub proof fn triangle_reads(b: Seq<u8>, o: int, h: PreparedHull, k: int)
    requires
        stands(b, o, triangle_bytes(h, k)),
        hull_sound(h),
        0 <= k < h.tris@.len(),
    ensures
        u32_at(b, o) == k * 4097,
        u32_at(b, o + 4) == edge_of(h, k, 0),
        u32_at(b, o + 8) == edge_of(h, k, 1),
        u32_at(b, o + 12) == edge_of(h, k, 2),
{
    let a = le32((k * 4097) as u32);
    let x = le32(edge_of(h, k, 0));
    let y = le32(edge_of(h, k, 1));
    let z = le32(edge_of(h, k, 2));
    stand_apart(b, o, a + x + y, z);
    stand_apart(b, o, a + x, y);
    stand_apart(b, o, a, x);
    word_stands(b, o, (k * 4097) as u32);
    word_stands(b, o + 4, edge_of(h, k, 0));
    word_stands(b, o + 8, edge_of(h, k, 1));
    word_stands(b, o + 12, edge_of(h, k, 2));
}

/// The distance of an edge of a hull fits in 15 bits.
pub proof fn distance_fits(h: PreparedHull, k: int, i: int)
    requires
        hull_sound(h),
        0 <= k < h.tris@.len(),
        0 <= i < 3,
    ensures
        ({
            let r = h.reverse@[3 * k + i];
            let d = edge_distance(k, i, r@[0] as int, r@[1] as int);
            &&& -16384 <= d < 16384
            &&& h.tris@[k]@[i] < 65535
        }),
{
    assert(back_edge_fits(h.tris@, h.reverse@[3 * k + i], 3 * k + i));
    assert(tri_point(h.tris@, 3 * k + i) < 65535);
    assert((3 * k + i) / 3 == k && (3 * k + i) % 3 == i);
}

} // verus!
