//! What is wrong with a collision file, in words.
use vstd::prelude::*;

use super::bounds::{
    box_of_points, farthest, half_steps, middle_of, node_geometry, radius_of, reach, Bounds,
    BoundsView,
};
use super::check::{
    apart, are_apart, as_ints, at_most_zero, block_at, blocks, box_at, chain_ok, check_hull_header,
    check_hull_mesh, check_hull_node, distance_at, end_at, file_points, find_node_for_hull,
    first_link, frame_ok, header_ok, hull_end, hull_header_ok, hull_mesh_ok, hull_node_ok, hull_ok,
    hull_starts, link_at, linked, named_points, nodes_at, points_at, read_distance, read_triangles,
    region_at, right_at, solid_base, solid_ok, surface_at, tree_at, tree_inside, tree_ok, tri_at,
    triangle_at, triangles_at, tris_at, used_counts_named, used_is_unique, used_of, COLLIDE_POLY,
    RADIUS_TOLERANCE, TOLERANCE, VPHYSICS_COLLISION_VERSION, VPHYSICS_ID,
};
use super::edges::{
    edge_from, edge_to, edges_pair_up, opposite, opposite_edge_is_unique, pair_edges, repeats,
    same_edge, unmatched, Pairing,
};
use super::solid::{tri_point, used_points};
use super::surface::{edge_distance, NodeGeometry, IVP_COMPACT_SURFACE_ID};
use crate::bytes::{i16_at, i32_at, read_i16, read_i32, read_u16, read_u32, u16_at, u32_at};
use crate::plain::{plain_digits, print_plain};
use crate::single::{rank_of, INFINITE};
use crate::smd::signed_decimal;
use crate::text::{decimal, push_decimal, utf8_fault};

verus! {

/// A hexadecimal digit.
pub open spec fn hex_digit(d: int) -> char {
    if d < 10 {
        (48 + d) as char
    } else {
        (87 + d) as char
    }
}

/// The last `n` hexadecimal digits of a number.
pub open spec fn hex(v: nat, n: nat) -> Seq<char>
    decreases n,
{
    if n == 0 {
        Seq::empty()
    } else {
        hex(v / 16, (n - 1) as nat).push(hex_digit((v % 16) as int))
    }
}

/// Appends the last `n` hexadecimal digits of a number.
fn push_hex(s: &mut String, v: u32, n: u32)
    ensures
        final(s)@ == old(s)@ + hex(v as nat, n as nat),
    decreases n,
{
    if n == 0 {
        assert(s@ =~= old(s)@ + hex(v as nat, 0));
        return;
    }
    push_hex(s, v / 16, n - 1);
    let d: u8 = (v % 16) as u8;
    s.push(
        if d < 10 {
            (48 + d) as char
        } else {
            (87 + d) as char
        },
    );
    assert(s@ =~= old(s)@ + hex(v as nat, n as nat));
}

/// Appends `n` in decimal digits.
fn push_wide(s: &mut String, n: u128)
    ensures
        final(s)@ == old(s)@ + decimal(n as nat),
    decreases n,
{
    if n >= 10 {
        push_wide(s, n / 10);
    }
    s.push((48u8 + (n % 10) as u8) as char);
    assert(s@ =~= old(s)@ + decimal(n as nat));
}

/// Appends a number that may be below zero.
pub fn push_signed(s: &mut String, v: i128)
    requires
        v > i128::MIN,
    ensures
        final(s)@ == old(s)@ + signed_decimal(v as int),
{
    if v < 0 {
        s.push_str("-");
        push_wide(s, (-v) as u128);
        assert(s@ =~= old(s)@ + signed_decimal(v as int));
    } else {
        push_wide(s, v as u128);
    }
}

/// How what is wrong with solid `i` starts.
pub open spec fn of_solid(i: int) -> Seq<char> {
    "solid["@ + decimal(i as nat) + "] "@
}

/// How what is wrong with solid `i` starts.
pub fn start_solid(i: usize) -> (r: String)
    ensures
        r@ == of_solid(i as int),
{
    let mut s: String = "solid[".to_owned();
    push_decimal(&mut s, i as u64);
    s.push_str("] ");
    s
}

/// What is wrong with solid `i`: words, a number, and words.
pub open spec fn says(i: int, a: Seq<char>, v: int, b: Seq<char>) -> Seq<char> {
    of_solid(i) + a + signed_decimal(v) + b
}

/// What is wrong with solid `i`: words, a number, and words.
pub fn solid_says(i: usize, a: &str, v: i128, b: &str) -> (r: String)
    requires
        v > i128::MIN,
    ensures
        r@ == says(i as int, a@, v as int, b@),
{
    let mut s: String = start_solid(i);
    s.push_str(a);
    push_signed(&mut s, v);
    s.push_str(b);
    s
}

/// What is wrong with the header of a file.
pub open spec fn header_words(b: Seq<u8>) -> Seq<char> {
    if b.len() < 16 {
        "文件只有 "@ + decimal(b.len()) + " 字节，连 16 字节头都放不下"@
    } else if i32_at(b, 0) != 16 {
        "phyheader.size 应为 16，实际 "@ + signed_decimal(i32_at(b, 0) as int)
    } else if i32_at(b, 4) != 0 {
        "phyheader.id 应为 0，实际 "@ + signed_decimal(i32_at(b, 4) as int)
    } else {
        "phyheader.solidCount 为负："@ + signed_decimal(i32_at(b, 8) as int)
    }
}

/// Tells what is wrong with the header of a file.
pub fn tell_header(bytes: &[u8]) -> (r: String)
    ensures
        r@ == header_words(bytes@),
{
    let mut s: String = String::new();
    if bytes.len() < 16 {
        s.push_str("文件只有 ");
        push_decimal(&mut s, bytes.len() as u64);
        s.push_str(" 字节，连 16 字节头都放不下");
    } else if read_i32(bytes, 0) != 16 {
        s.push_str("phyheader.size 应为 16，实际 ");
        push_signed(&mut s, read_i32(bytes, 0) as i128);
    } else if read_i32(bytes, 4) != 0 {
        s.push_str("phyheader.id 应为 0，实际 ");
        push_signed(&mut s, read_i32(bytes, 4) as i128);
    } else {
        s.push_str("phyheader.solidCount 为负：");
        push_signed(&mut s, read_i32(bytes, 8) as i128);
    }
    assert(s@ =~= header_words(bytes@));
    s
}

/// What is wrong with solid `i`, without a number.
pub fn solid_says_only(i: usize, a: &str) -> (r: String)
    ensures
        r@ == of_solid(i as int) + a@,
{
    let mut s: String = start_solid(i);
    s.push_str(a);
    s
}

/// What is wrong with the headers of solid `i`, which starts at `base`: the first rule that is
/// broken.
pub open spec fn frame_words(b: Seq<u8>, base: int, i: int) -> Seq<char> {
    let root = i32_at(b, base + 64) as int;
    if base + 32 > b.len() {
        of_solid(i) + "的头超出文件末尾"@
    } else if u32_at(b, base + 4) != VPHYSICS_ID {
        of_solid(i) + "vphysicsID 应为 'VPHY'，实际 0x"@ + hex(u32_at(b, base + 4) as nat, 8)
    } else if u16_at(b, base + 8) != VPHYSICS_COLLISION_VERSION {
        of_solid(i) + "version 应为 0x0100，实际 0x"@ + hex(u16_at(b, base + 8) as nat, 4)
    } else if i16_at(b, base + 10) != COLLIDE_POLY {
        says(i, "modelType 应为 0，实际 "@, i16_at(b, base + 10) as int, ""@)
    } else if i32_at(b, base + 28) != 0 {
        says(i, "axisMapSize 应为 0，实际 "@, i32_at(b, base + 28) as int, ""@)
    } else if i32_at(b, base) - surface_at(b, base) != 28 {
        says(i, "size - surfaceSize 应为 28，实际 "@, i32_at(b, base) as int, " - "@)
            + signed_decimal(surface_at(b, base))
    } else if surface_at(b, base) < 76 {
        says(i, "surfaceSize 太小："@, surface_at(b, base), ""@)
    } else if end_at(b, base) > b.len() {
        says(i, "越过文件末尾（需要 "@, end_at(b, base), "，只有 "@) + decimal(b.len()) + "）"@
    } else if root < 48 {
        says(i, "offset_ledgetree_root="@, root, " 落在 surface 内部"@)
    } else if tree_at(b, base) + 28 > end_at(b, base) {
        says(i, "offset_ledgetree_root="@, root, " 让树越过 solid 末尾"@)
    } else if (end_at(b, base) - tree_at(b, base)) % 28 != 0 {
        says(i, "树区长度 "@, end_at(b, base) - tree_at(b, base), " 不是 28 的倍数"@)
    } else if root == 48 {
        of_solid(i) + "ledge 区长度为 0"@
    } else if u32_at(b, base + 60) / 256 != surface_at(b, base) {
        of_solid(i) + "IVP_Compact_Surface::byte_size != surfaceSize"@
    } else if u32_at(b, base + 60) % 256 == 0 {
        of_solid(i) + "max_factor_surface_deviation 为 0"@
    } else if u32_at(b, base + 76) != IVP_COMPACT_SURFACE_ID {
        of_solid(i) + "dummy[2] 应为 'IVPS'"@
    } else {
        of_solid(i) + "dummy[0]/dummy[1] 应为 0"@
    }
}

/// Tells what is wrong with the headers of solid `i`.
pub fn tell_frame(bytes: &[u8], base: usize, i: usize) -> (r: String)
    requires
        base <= bytes@.len(),
    ensures
        r@ == frame_words(bytes@, base as int, i as int),
{
    let total: usize = bytes.len();
    if total - base < 32 {
        return solid_says_only(i, "的头超出文件末尾");
    }
    let id: u32 = read_u32(bytes, base + 4);
    if id != VPHYSICS_ID {
        let mut s: String = solid_says_only(i, "vphysicsID 应为 'VPHY'，实际 0x");
        push_hex(&mut s, id, 8);
        return s;
    }
    let version: u16 = read_u16(bytes, base + 8);
    if version != VPHYSICS_COLLISION_VERSION {
        let mut s: String = solid_says_only(i, "version 应为 0x0100，实际 0x");
        push_hex(&mut s, version as u32, 4);
        return s;
    }
    let kind: i16 = read_i16(bytes, base + 10);
    if kind != COLLIDE_POLY {
        return solid_says(i, "modelType 应为 0，实际 ", kind as i128, "");
    }
    let axes: i32 = read_i32(bytes, base + 28);
    if axes != 0 {
        return solid_says(i, "axisMapSize 应为 0，实际 ", axes as i128, "");
    }
    let size: i128 = read_i32(bytes, base) as i128;
    let surface: i128 = read_i32(bytes, base + 12) as i128;
    if size - surface != 28 {
        let mut s: String = solid_says(i, "size - surfaceSize 应为 28，实际 ", size, " - ");
        push_signed(&mut s, surface);
        return s;
    }
    if surface < 76 {
        return solid_says(i, "surfaceSize 太小：", surface, "");
    }
    let body: usize = base + 32;
    if ((total - body) as i128) < surface {
        let mut s: String = solid_says(
            i,
            "越过文件末尾（需要 ",
            body as i128 + surface,
            "，只有 ",
        );
        push_decimal(&mut s, total as u64);
        s.push_str("）");
        return s;
    }
    let root: i128 = read_i32(bytes, body + 32) as i128;
    if root < 48 {
        return solid_says(i, "offset_ledgetree_root=", root, " 落在 surface 内部");
    }
    if root + 28 > surface {
        return solid_says(i, "offset_ledgetree_root=", root, " 让树越过 solid 末尾");
    }
    if (surface - root) % 28 != 0 {
        return solid_says(i, "树区长度 ", surface - root, " 不是 28 的倍数");
    }
    let packed: u32 = read_u32(bytes, body + 28);
    solid_says_only(
        i,
        if root == 48 {
            "ledge 区长度为 0"
        } else if packed as i128 / 256 != surface {
            "IVP_Compact_Surface::byte_size != surfaceSize"
        } else if packed % 256 == 0 {
            "max_factor_surface_deviation 为 0"
        } else if read_u32(bytes, body + 44) != IVP_COMPACT_SURFACE_ID {
            "dummy[2] 应为 'IVPS'"
        } else {
            "dummy[0]/dummy[1] 应为 0"
        },
    )
}

/// What is met first on the way through the tree, from the nodes `todo`, top first, with `left`
/// nodes that are not in `seen`: a node outside the tree, a node for the second time, a link that
/// leads outside, or nodes that are left over.
pub open spec fn walk_words(
    b: Seq<u8>,
    region: int,
    tree: int,
    nodes: int,
    todo: Seq<int>,
    seen: Set<int>,
    left: nat,
    i: int,
) -> Seq<char>
    decreases left,
{
    if todo.len() == 0 {
        says(i, "有 "@, left as int, " 个树节点没被走到"@)
    } else {
        let n = todo.last();
        let at = tree + 28 * n;
        let right = right_at(b, tree, n);
        if n < 0 || n >= nodes {
            says(i, "树节点 @"@, at, " 越界"@)
        } else if left == 0 || seen.contains(n) {
            says(i, "树里有环 @"@, at, ""@)
        } else if link_at(b, tree, n) != 0 && (linked(b, tree, n) < region || linked(b, tree, n) + 16
            > tree) {
            says(i, "hull @"@, linked(b, tree, n), " 落在 ledge 区之外"@)
        } else if right % 28 != 0 {
            says(i, "offset_right_node="@, right, " 不是 28 的倍数"@)
        } else if right != 0 && !(0 <= n + right / 28 < nodes) {
            says(i, "右子节点 @"@, at + right, " 越界"@)
        } else {
            walk_words(
                b,
                region,
                tree,
                nodes,
                if right == 0 {
                    todo.drop_last()
                } else {
                    todo.drop_last().push(n + 1).push(n + right / 28)
                },
                seen.insert(n),
                (left - 1) as nat,
                i,
            )
        }
    }
}

/// What is wrong with the tree of solid `i`.
pub open spec fn tree_words(b: Seq<u8>, region: int, tree: int, nodes: int, i: int) -> Seq<char> {
    walk_words(b, region, tree, nodes, seq![0], Set::empty(), nodes as nat, i)
}

/// Tells what is wrong with the tree of solid `i`.
#[verifier::loop_isolation(false)]
#[verifier::spinoff_prover]
#[verifier::rlimit(60)]
pub fn tell_tree(bytes: &[u8], region: usize, tree: usize, nodes: usize, i: usize) -> (r: String)
    requires
        tree_inside(bytes@, region as int, tree as int, nodes as int),
    ensures
        r@ == tree_words(bytes@, region as int, tree as int, nodes as int, i as int),
{
    let total: usize = bytes.len();
    let ghost b = bytes@;
    let mut seen: Vec<bool> = Vec::new();
    while seen.len() < nodes
        invariant
            seen@.len() <= nodes,
            forall|k: int| 0 <= k < seen@.len() ==> !(#[trigger] seen@[k]),
        decreases nodes - seen@.len(),
    {
        seen.push(false);
    }
    let mut todo: Vec<usize> = Vec::new();
    todo.push(0);
    let mut left: usize = nodes;
    let ghost mut met: Set<int> = Set::empty();
    assert(as_ints(todo@) =~= seq![0int]);
    loop
        invariant
            seen@.len() == nodes,
            left <= nodes,
            forall|k: int| 0 <= k < todo@.len() ==> (#[trigger] todo@[k]) <= nodes,
            forall|k: int| 0 <= k < nodes ==> (#[trigger] seen@[k] == met.contains(k)),
            tree_words(b, region as int, tree as int, nodes as int, i as int) == walk_words(
                b,
                region as int,
                tree as int,
                nodes as int,
                as_ints(todo@),
                met,
                left as nat,
                i as int,
            ),
        decreases left,
    {
        let ghost ints = as_ints(todo@);
        let n: usize = match todo.pop() {
            None => {
                return solid_says(i, "有 ", left as i128, " 个树节点没被走到");
            },
            Some(n) => n,
        };
        assert(n == ints.last());
        assert(as_ints(todo@) =~= ints.drop_last());
        assert(28 * n <= 28 * nodes);
        let at: usize = tree + 28 * n;
        if n >= nodes {
            return solid_says(i, "树节点 @", at as i128, " 越界");
        }
        assert(28 * (n + 1) <= 28 * nodes);
        if left == 0 || seen[n] {
            return solid_says(i, "树里有环 @", at as i128, "");
        }
        let right: i128 = read_i32(bytes, at) as i128;
        let link: i128 = read_i32(bytes, at + 4) as i128;
        let lo: i128 = at as i128 + link;
        if link != 0 && (lo < region as i128 || lo + 16 > tree as i128) {
            return solid_says(i, "hull @", lo, " 落在 ledge 区之外");
        }
        if right % 28 != 0 {
            return solid_says(i, "offset_right_node=", right, " 不是 28 的倍数");
        }
        let child: i128 = n as i128 + right / 28;
        assert(right / 28 == right_at(b, tree as int, n as int) / 28) by {
            assert(right % 28 == 0);
        }
        if right != 0 && !(0 <= child && child < nodes as i128) {
            return solid_says(i, "右子节点 @", at as i128 + right, " 越界");
        }
        seen.set(n, true);
        proof {
            met = met.insert(n as int);
        }
        let ghost rest = as_ints(todo@);
        if right != 0 {
            todo.push(n + 1);
            todo.push(child as usize);
            assert(as_ints(todo@) =~= rest.push(n + 1).push(child as int));
        }
        left = left - 1;
    }
}

/// What is wrong with the chain of the hulls of solid `i`, from the `k`-th on.
pub open spec fn chain_words(
    b: Seq<u8>,
    region: int,
    tree: int,
    starts: Seq<int>,
    k: int,
    i: int,
) -> Seq<char>
    decreases starts.len() - k,
{
    if k < 0 || k >= starts.len() {
        of_solid(i) + "没有任何 hull"@
    } else {
        let lo = starts[k];
        let cursor = if k == 0 {
            region
        } else {
            hull_end(b, starts[k - 1])
        };
        if lo != cursor {
            says(i, "ledge 有空隙：期望 "@, cursor, "，实际 "@) + decimal(lo as nat)
        } else if triangles_at(b, lo) <= 0 {
            says(i, "hull @"@, lo, " 的 n_triangles="@) + signed_decimal(triangles_at(b, lo))
        } else if hull_end(b, lo) > tree {
            says(i, "hull @"@, lo, " 的三角形越过树起点"@)
        } else {
            chain_words(b, region, tree, starts, k + 1, i)
        }
    }
}

/// Tells what is wrong with the chain of the hulls of solid `i`.
pub fn tell_chain(bytes: &[u8], region: usize, tree: usize, starts: &Vec<usize>, i: usize) -> (r:
    String)
    requires
        tree <= bytes@.len(),
        forall|k: int| 0 <= k < starts@.len() ==> (#[trigger] starts@[k]) + 16 <= tree,
    ensures
        r@ == chain_words(
            bytes@,
            region as int,
            tree as int,
            as_ints(starts@),
            0,
            i as int,
        ),
{
    let total: usize = bytes.len();
    let ghost s = as_ints(starts@);
    let mut cursor: usize = region;
    let mut k: usize = 0;
    while k < starts.len()
        invariant
            total == bytes@.len(),
            tree <= bytes@.len(),
            forall|k: int| 0 <= k < starts@.len() ==> (#[trigger] starts@[k]) + 16 <= tree,
            s == as_ints(starts@),
            k <= starts@.len(),
            cursor == if k == 0 {
                region as int
            } else {
                hull_end(bytes@, s[k - 1])
            },
            chain_words(bytes@, region as int, tree as int, s, 0, i as int) == chain_words(
                bytes@,
                region as int,
                tree as int,
                s,
                k as int,
                i as int,
            ),
        decreases starts@.len() - k,
    {
        let lo: usize = starts[k];
        assert(s[k as int] == lo);
        if lo != cursor {
            let mut m: String = solid_says(i, "ledge 有空隙：期望 ", cursor as i128, "，实际 ");
            push_decimal(&mut m, lo as u64);
            return m;
        }
        let n: i16 = read_i16(bytes, lo + 12);
        if n <= 0 {
            let mut m: String = solid_says(i, "hull @", lo as i128, " 的 n_triangles=");
            push_signed(&mut m, n as i128);
            return m;
        }
        let rest: usize = tree - lo;
        if 16 + 16 * (n as usize) > rest {
            return solid_says(i, "hull @", lo as i128, " 的三角形越过树起点");
        }
        cursor = lo + 16 + 16 * (n as usize);
        k = k + 1;
    }
    solid_says_only(i, "没有任何 hull")
}

/// What is wrong with the header of the hull at `lo` of solid `i`.
pub open spec fn hull_header_words(b: Seq<u8>, lo: int, shared: int, i: int) -> Seq<char> {
    let cpo = i32_at(b, lo) as int;
    let flags = u32_at(b, lo + 8);
    if lo + cpo != shared {
        says(i, "hull @"@, lo, " 的 c_point_offset="@) + signed_decimal(cpo) + " 指向 "@
            + signed_decimal(lo + cpo) + "，应为共享数组起点 "@ + decimal(shared as nat)
    } else if flags % 4 != 0 {
        says(i, "hull @"@, lo, " 的 has_chilren_flag != 0"@)
    } else if flags / 4 % 4 != 1 {
        says(i, "hull @"@, lo, " 的 is_compact_flag != 1"@)
    } else if flags / 16 % 16 != 0 {
        says(i, "hull @"@, lo, " 的 dummy != 0"@)
    } else {
        says(i, "hull @"@, lo, " 的 for_future_use != 0"@)
    }
}

/// Tells what is wrong with the header of the hull at `lo` of solid `i`.
pub fn tell_hull_header(bytes: &[u8], lo: usize, shared: usize, i: usize) -> (r: String)
    requires
        lo + 16 <= bytes@.len(),
    ensures
        r@ == hull_header_words(bytes@, lo as int, shared as int, i as int),
{
    let total: usize = bytes.len();
    let cpo: i128 = read_i32(bytes, lo) as i128;
    let flags: u32 = read_u32(bytes, lo + 8);
    if lo as i128 + cpo != shared as i128 {
        let mut s: String = solid_says(i, "hull @", lo as i128, " 的 c_point_offset=");
        push_signed(&mut s, cpo);
        s.push_str(" 指向 ");
        push_signed(&mut s, lo as i128 + cpo);
        s.push_str("，应为共享数组起点 ");
        push_decimal(&mut s, shared as u64);
        return s;
    }
    solid_says(
        i,
        "hull @",
        lo as i128,
        if flags % 4 != 0 {
            " 的 has_chilren_flag != 0"
        } else if flags / 4 % 4 != 1 {
            " 的 is_compact_flag != 1"
        } else if flags / 16 % 16 != 0 {
            " 的 dummy != 0"
        } else {
            " 的 for_future_use != 0"
        },
    )
}

/// The first of three points that is not there.
pub open spec fn point_missing(t: [u32; 3], points: int) -> u32 {
    if t@[0] >= points {
        t@[0]
    } else if t@[1] >= points {
        t@[1]
    } else {
        t@[2]
    }
}

/// What is wrong with the triangles of the hull at `lo` of solid `i`, from the `k`-th on.
pub open spec fn triangle_words(b: Seq<u8>, lo: int, points: int, k: int, i: int) -> Seq<char>
    decreases triangles_at(b, lo) - k,
{
    let t = tri_at(b, lo, k);
    if k < 0 || k >= triangles_at(b, lo) {
        Seq::empty()
    } else if u32_at(b, triangle_at(lo, k)) % 4096 != k {
        says(i, "hull @"@, lo, " 第 "@) + decimal(k as nat) + " 个三角形的 tri_index != "@
            + decimal(k as nat)
    } else if t@[0] >= points || t@[1] >= points || t@[2] >= points {
        says(i, "hull @"@, lo, " 引用了点 "@) + decimal(point_missing(t, points) as nat)
            + "，但共享数组只有 "@ + decimal(points as nat) + " 个点"@
    } else {
        triangle_words(b, lo, points, k + 1, i)
    }
}

/// Tells what is wrong with the triangles of the hull at `lo` of solid `i`.
pub fn tell_triangles(bytes: &[u8], lo: usize, points: usize, i: usize) -> (r: String)
    requires
        lo + 16 <= bytes@.len(),
        triangles_at(bytes@, lo as int) > 0,
        hull_end(bytes@, lo as int) <= bytes@.len(),
    ensures
        r@ == triangle_words(bytes@, lo as int, points as int, 0, i as int),
{
    let total: usize = bytes.len();
    let n: usize = read_i16(bytes, lo + 12) as usize;
    let mut k: usize = 0;
    while k < n
        invariant
            total == bytes@.len(),
            n == triangles_at(bytes@, lo as int),
            n <= 32767,
            lo + 16 + 16 * n <= bytes@.len(),
            k <= n,
            triangle_words(bytes@, lo as int, points as int, 0, i as int) == triangle_words(
                bytes@,
                lo as int,
                points as int,
                k as int,
                i as int,
            ),
        decreases n - k,
    {
        let o: usize = lo + 16 + 16 * k;
        assert(o == triangle_at(lo as int, k as int));
        if read_u32(bytes, o) % 4096 != k as u32 {
            let mut s: String = solid_says(i, "hull @", lo as i128, " 第 ");
            push_decimal(&mut s, k as u64);
            s.push_str(" 个三角形的 tri_index != ");
            push_decimal(&mut s, k as u64);
            return s;
        }
        let x: u32 = read_u32(bytes, o + 4) % 65536;
        let y: u32 = read_u32(bytes, o + 8) % 65536;
        let z: u32 = read_u32(bytes, o + 12) % 65536;
        assert(tri_at(bytes@, lo as int, k as int)@ =~= seq![x, y, z]);
        if x as usize >= points || y as usize >= points || z as usize >= points {
            let v: u32 = if x as usize >= points {
                x
            } else if y as usize >= points {
                y
            } else {
                z
            };
            let mut s: String = solid_says(i, "hull @", lo as i128, " 引用了点 ");
            push_decimal(&mut s, v as u64);
            s.push_str("，但共享数组只有 ");
            push_decimal(&mut s, points as u64);
            s.push_str(" 个点");
            return s;
        }
        k = k + 1;
    }
    let s: String = String::new();
    assert(s@ =~= Seq::empty());
    s
}

/// How many of the first `n` edges run as edge `e` does.
pub open spec fn times_met(tris: Seq<[u32; 3]>, e: int, n: int) -> nat
    decreases n,
{
    if n <= 0 {
        0
    } else {
        times_met(tris, e, n - 1) + if same_edge(tris, n - 1, e) {
            1nat
        } else {
            0nat
        }
    }
}

/// An edge in words.
pub open spec fn edge_words(tris: Seq<[u32; 3]>, lo: int, e: int, i: int) -> Seq<char> {
    says(i, "hull @"@, lo, " 有向边 "@) + decimal(edge_from(tris, e) as nat) + "->"@ + decimal(
        edge_to(tris, e) as nat,
    )
}

/// `m` tells of an edge of the hull at `lo` of solid `i` that it repeats or that none runs back.
/// Which one is told is left open where there are several.
pub open spec fn edges_told(tris: Seq<[u32; 3]>, lo: int, i: int, m: Seq<char>) -> bool {
    exists|e: int|
        0 <= e < 3 * tris.len() && {
            ||| repeats(tris, true, e) && m == #[trigger] edge_words(tris, lo, e, i) + " 出现 "@
                + decimal(times_met(tris, e, 3 * tris.len() as int)) + " 次"@
            ||| unmatched(tris, e) && m == edge_words(tris, lo, e, i) + " 没有反向边"@
        }
}

/// Tells of an edge.
fn tell_edge(t: &Vec<[u32; 3]>, lo: usize, e: usize, i: usize, repeated: bool) -> (r: String)
    requires
        e < 3 * t@.len() <= u32::MAX,
    ensures
        r@ == edge_words(t@, lo as int, e as int, i as int) + (if repeated {
            " 出现 "@ + decimal(times_met(t@, e as int, 3 * t@.len() as int)) + " 次"@
        } else {
            " 没有反向边"@
        }),
{
    let from: u32 = t[e / 3][e % 3];
    let to: u32 = t[e / 3][(e % 3 + 1) % 3];
    assert(from == edge_from(t@, e as int) && to == edge_to(t@, e as int));
    let mut s: String = solid_says(i, "hull @", lo as i128, " 有向边 ");
    push_decimal(&mut s, from as u64);
    s.push_str("->");
    push_decimal(&mut s, to as u64);
    if !repeated {
        s.push_str(" 没有反向边");
        return s;
    }
    let ghost start = s@;
    let total: usize = 3 * t.len();
    let mut met: usize = 0;
    let mut d: usize = 0;
    while d < total
        invariant
            d <= total,
            total == 3 * t@.len(),
            total <= u32::MAX,
            e < total,
            from == edge_from(t@, e as int),
            to == edge_to(t@, e as int),
            met <= d,
            met == times_met(t@, e as int, d as int),
        decreases total - d,
    {
        let a: u32 = t[d / 3][d % 3];
        let b: u32 = t[d / 3][(d % 3 + 1) % 3];
        assert(a == edge_from(t@, d as int) && b == edge_to(t@, d as int));
        if a == from && b == to {
            met = met + 1;
        }
        d = d + 1;
    }
    s.push_str(" 出现 ");
    push_decimal(&mut s, met as u64);
    s.push_str(" 次");
    assert(s@ =~= start + (" 出现 "@ + decimal(met as nat) + " 次"@));
    s
}

/// Edge `e` of the hull at `lo` gives the distance to the edge that runs back.
pub open spec fn distance_right(b: Seq<u8>, lo: int, e: int) -> bool {
    forall|d: int|
        0 <= d < 3 * triangles_at(b, lo) && #[trigger] opposite(tris_at(b, lo), d, e)
            ==> distance_at(b, lo, e) == edge_distance(e / 3, e % 3, d / 3, d % 3)
}

/// The complaint about the distance that edge `e` gives, where edge `d` runs back.
pub open spec fn distance_words(b: Seq<u8>, lo: int, d: int, e: int, i: int) -> Seq<char> {
    says(i, "hull @"@, lo, " 三角形 "@) + decimal((e / 3) as nat) + " 边 "@ + decimal(
        (e % 3) as nat,
    ) + " 的 opposite_index 应为 "@ + signed_decimal(
        edge_distance(e / 3, e % 3, d / 3, d % 3),
    ) + "，实际 "@ + signed_decimal(distance_at(b, lo, e))
}

/// The complaint about the size that the header of the hull at `lo` gives.
pub open spec fn hull_size_words(b: Seq<u8>, lo: int, i: int) -> Seq<char> {
    says(i, "hull @"@, lo, " 的 size_div_16="@) + decimal((u32_at(b, lo + 8) / 256) as nat)
        + " != 1+"@ + decimal(triangles_at(b, lo) as nat) + "+"@ + decimal(
        named_points(tris_at(b, lo)).len(),
    )
}

/// The triangles of the hull at `lo` are numbered and name existing points.
pub open spec fn triangles_right(b: Seq<u8>, lo: int, points: int) -> bool {
    let tris = tris_at(b, lo);
    &&& forall|k: int|
        0 <= k < tris.len() ==> u32_at(b, #[trigger] triangle_at(lo, k)) % 4096 == k
    &&& forall|e: int| 0 <= e < 3 * tris.len() ==> #[trigger] tri_point(tris, e) < points
}

/// `m` tells what is wrong with the mesh of the hull at `lo` of solid `i`: the first rule that is
/// broken.
pub open spec fn mesh_told(b: Seq<u8>, lo: int, points: int, i: int, m: Seq<char>) -> bool {
    let tris = tris_at(b, lo);
    if !triangles_right(b, lo, points) {
        m == triangle_words(b, lo, points, 0, i)
    } else if !edges_pair_up(tris, true) {
        edges_told(tris, lo, i, m)
    } else if exists|e: int| 0 <= e < 3 * tris.len() && !#[trigger] distance_right(b, lo, e) {
        exists|d: int, e: int|
            {
                &&& 0 <= d < 3 * tris.len()
                &&& 0 <= e < 3 * tris.len()
                &&& opposite(tris, d, e)
                &&& !distance_right(b, lo, e)
                &&& forall|c: int| 0 <= c < e ==> #[trigger] distance_right(b, lo, c)
                &&& m == #[trigger] distance_words(b, lo, d, e, i)
            }
    } else {
        m == hull_size_words(b, lo, i)
    }
}

/// Tells what is wrong with the mesh of the hull at `lo` of solid `i`.
pub fn tell_mesh(bytes: &[u8], lo: usize, points: usize, i: usize) -> (r: String)
    requires
        lo + 16 <= bytes@.len(),
        triangles_at(bytes@, lo as int) > 0,
        hull_end(bytes@, lo as int) <= bytes@.len(),
        points <= u32::MAX,
    ensures
        mesh_told(bytes@, lo as int, points as int, i as int, r@),
{
    let ghost b = bytes@;
    let ghost tris = tris_at(b, lo as int);
    let total: usize = bytes.len();
    let t: Vec<[u32; 3]> = match read_triangles(bytes, lo, points) {
        Some(t) => t,
        None => {
            return tell_triangles(bytes, lo, points, i);
        },
    };
    let back: Vec<u32> = match pair_edges(&t, true) {
        Pairing::Closed(back) => back,
        Pairing::Repeated(e) => {
            let s: String = tell_edge(&t, lo, e, i, true);
            assert(s@ =~= edge_words(tris, lo as int, e as int, i as int) + " 出现 "@ + decimal(
                times_met(tris, e as int, 3 * tris.len() as int),
            ) + " 次"@);
            assert(!edges_pair_up(tris, true));
            return s;
        },
        Pairing::Open(e) => {
            let s: String = tell_edge(&t, lo, e, i, false);
            assert(s@ == edge_words(tris, lo as int, e as int, i as int) + " 没有反向边"@);
            assert(!edges_pair_up(tris, true));
            return s;
        },
    };
    let mut e: usize = 0;
    while e < back.len()
        invariant
            b == bytes@,
            tris == tris_at(b, lo as int),
            t@ == tris,
            triangles_right(b, lo as int, points as int),
            edges_pair_up(tris, true),
            back@.len() == 3 * tris.len(),
            triangles_at(b, lo as int) > 0,
            hull_end(b, lo as int) <= b.len(),
            forall|d: int|
                0 <= d < back@.len() ==> {
                    &&& (#[trigger] back@[d]) < back@.len()
                    &&& opposite(tris, back@[d] as int, d)
                },
            e <= back@.len(),
            forall|c: int| 0 <= c < e ==> #[trigger] distance_right(b, lo as int, c),
        decreases back@.len() - e,
    {
        let d: u32 = back[e];
        assert(opposite(tris, d as int, e as int));
        let want: i32 = (4 * (d / 3) as i32 + 1 + (d % 3) as i32) - (4 * (e / 3) as i32 + 1 + (e
            % 3) as i32);
        let got: i32 = read_distance(bytes, lo, e);
        if got != want {
            let mut s: String = solid_says(i, "hull @", lo as i128, " 三角形 ");
            push_decimal(&mut s, (e / 3) as u64);
            s.push_str(" 边 ");
            push_decimal(&mut s, (e % 3) as u64);
            s.push_str(" 的 opposite_index 应为 ");
            push_signed(&mut s, want as i128);
            s.push_str("，实际 ");
            push_signed(&mut s, got as i128);
            assert(s@ == distance_words(b, lo as int, d as int, e as int, i as int));
            assert(!distance_right(b, lo as int, e as int));
            return s;
        }
        assert(distance_right(b, lo as int, e as int)) by {
            assert forall|c: int|
                0 <= c < 3 * tris.len() && #[trigger] opposite(
                    tris,
                    c,
                    e as int,
                ) implies distance_at(b, lo as int, e as int) == edge_distance(
                e as int / 3,
                e as int % 3,
                c / 3,
                c % 3,
            ) by {
                opposite_edge_is_unique(tris, true, c, d as int, e as int);
            }
        }
        e = e + 1;
    }
    let used: Vec<u32> = used_points(&t, points);
    proof {
        used_counts_named(used@, tris);
    }
    let mut s: String = solid_says(i, "hull @", lo as i128, " 的 size_div_16=");
    push_decimal(&mut s, (read_u32(bytes, lo + 8) / 256) as u64);
    s.push_str(" != 1+");
    push_decimal(&mut s, t.len() as u64);
    s.push_str("+");
    push_decimal(&mut s, used.len() as u64);
    assert(s@ == hull_size_words(b, lo as int, i as int));
    s
}

/// A number of the node of the hull at `lo` of solid `i` that is another than it must be.
pub open spec fn measure_words(i: int, lo: int, what: Seq<char>, want: u32, got: u32) -> Seq<char> {
    says(i, "hull @"@, lo, what) + plain_digits(want) + "，实际 "@ + plain_digits(got)
}

fn tell_measure(i: usize, lo: usize, what: &str, want: u32, got: u32) -> (r: String)
    ensures
        r@ == measure_words(i as int, lo as int, what@, want, got),
{
    let mut s: String = solid_says(i, "hull @", lo as i128, what);
    s.push_str(print_plain(want).as_str());
    s.push_str("，实际 ");
    s.push_str(print_plain(got).as_str());
    s
}

/// A step count of the node of the hull at `lo` of solid `i` that is another than it must be.
pub open spec fn steps_words(i: int, lo: int, what: Seq<char>, want: u8, got: u8) -> Seq<char> {
    says(i, "hull @"@, lo, what) + decimal(want as nat) + "，实际 "@ + decimal(got as nat)
}

fn tell_steps(i: usize, lo: usize, what: &str, want: u8, got: u8) -> (r: String)
    ensures
        r@ == steps_words(i as int, lo as int, what@, want, got),
{
    let mut s: String = solid_says(i, "hull @", lo as i128, what);
    push_decimal(&mut s, want as u64);
    s.push_str("，实际 ");
    push_decimal(&mut s, got as u64);
    s
}

/// What is wrong with the node at `at`, of the hull at `lo` of solid `i`, whose box is `v`: the
/// first rule that is broken.
pub open spec fn node_words(b: Seq<u8>, at: int, v: BoundsView, lo: int, i: int) -> Seq<char> {
    let radius = u32_at(b, at + 20);
    if apart(u32_at(b, at + 8), middle_of(v, 0), TOLERANCE) {
        measure_words(i, lo, " 节点的 center[0] 应为 "@, middle_of(v, 0), u32_at(b, at + 8))
    } else if apart(u32_at(b, at + 12), middle_of(v, 1), TOLERANCE) {
        measure_words(i, lo, " 节点的 center[1] 应为 "@, middle_of(v, 1), u32_at(b, at + 12))
    } else if apart(u32_at(b, at + 16), middle_of(v, 2), TOLERANCE) {
        measure_words(i, lo, " 节点的 center[2] 应为 "@, middle_of(v, 2), u32_at(b, at + 16))
    } else if apart(radius, radius_of(v), RADIUS_TOLERANCE) {
        measure_words(i, lo, " 节点的 radius 应为 "@, radius_of(v), radius)
    } else if at_most_zero(radius) {
        says(i, "hull @"@, lo, " 节点的 radius 为 0"@)
    } else if b[at + 24] != half_steps(v, 0) {
        steps_words(i, lo, " 节点的 box_sizes[0] 应为 "@, half_steps(v, 0), b[at + 24])
    } else if b[at + 25] != half_steps(v, 1) {
        steps_words(i, lo, " 节点的 box_sizes[1] 应为 "@, half_steps(v, 1), b[at + 25])
    } else if b[at + 26] != half_steps(v, 2) {
        steps_words(i, lo, " 节点的 box_sizes[2] 应为 "@, half_steps(v, 2), b[at + 26])
    } else {
        of_solid(i) + "节点的 free_0 != 0"@
    }
}

/// Tells what is wrong with the node at `at`.
fn tell_node(bytes: &[u8], at: usize, v: Bounds, lo: usize, i: usize) -> (r: String)
    requires
        at + 28 <= bytes@.len(),
    ensures
        r@ == node_words(bytes@, at as int, v@, lo as int, i as int),
{
    let total: usize = bytes.len();
    let g: NodeGeometry = node_geometry(v);
    let x: u32 = read_u32(bytes, at + 8);
    let y: u32 = read_u32(bytes, at + 12);
    let z: u32 = read_u32(bytes, at + 16);
    let radius: u32 = read_u32(bytes, at + 20);
    if are_apart(x, g.center[0], TOLERANCE) {
        tell_measure(i, lo, " 节点的 center[0] 应为 ", g.center[0], x)
    } else if are_apart(y, g.center[1], TOLERANCE) {
        tell_measure(i, lo, " 节点的 center[1] 应为 ", g.center[1], y)
    } else if are_apart(z, g.center[2], TOLERANCE) {
        tell_measure(i, lo, " 节点的 center[2] 应为 ", g.center[2], z)
    } else if are_apart(radius, g.radius, RADIUS_TOLERANCE) {
        tell_measure(i, lo, " 节点的 radius 应为 ", g.radius, radius)
    } else if radius % 0x8000_0000 <= INFINITE && rank_of(radius) <= 0 {
        solid_says(i, "hull @", lo as i128, " 节点的 radius 为 0")
    } else if bytes[at + 24] != g.box_sizes[0] {
        tell_steps(i, lo, " 节点的 box_sizes[0] 应为 ", g.box_sizes[0], bytes[at + 24])
    } else if bytes[at + 25] != g.box_sizes[1] {
        tell_steps(i, lo, " 节点的 box_sizes[1] 应为 ", g.box_sizes[1], bytes[at + 25])
    } else if bytes[at + 26] != g.box_sizes[2] {
        tell_steps(i, lo, " 节点的 box_sizes[2] 应为 ", g.box_sizes[2], bytes[at + 26])
    } else {
        solid_says_only(i, "节点的 free_0 != 0")
    }
}

/// `m` tells what is wrong with the hulls of solid `i`: with the first header that is wrong or,
/// where all are right, with the first mesh or node that is.
pub open spec fn hulls_told(
    b: Seq<u8>,
    tree: int,
    nodes: int,
    shared: int,
    points: int,
    starts: Seq<int>,
    i: int,
    m: Seq<char>,
) -> bool {
    if exists|k: int|
        0 <= k < starts.len() && !hull_header_ok(b, #[trigger] starts[k], shared) {
        exists|k: int|
            {
                &&& 0 <= k < starts.len()
                &&& !hull_header_ok(b, #[trigger] starts[k], shared)
                &&& forall|j: int| 0 <= j < k ==> hull_header_ok(b, #[trigger] starts[j], shared)
                &&& m == hull_header_words(b, starts[k], shared, i)
            }
    } else {
        exists|k: int|
            {
                &&& 0 <= k < starts.len()
                &&& forall|j: int|
                    0 <= j < k ==> hull_ok(b, tree, nodes, shared, points, #[trigger] starts[j])
                &&& !hull_ok(b, tree, nodes, shared, points, #[trigger] starts[k])
                &&& if !hull_mesh_ok(b, starts[k], points) {
                    mesh_told(b, starts[k], points, i, m)
                } else {
                    exists|n: int|
                        0 <= n < nodes && #[trigger] first_link(b, tree, starts[k], n) && m
                            == node_words(
                            b,
                            tree + 28 * n,
                            box_at(b, shared, points, starts[k]),
                            starts[k],
                            i,
                        )
                }
            }
    }
}

/// Tells what is wrong with the hulls of solid `i`.
pub fn tell_hulls(
    bytes: &[u8],
    region: usize,
    tree: usize,
    nodes: usize,
    shared: usize,
    points: usize,
    list: &Vec<[u32; 3]>,
    starts: &Vec<usize>,
    i: usize,
) -> (r: String)
    requires
        chain_ok(bytes@, region as int, tree as int, as_ints(starts@)),
        tree + 28 * nodes <= bytes@.len(),
        points <= u32::MAX,
        list@ == file_points(bytes@, shared as int, points as int),
        exists|k: int|
            0 <= k < starts@.len() && !hull_ok(
                bytes@,
                tree as int,
                nodes as int,
                shared as int,
                points as int,
                #[trigger] as_ints(starts@)[k],
            ),
    ensures
        hulls_told(
            bytes@,
            tree as int,
            nodes as int,
            shared as int,
            points as int,
            as_ints(starts@),
            i as int,
            r@,
        ),
{
    let ghost b = bytes@;
    let ghost s = as_ints(starts@);
    let mut k: usize = 0;
    while k < starts.len()
        invariant
            k <= starts@.len(),
            b == bytes@,
            s == as_ints(starts@),
            tree <= b.len(),
            chain_ok(b, region as int, tree as int, s),
            forall|j: int| 0 <= j < k ==> hull_header_ok(b, #[trigger] s[j], shared as int),
        decreases starts@.len() - k,
    {
        let lo: usize = starts[k];
        assert(s[k as int] == lo);
        if !check_hull_header(bytes, lo, shared) {
            return tell_hull_header(bytes, lo, shared, i);
        }
        k = k + 1;
    }
    let mut k: usize = 0;
    while k < starts.len()
        invariant
            k <= starts@.len(),
            b == bytes@,
            s == as_ints(starts@),
            points <= u32::MAX,
            tree + 28 * nodes <= b.len(),
            list@ == file_points(b, shared as int, points as int),
            chain_ok(b, region as int, tree as int, s),
            forall|j: int|
                0 <= j < starts@.len() ==> hull_header_ok(b, #[trigger] s[j], shared as int),
            forall|j: int|
                0 <= j < k ==> hull_ok(
                    b,
                    tree as int,
                    nodes as int,
                    shared as int,
                    points as int,
                    #[trigger] s[j],
                ),
        decreases starts@.len() - k,
    {
        let lo: usize = starts[k];
        assert(s[k as int] == lo);
        let used: Vec<u32> = match check_hull_mesh(bytes, lo, points) {
            Some(used) => used,
            None => {
                return tell_mesh(bytes, lo, points, i);
            },
        };
        if !check_hull_node(bytes, tree, nodes, list, &used, lo, Ghost(shared as int)) {
            proof {
                reveal(hull_node_ok);
                let tris = tris_at(b, lo as int);
                used_is_unique(used@, used_of(tris), tris);
            }
            let n: usize = match find_node_for_hull(bytes, tree, nodes, lo) {
                Some(n) => n,
                None => {
                    assert(false);
                    0
                },
            };
            let total: usize = bytes.len();
            assert(28 * (n + 1) <= 28 * nodes);
            return tell_node(bytes, tree + 28 * n, box_of_points(list, &used), lo, i);
        }
        k = k + 1;
    }
    assert(false);
    String::new()
}

/// The radius that the points of the solid at `base` give.
pub open spec fn reach_at(b: Seq<u8>, base: int, shared: int, points: int) -> u32 {
    reach(
        file_points(b, shared, points),
        [u32_at(b, base + 32), u32_at(b, base + 36), u32_at(b, base + 40)],
        points,
    )
}

/// `m` tells what is wrong with solid `i`, which starts at `base`: the first rule that is broken.
pub open spec fn solid_told(b: Seq<u8>, base: int, i: int, m: Seq<char>) -> bool {
    let region = region_at(base);
    let tree = tree_at(b, base);
    let nodes = nodes_at(b, base);
    let starts = hull_starts(b, tree, nodes);
    let shared = points_at(b, starts);
    let points = (tree - shared) / 16;
    if !frame_ok(b, base) {
        m == frame_words(b, base, i)
    } else if !tree_ok(b, region, tree, nodes) {
        m == tree_words(b, region, tree, nodes, i)
    } else if !chain_ok(b, region, tree, starts) {
        m == chain_words(b, region, tree, starts, 0, i)
    } else if (tree - shared) % 16 != 0 {
        m == of_solid(i) + "共享点数组不是 16 字节对齐"@
    } else if points <= 0 {
        m == of_solid(i) + "共享点数组是空的"@
    } else if exists|k: int|
        0 <= k < starts.len() && !hull_ok(b, tree, nodes, shared, points, #[trigger] starts[k]) {
        hulls_told(b, tree, nodes, shared, points, starts, i, m)
    } else if nodes == 1 && link_at(b, tree, 0) != 80 + base - tree {
        m == says(i, "单节点树的 offset_compact_ledge 应为 "@, 80 + base - tree, "，实际 "@)
            + signed_decimal(link_at(b, tree, 0))
    } else {
        m == of_solid(i) + "upper_limit_radius 应为 "@ + plain_digits(
            reach_at(b, base, shared, points),
        ) + "，实际 "@ + plain_digits(u32_at(b, base + 56))
    }
}

/// Tells what is wrong with the link of the only node of solid `i`.
pub fn tell_only_link(bytes: &[u8], base: usize, tree: usize, i: usize) -> (r: String)
    requires
        tree + 8 <= bytes@.len(),
    ensures
        r@ == says(
            i as int,
            "单节点树的 offset_compact_ledge 应为 "@,
            80 + base - tree,
            "，实际 "@,
        ) + signed_decimal(link_at(bytes@, tree as int, 0)),
{
    let total: usize = bytes.len();
    let mut s: String = solid_says(
        i,
        "单节点树的 offset_compact_ledge 应为 ",
        80 + base as i128 - tree as i128,
        "，实际 ",
    );
    push_signed(&mut s, read_i32(bytes, tree + 4) as i128);
    s
}

/// Tells what is wrong with the radius of solid `i`.
pub fn tell_reach(
    bytes: &[u8],
    base: usize,
    list: &Vec<[u32; 3]>,
    i: usize,
    Ghost(shared): Ghost<int>,
) -> (r: String)
    requires
        base + 80 <= bytes@.len(),
        list@ == file_points(bytes@, shared, list@.len() as int),
    ensures
        r@ == of_solid(i as int) + "upper_limit_radius 应为 "@ + plain_digits(
            reach_at(bytes@, base as int, shared, list@.len() as int),
        ) + "，实际 "@ + plain_digits(u32_at(bytes@, base + 56)),
{
    let total: usize = bytes.len();
    let c: [u32; 3] = [
        read_u32(bytes, base + 32),
        read_u32(bytes, base + 36),
        read_u32(bytes, base + 40),
    ];
    assert(c@ =~= [
        u32_at(bytes@, base + 32),
        u32_at(bytes@, base + 36),
        u32_at(bytes@, base + 40),
    ]@);
    let mut s: String = solid_says_only(i, "upper_limit_radius 应为 ");
    s.push_str(print_plain(farthest(list, c)).as_str());
    s.push_str("，实际 ");
    s.push_str(print_plain(read_u32(bytes, base + 56)).as_str());
    s
}

/// What is wrong with the text section `t` of a file of `solids` solids: the first rule that is
/// broken.
pub open spec fn text_words(t: Seq<u8>, solids: int) -> Seq<char> {
    let body = t.drop_last();
    if t.len() == 0 {
        "没有 text section"@
    } else if t.last() != 0 {
        "text section 末尾不是单个 0x00"@
    } else if exists|k: int| 0 <= k < body.len() && #[trigger] body[k] == 0 {
        "text section 内部有 NUL 字节"@
    } else if !vstd::utf8::valid_utf8(body) {
        "text section 不是 UTF-8："@ + utf8_fault(body)
    } else if !block_at(body, 0) {
        "text section 没有以 \"solid {\" 开头"@
    } else if !(body.len() >= 2 && body[body.len() - 2] == 0x7D && body[body.len() - 1] == 0x0A) {
        "text section 没有以 \"}\\n\" 结尾"@
    } else {
        "text section 里有 "@ + decimal(blocks(body, body.len() as int))
            + " 个 \"solid {\" 块，但 solidCount="@ + decimal(solids as nat)
    }
}

/// `m` tells what is wrong with a file: the first rule that is broken.
pub open spec fn told(b: Seq<u8>, m: Seq<char>) -> bool {
    let count = i32_at(b, 8) as int;
    if !header_ok(b) {
        m == header_words(b)
    } else if exists|i: int| 0 <= i < count && !solid_ok(b, #[trigger] solid_base(b, i)) {
        exists|i: int|
            {
                &&& 0 <= i < count
                &&& !solid_ok(b, #[trigger] solid_base(b, i))
                &&& forall|j: int| 0 <= j < i ==> solid_ok(b, #[trigger] solid_base(b, j))
                &&& solid_told(b, solid_base(b, i), i, m)
            }
    } else {
        m == text_words(b.skip(solid_base(b, count)), count)
    }
}

} // verus!
