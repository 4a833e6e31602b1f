//! What the lines of a mesh file mean, wherever they stand in it.
use vstd::prelude::*;

use crate::single::{one_less, reading};
use crate::smd::{
    close_frame, line_words, mesh, name_in, read_line, read_lines, read_links, NodeView, ReadView,
    Section, SmdFrameView, SmdPose, TriangleView, VertexView,
};
use crate::words::{integer_reading, lines};

verus! {

/// A word that opens or closes a section, or gives the version.
pub open spec fn is_keyword(w: Seq<char>) -> bool {
    w == "version"@ || w == "nodes"@ || w == "skeleton"@ || w == "triangles"@ || w == "end"@
}

/// The corner is what the words of its line say: the bone; three numbers each for the position and
/// the normal; the first number of the place on the texture as it stands, and the second counted
/// from the other side; and up to three bones with their weights.
#[verifier::opaque]
pub open spec fn corner_says(t: Seq<Seq<char>>, v: VertexView) -> bool {
    &&& t.len() >= 12
    &&& integer_reading(t[0]) == Some(v.parent_bone)
    &&& reading(t[1]) == Some(v.position[0])
    &&& reading(t[2]) == Some(v.position[1])
    &&& reading(t[3]) == Some(v.position[2])
    &&& reading(t[4]) == Some(v.normal[0])
    &&& reading(t[5]) == Some(v.normal[1])
    &&& reading(t[6]) == Some(v.normal[2])
    &&& reading(t[7]) == Some(v.uv[0])
    &&& reading(t[8]) matches Some(b) && v.uv[1] == one_less(b)
    &&& integer_reading(t[9]) matches Some(count) && 1 <= count && v.links.len() == (if count < 3 {
        count as int
    } else {
        3
    }) && 10 + 2 * count <= t.len()
    &&& forall|i: int|
        0 <= i < v.links.len() ==> integer_reading(t[10 + 2 * i]) == Some((#[trigger] v.links[i]).bone)
            && reading(t[11 + 2 * i]) == Some(v.links[i].weight)
}

/// The words of a line make up a corner.
pub open spec fn makes_a_corner(t: Seq<Seq<char>>) -> bool {
    &&& t.len() >= 12
    &&& integer_reading(t[0]) is Some
    &&& forall|i: int| 1 <= i < 9 ==> reading(#[trigger] t[i]) is Some
    &&& integer_reading(t[9]) matches Some(count) && 1 <= count && 10 + 2 * count <= t.len() && (
    forall|i: int|
        0 <= i < count ==> integer_reading(#[trigger] t[10 + 2 * i]) is Some && reading(
            t[11 + 2 * i],
        ) is Some)
}

proof fn links_say(line: nat, t: Seq<Seq<char>>, count: int, n: int)
    requires
        0 <= n,
    ensures
        read_links(line, t, count, n) matches Ok(l) ==> l.len() == n && (n > 0 ==> 10 + 2 * n
            <= t.len()) && forall|i: int|
            0 <= i < n ==> integer_reading(t[10 + 2 * i]) == Some((#[trigger] l[i]).bone)
                && reading(t[11 + 2 * i]) == Some(l[i].weight),
        (n == 0 || 10 + 2 * n <= t.len()) && (forall|i: int|
            0 <= i < n ==> integer_reading(#[trigger] t[10 + 2 * i]) is Some && reading(
                t[11 + 2 * i],
            ) is Some) ==> read_links(line, t, count, n) is Ok,
    decreases n,
{
    if n > 0 {
        links_say(line, t, count, n - 1);
        let k = n - 1;
        assert(t[10 + 2 * k] == t[10 + 2 * (n - 1)]);
    }
}

/// A line of numbers among the triangles gives one corner, which is what its words say. It is kept
/// behind the corners before it; every third corner makes up a triangle with the two before it, of
/// the material that was named last. Nothing else changes.
pub proof fn corner_lines_give_corners(line: nat, t: Seq<Seq<char>>, r: ReadView)
    requires
        t.len() > 0,
        !is_keyword(t[0]),
        r.section == Section::Triangles,
        r.pending.len() < 3,
        reading(t[0]) is Some,
    ensures
        read_line(line, t, r) is Ok <==> makes_a_corner(t) && r.material is Some,
        read_line(line, t, r) matches Ok(q) ==> exists|v: VertexView|
            {
                &&& #[trigger] corner_says(t, v)
                &&& r.pending.len() < 2 ==> q == (ReadView { pending: r.pending.push(v), ..r })
                &&& r.pending.len() == 2 ==> q == (ReadView {
                    triangles: r.triangles.push(
                        TriangleView {
                            material: r.material->Some_0,
                            vertices: r.pending.push(v),
                        },
                    ),
                    pending: Seq::empty(),
                    ..r
                })
            },
{
    reveal(corner_says);
    if t.len() >= 12 {
        match integer_reading(t[9]) {
            Some(count) => {
                if count >= 1 {
                    links_say(line, t, count as int, count as int);
                }
            },
            None => {},
        }
    }
    match crate::smd::read_vertex(line, t, r.material) {
        Ok(v) => {
            assert(corner_says(t, v));
            assert forall|i: int| 1 <= i < 9 implies reading(#[trigger] t[i]) is Some by {
                assert(i == 1 || i == 2 || i == 3 || i == 4 || i == 5 || i == 6 || i == 7 || i == 8);
            }
            let count = integer_reading(t[9])->Some_0;
            let l = read_links(line, t, count as int, count as int)->Ok_0;
            assert forall|i: int| 0 <= i < count implies integer_reading(#[trigger] t[10 + 2 * i])
                is Some && reading(t[11 + 2 * i]) is Some by {
                assert(integer_reading(t[10 + 2 * i]) == Some(l[i].bone));
            }
            assert(makes_a_corner(t));
        },
        Err(_) => {
            if makes_a_corner(t) && r.material is Some {
                assert(reading(t[1]) is Some && reading(t[2]) is Some && reading(t[3]) is Some);
                assert(reading(t[4]) is Some && reading(t[5]) is Some && reading(t[6]) is Some);
                assert(reading(t[7]) is Some && reading(t[8]) is Some);
            }
        },
    }
}

/// A word that is no number among the triangles names the material, if no triangle is begun.
pub proof fn material_lines_name_the_material(line: nat, t: Seq<Seq<char>>, r: ReadView)
    requires
        t.len() > 0,
        !is_keyword(t[0]),
        r.section == Section::Triangles,
        reading(t[0]) is None,
    ensures
        r.pending.len() > 0 ==> read_line(line, t, r) is Err,
        r.pending.len() == 0 ==> (read_line(line, t, r) matches Ok(q) && q == (ReadView {
            material: Some(name_in(t[0])),
            ..r
        })),
{
}

/// The bone is what the words of its line say: its number, its name, and the number of the bone
/// that it hangs from.
pub open spec fn node_says(t: Seq<Seq<char>>, n: NodeView) -> bool {
    &&& t.len() >= 3
    &&& integer_reading(t[0]) == Some(n.index)
    &&& n.name == name_in(t[1])
    &&& integer_reading(t[2]) == Some(n.parent)
}

/// A line among the bones gives one bone, behind those before it.
pub proof fn node_lines_give_bones(line: nat, t: Seq<Seq<char>>, r: ReadView)
    requires
        t.len() > 0,
        !is_keyword(t[0]),
        r.section == Section::Nodes,
    ensures
        read_line(line, t, r) is Ok <==> t.len() >= 3 && integer_reading(t[0]) is Some
            && integer_reading(t[2]) is Some,
        read_line(line, t, r) matches Ok(q) ==> q.nodes.len() == r.nodes.len() + 1 && node_says(
            t,
            q.nodes.last(),
        ) && q == (ReadView { nodes: r.nodes.push(q.nodes.last()), ..r }),
{
}

/// The pose is what the words of its line say: the bone, its position and its rotation.
pub open spec fn pose_says(t: Seq<Seq<char>>, p: SmdPose) -> bool {
    &&& t.len() >= 7
    &&& integer_reading(t[0]) == Some(p.bone)
    &&& reading(t[1]) == Some(p.position[0])
    &&& reading(t[2]) == Some(p.position[1])
    &&& reading(t[3]) == Some(p.position[2])
    &&& reading(t[4]) == Some(p.rotation[0])
    &&& reading(t[5]) == Some(p.rotation[1])
    &&& reading(t[6]) == Some(p.rotation[2])
}

/// A line of numbers in the skeleton gives one pose, behind those of the frame before it.
pub proof fn pose_lines_give_poses(line: nat, t: Seq<Seq<char>>, r: ReadView)
    requires
        t.len() > 0,
        !is_keyword(t[0]),
        t[0] != "time"@,
        r.section == Section::Skeleton,
    ensures
        read_line(line, t, r) is Ok <==> t.len() >= 7 && r.frame is Some && integer_reading(t[0])
            is Some && reading(t[1]) is Some && reading(t[2]) is Some && reading(t[3]) is Some
            && reading(t[4]) is Some && reading(t[5]) is Some && reading(t[6]) is Some,
        read_line(line, t, r) matches Ok(q) ==> (r.frame matches Some(f) && (q.frame matches Some(g)
            && g.time == f.time && g.poses.len() == f.poses.len() + 1 && pose_says(t, g.poses.last())
            && g.poses == f.poses.push(g.poses.last()) && q == (ReadView { frame: Some(g), ..r }))),
{
}

/// A time in the skeleton begins a frame without poses; the frame before it is kept, behind those
/// before.
pub proof fn time_lines_begin_frames(line: nat, t: Seq<Seq<char>>, r: ReadView)
    requires
        t.len() > 0,
        t[0] == "time"@,
        r.section == Section::Skeleton,
    ensures
        read_line(line, t, r) is Ok <==> t.len() >= 2 && integer_reading(t[1]) is Some,
        read_line(line, t, r) matches Ok(q) ==> q == (ReadView {
            frames: match r.frame {
                Some(f) => r.frames.push(f),
                None => r.frames,
            },
            frame: Some(
                SmdFrameView { time: integer_reading(t[1])->Some_0, poses: Seq::empty() },
            ),
            ..r
        }),
{
    time_is_no_keyword();
}

proof fn time_is_no_keyword()
    ensures
        !is_keyword("time"@),
{
    assert("time"@.len() == 4) by {
        reveal_strlit("time");
    }
    assert("version"@.len() == 7) by {
        reveal_strlit("version");
    }
    assert("nodes"@.len() == 5) by {
        reveal_strlit("nodes");
    }
    assert("skeleton"@.len() == 8) by {
        reveal_strlit("skeleton");
    }
    assert("triangles"@.len() == 9) by {
        reveal_strlit("triangles");
    }
    assert("end"@.len() == 3) by {
        reveal_strlit("end");
    }
}

/// The section that the words so far open, before line `i`: the last of the words that open or
/// close one decides.
pub open spec fn section_before(all: Seq<Seq<char>>, i: int) -> Section
    decreases i,
{
    if i <= 0 {
        Section::Outside
    } else {
        let t = line_words(all[i - 1]);
        if t.len() == 0 {
            section_before(all, i - 1)
        } else if t[0] == "nodes"@ {
            Section::Nodes
        } else if t[0] == "skeleton"@ {
            Section::Skeleton
        } else if t[0] == "triangles"@ {
            Section::Triangles
        } else if t[0] == "end"@ {
            Section::Outside
        } else {
            section_before(all, i - 1)
        }
    }
}

/// Line `i` stands in a section, and neither opens nor closes one.
pub open spec fn stands_in(all: Seq<Seq<char>>, i: int, s: Section) -> bool {
    let t = line_words(all[i]);
    section_before(all, i) == s && t.len() > 0 && !is_keyword(t[0])
}

/// Line `i` is a line of numbers among the triangles.
pub open spec fn is_corner_line(all: Seq<Seq<char>>, i: int) -> bool {
    stands_in(all, i, Section::Triangles) && reading(line_words(all[i])[0]) is Some
}

/// How many of the first `n` lines are lines of numbers among the triangles.
pub open spec fn corner_lines(all: Seq<Seq<char>>, n: int) -> nat
    decreases n,
{
    if n <= 0 {
        0
    } else if is_corner_line(all, n - 1) {
        corner_lines(all, n - 1) + 1
    } else {
        corner_lines(all, n - 1)
    }
}

/// How many of the first `n` lines are lines among the bones.
pub open spec fn node_lines(all: Seq<Seq<char>>, n: int) -> nat
    decreases n,
{
    if n <= 0 {
        0
    } else if stands_in(all, n - 1, Section::Nodes) {
        node_lines(all, n - 1) + 1
    } else {
        node_lines(all, n - 1)
    }
}

/// Corner `c` of what was read, in the order of the lines.
spec fn corner(r: ReadView, c: int) -> VertexView {
    if c < 3 * r.triangles.len() {
        r.triangles[c / 3].vertices[c % 3]
    } else {
        r.pending[c - 3 * r.triangles.len()]
    }
}

/// What was read is what the lines say.
#[verifier::opaque]
spec fn read_says(all: Seq<Seq<char>>, n: int, r: ReadView) -> bool {
    &&& r.section == section_before(all, n)
    &&& r.pending.len() < 3
    &&& 3 * r.triangles.len() + r.pending.len() == corner_lines(all, n)
    &&& forall|c: int| 0 <= c < r.triangles.len() ==> (#[trigger] r.triangles[c]).vertices.len() == 3
    &&& r.nodes.len() == node_lines(all, n)
    &&& forall|i: int|
        0 <= i < n && #[trigger] is_corner_line(all, i) ==> corner_lines(all, i) < corner_lines(
            all,
            n,
        ) && corner_says(line_words(all[i]), corner(r, corner_lines(all, i) as int))
    &&& forall|i: int|
        0 <= i < n && #[trigger] stands_in(all, i, Section::Nodes) ==> node_lines(all, i)
            < node_lines(all, n) && node_says(
            line_words(all[i]),
            r.nodes[node_lines(all, i) as int],
        )
}

proof fn section_follows(all: Seq<Seq<char>>, n: int, r: ReadView, q: ReadView)
    requires
        n > 0,
        r.section == section_before(all, n - 1),
        read_line(n as nat, line_words(all[n - 1]), r) == Ok::<ReadView, crate::smd::SmdErrorView>(q),
    ensures
        q.section == section_before(all, n),
{
    let t = line_words(all[n - 1]);
    if t.len() > 0 {
        assert("nodes"@ != "version"@ && "skeleton"@ != "version"@ && "triangles"@ != "version"@
            && "end"@ != "version"@) by {
            time_is_no_keyword();
            assert("version"@.len() == 7) by {
                reveal_strlit("version");
            }
            assert("nodes"@.len() == 5) by {
                reveal_strlit("nodes");
            }
            assert("skeleton"@.len() == 8) by {
                reveal_strlit("skeleton");
            }
            assert("triangles"@.len() == 9) by {
                reveal_strlit("triangles");
            }
            assert("end"@.len() == 3) by {
                reveal_strlit("end");
            }
        }
    }
}

/// Lines elsewhere add no corners and no bones.
proof fn other_lines_add_nothing(line: nat, t: Seq<Seq<char>>, r: ReadView)
    requires
        t.len() == 0 || is_keyword(t[0]) || r.section == Section::Skeleton || (r.section
            == Section::Triangles && reading(t[0]) is None) || r.section == Section::Outside,
    ensures
        read_line(line, t, r) matches Ok(q) ==> q.triangles == r.triangles && q.pending == r.pending
            && q.nodes == r.nodes,
{
}

#[verifier::spinoff_prover]
proof fn lines_are_read(all: Seq<Seq<char>>, n: int)
    requires
        0 <= n <= all.len(),
    ensures
        read_lines(all, n) matches Ok(r) ==> read_says(all, n, r),
    decreases n,
{
    if n == 0 {
        reveal(read_says);
    } else {
        lines_are_read(all, n - 1);
        match read_lines(all, n - 1) {
            Err(_) => {},
            Ok(r) => {
                let t = line_words(all[n - 1]);
                match read_line(n as nat, t, r) {
                    Err(_) => {},
                    Ok(q) => {
                        one_more_line(all, n, r, q);
                    },
                }
            },
        }
    }
}

#[verifier::spinoff_prover]
proof fn one_more_line(all: Seq<Seq<char>>, n: int, r: ReadView, q: ReadView)
    requires
        0 < n <= all.len(),
        read_says(all, n - 1, r),
        read_line(n as nat, line_words(all[n - 1]), r) == Ok::<ReadView, crate::smd::SmdErrorView>(q),
    ensures
        read_says(all, n, q),
{
    let t = line_words(all[n - 1]);
    reveal(read_says);
    section_follows(all, n, r, q);
    if is_corner_line(all, n - 1) {
        corner_lines_give_corners(n as nat, t, r);
        let v = choose|v: VertexView|
            {
                &&& #[trigger] corner_says(t, v)
                &&& r.pending.len() < 2 ==> q == (ReadView { pending: r.pending.push(v), ..r })
                &&& r.pending.len() == 2 ==> q == (ReadView {
                    triangles: r.triangles.push(
                        TriangleView {
                            material: r.material->Some_0,
                            vertices: r.pending.push(v),
                        },
                    ),
                    pending: Seq::empty(),
                    ..r
                })
            };
        let last = corner_lines(all, n - 1) as int;
        assert(corner(q, last) == v);
        assert forall|c: int| 0 <= c < last implies corner(q, c) == corner(r, c) by {
            if c >= 3 * r.triangles.len() && r.pending.len() == 2 {
                assert(c / 3 == r.triangles.len());
                assert(c % 3 == c - 3 * r.triangles.len());
            }
        }
    } else if stands_in(all, n - 1, Section::Nodes) {
        node_lines_give_bones(n as nat, t, r);
        assert(!is_corner_line(all, n - 1));
    } else {
        other_lines_add_nothing(n as nat, t, r);
    }
}

/// Every line of numbers among the triangles is a corner of the mesh, in the order of the lines,
/// three to a triangle; and every line among the bones is a bone, in the order of the lines. Each is
/// what the words of its line say, and there are no others.
pub proof fn meshes_are_what_their_lines_say(text: Seq<char>)
    ensures
        mesh(text) matches Ok(m) ==> {
            let all = lines(text);
            &&& 3 * m.triangles.len() == corner_lines(all, all.len() as int)
            &&& m.nodes.len() == node_lines(all, all.len() as int)
            &&& forall|i: int|
                0 <= i < all.len() && #[trigger] is_corner_line(all, i) ==> {
                    let c = corner_lines(all, i) as int;
                    &&& c < 3 * m.triangles.len()
                    &&& corner_says(line_words(all[i]), m.triangles[c / 3].vertices[c % 3])
                }
            &&& forall|i: int|
                0 <= i < all.len() && #[trigger] stands_in(all, i, Section::Nodes) ==> {
                    &&& node_lines(all, i) < m.nodes.len()
                    &&& node_says(line_words(all[i]), m.nodes[node_lines(all, i) as int])
                }
        },
{
    let all = lines(text);
    lines_are_read(all, all.len() as int);
    reveal(read_says);
}

/// Line `i` begins a frame.
pub open spec fn is_time_line(all: Seq<Seq<char>>, i: int) -> bool {
    stands_in(all, i, Section::Skeleton) && line_words(all[i])[0] == "time"@
}

/// Line `i` gives a pose.
pub open spec fn is_pose_line(all: Seq<Seq<char>>, i: int) -> bool {
    stands_in(all, i, Section::Skeleton) && line_words(all[i])[0] != "time"@
}

/// How many of the first `n` lines begin a frame.
pub open spec fn time_lines(all: Seq<Seq<char>>, n: int) -> nat
    decreases n,
{
    if n <= 0 {
        0
    } else if is_time_line(all, n - 1) {
        time_lines(all, n - 1) + 1
    } else {
        time_lines(all, n - 1)
    }
}

/// How many of the first `n` lines give a pose of the frame that was begun last.
pub open spec fn poses_since(all: Seq<Seq<char>>, n: int) -> nat
    decreases n,
{
    if n <= 0 || is_time_line(all, n - 1) {
        0
    } else if is_pose_line(all, n - 1) {
        poses_since(all, n - 1) + 1
    } else {
        poses_since(all, n - 1)
    }
}

/// The frames that are complete, and the one that is being read.
spec fn all_frames(r: ReadView) -> Seq<SmdFrameView> {
    match r.frame {
        Some(f) => r.frames.push(f),
        None => r.frames,
    }
}

/// The frames that were read are what the lines say.
#[verifier::opaque]
spec fn frames_say(all: Seq<Seq<char>>, n: int, r: ReadView) -> bool {
    let f = all_frames(r);
    &&& r.section == section_before(all, n)
    &&& f.len() == time_lines(all, n)
    &&& r.frame matches Some(g) ==> g.poses.len() == poses_since(all, n)
    &&& forall|i: int|
        0 <= i < n && #[trigger] is_time_line(all, i) ==> time_lines(all, i) < f.len()
            && integer_reading(line_words(all[i])[1]) == Some(f[time_lines(all, i) as int].time)
    &&& forall|i: int|
        0 <= i < n && #[trigger] is_pose_line(all, i) ==> {
            let k = time_lines(all, i) - 1;
            &&& 0 <= k < f.len()
            &&& poses_since(all, i) < f[k].poses.len()
            &&& pose_says(line_words(all[i]), f[k].poses[poses_since(all, i) as int])
        }
}

/// Lines elsewhere change no frame.
proof fn other_lines_change_no_frame(line: nat, t: Seq<Seq<char>>, r: ReadView)
    requires
        t.len() == 0 || is_keyword(t[0]) || r.section != Section::Skeleton,
    ensures
        read_line(line, t, r) matches Ok(q) ==> all_frames(q) == all_frames(r) && (q.frame is Some
            ==> q.frame == r.frame),
{
    match read_line(line, t, r) {
        Ok(q) => {
            assert(all_frames(q) =~= all_frames(r));
        },
        Err(_) => {},
    }
}

#[verifier::spinoff_prover]
proof fn one_more_line_of_frames(all: Seq<Seq<char>>, n: int, r: ReadView, q: ReadView)
    requires
        0 < n <= all.len(),
        frames_say(all, n - 1, r),
        read_line(n as nat, line_words(all[n - 1]), r) == Ok::<ReadView, crate::smd::SmdErrorView>(q),
    ensures
        frames_say(all, n, q),
{
    let t = line_words(all[n - 1]);
    reveal(frames_say);
    section_follows(all, n, r, q);
    let f = all_frames(r);
    let g = all_frames(q);
    if is_time_line(all, n - 1) {
        time_lines_begin_frames(n as nat, t, r);
        assert(g.len() == f.len() + 1);
        assert forall|k: int| 0 <= k < f.len() implies #[trigger] g[k] == f[k] by {}
    } else if is_pose_line(all, n - 1) {
        pose_lines_give_poses(n as nat, t, r);
        let last = f.len() - 1;
        assert forall|k: int| 0 <= k < last implies #[trigger] g[k] == f[k] by {}
        assert(g[last].time == f[last].time);
        assert forall|k: int| 0 <= k < f[last].poses.len() implies g[last].poses[k]
            == f[last].poses[k] by {}
    } else {
        other_lines_change_no_frame(n as nat, t, r);
    }
}

proof fn frames_are_read(all: Seq<Seq<char>>, n: int)
    requires
        0 <= n <= all.len(),
    ensures
        read_lines(all, n) matches Ok(r) ==> frames_say(all, n, r),
    decreases n,
{
    if n == 0 {
        reveal(frames_say);
    } else {
        frames_are_read(all, n - 1);
        match read_lines(all, n - 1) {
            Err(_) => {},
            Ok(r) => {
                match read_line(n as nat, line_words(all[n - 1]), r) {
                    Err(_) => {},
                    Ok(q) => {
                        one_more_line_of_frames(all, n, r, q);
                    },
                }
            },
        }
    }
}

/// Every time in the skeleton is a frame of the mesh, and every line of numbers behind it a pose of
/// that frame, in the order of the lines; each is what its words say.
pub proof fn frames_are_what_their_lines_say(text: Seq<char>)
    ensures
        mesh(text) matches Ok(m) ==> {
            let all = lines(text);
            &&& m.frames.len() == time_lines(all, all.len() as int)
            &&& forall|i: int|
                0 <= i < all.len() && #[trigger] is_time_line(all, i) ==> time_lines(all, i)
                    < m.frames.len() && integer_reading(line_words(all[i])[1]) == Some(
                    m.frames[time_lines(all, i) as int].time,
                )
            &&& forall|i: int|
                0 <= i < all.len() && #[trigger] is_pose_line(all, i) ==> {
                    let k = time_lines(all, i) - 1;
                    &&& 0 <= k < m.frames.len()
                    &&& poses_since(all, i) < m.frames[k].poses.len()
                    &&& pose_says(
                        line_words(all[i]),
                        m.frames[k].poses[poses_since(all, i) as int],
                    )
                }
        },
{
    let all = lines(text);
    frames_are_read(all, all.len() as int);
    reveal(frames_say);
    match read_lines(all, all.len() as int) {
        Ok(r) => {
            assert(close_frame(r).frames =~= all_frames(r));
        },
        Err(_) => {},
    }
}

} // verus!
