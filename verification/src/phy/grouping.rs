//! Which points, faces and bones belong together.
use vstd::prelude::*;

use super::joints::{all_solids, group_points, kept, solid_above};
use super::parts::{agrees, below, face_marked, faces_exist, first_mark, welded_corner};
use super::pieces::{is_marking, weld_from, weld_table, welds};
use super::ragdoll::GroupView;
use super::tree::{tree, tree_size};
use crate::single::are_equal;
use crate::smd::TriangleView;

verus! {

/// The corners of a face belong to one part.
pub proof fn faces_stay_together(weld: Seq<u32>, faces: Seq<[u32; 3]>, marks: Seq<i32>, f: int)
    requires
        is_marking(weld, faces, marks),
        0 <= f < faces.len(),
    ensures
        ({
            let a = weld[faces[f]@[0] as int] as int;
            let b = weld[faces[f]@[1] as int] as int;
            let c = weld[faces[f]@[2] as int] as int;
            marks[a] == marks[b] && marks[b] == marks[c] && marks[a] <= f
        }),
{
    assert(face_marked(weld, faces, marks, f));
}

/// No face joins the points of the set to others.
pub open spec fn stands_alone(
    weld: Seq<u32>,
    faces: Seq<[u32; 3]>,
    set: spec_fn(int) -> bool,
) -> bool {
    forall|f: int|
        0 <= f < faces.len() ==> {
            let a = set(#[trigger] welded_corner(weld, faces, f, 0));
            a == set(welded_corner(weld, faces, f, 1)) && a == set(
                welded_corner(weld, faces, f, 2),
            )
        }
}

/// The face whose number a part has is a face of that part.
proof fn part_has_its_face(
    weld: Seq<u32>,
    faces: Seq<[u32; 3]>,
    marks: Seq<i32>,
    set: spec_fn(int) -> bool,
    i: int,
)
    requires
        faces_exist(weld, faces),
        faces.len() < i32::MAX,
        is_marking(weld, faces, marks),
        stands_alone(weld, faces, set),
        0 <= i < marks.len(),
        set(i),
        0 <= marks[i] <= faces.len(),
    ensures
        marks[i] < faces.len(),
        set(welded_corner(weld, faces, marks[i] as int, 0)),
{
    let id = marks[i];
    if !(id < faces.len() && set(welded_corner(weld, faces, id as int, 0))) {
        let higher = Seq::new(
            marks.len(),
            |k: int|
                if set(k) && marks[k] == id {
                    (id + 1) as i32
                } else {
                    marks[k]
                },
        );
        assert forall|k: int| 0 <= k < higher.len() implies (#[trigger] higher[k]) <= first_mark(
            weld,
            faces,
            k,
        ) by {
            assert(marks[k] <= first_mark(weld, faces, k));
        }
        assert forall|f: int| 0 <= f < faces.len() implies #[trigger] face_marked(
            weld,
            faces,
            higher,
            f,
        ) by {
            assert(face_marked(weld, faces, marks, f));
            let a = welded_corner(weld, faces, f, 0);
            assert(faces[f]@[0] < weld.len());
            assert(set(a) == set(welded_corner(weld, faces, f, 1)));
        }
        assert(agrees(weld, faces, higher));
        assert(below(higher, marks));
        assert(higher[i] <= marks[i]);
    }
}

/// Points that no chain of faces joins belong to different parts.
pub proof fn parts_are_joined_by_faces(
    weld: Seq<u32>,
    faces: Seq<[u32; 3]>,
    marks: Seq<i32>,
    set: spec_fn(int) -> bool,
    i: int,
    j: int,
)
    requires
        faces_exist(weld, faces),
        faces.len() < i32::MAX,
        is_marking(weld, faces, marks),
        stands_alone(weld, faces, set),
        0 <= i < marks.len(),
        0 <= j < marks.len(),
        set(i),
        !set(j),
        0 <= marks[i] <= faces.len(),
    ensures
        marks[i] != marks[j],
{
    if marks[i] == marks[j] {
        let rest = |k: int| !set(k);
        assert(stands_alone(weld, faces, rest)) by {
            assert forall|f: int| 0 <= f < faces.len() implies {
                let a = rest(#[trigger] welded_corner(weld, faces, f, 0));
                a == rest(welded_corner(weld, faces, f, 1)) && a == rest(
                    welded_corner(weld, faces, f, 2),
                )
            } by {
                assert(set(welded_corner(weld, faces, f, 0)) == set(
                    welded_corner(weld, faces, f, 1),
                ));
            }
        }
        part_has_its_face(weld, faces, marks, set, i);
        part_has_its_face(weld, faces, marks, rest, j);
    }
}

proof fn weld_is_first(points: Seq<[u32; 3]>, normals: Seq<[u32; 3]>, i: int, j: int)
    requires
        0 <= j <= i,
    ensures
        j <= weld_from(points, normals, i, j) <= i,
        weld_from(points, normals, i, j) < i ==> welds(
            points,
            normals,
            i,
            weld_from(points, normals, i, j),
        ),
        forall|k: int|
            j <= k < weld_from(points, normals, i, j) ==> !#[trigger] welds(points, normals, i, k),
    decreases i - j,
{
    if j < i && !welds(points, normals, i, j) {
        weld_is_first(points, normals, i, j + 1);
    }
}

/// A point is welded to the first point before it that stands in its place and looks its way, and
/// to itself where there is none.
pub proof fn points_are_welded_to_the_first(
    points: Seq<[u32; 3]>,
    normals: Seq<[u32; 3]>,
    i: int,
)
    requires
        points.len() <= u32::MAX,
        0 <= i < points.len(),
    ensures
        ({
            let w = weld_table(points, normals)[i] as int;
            &&& 0 <= w <= i
            &&& w < i ==> are_equal(points[i]@[0], points[w]@[0]) && are_equal(
                points[i]@[1],
                points[w]@[1],
            ) && are_equal(points[i]@[2], points[w]@[2])
            &&& forall|k: int| 0 <= k < w ==> !#[trigger] welds(points, normals, i, k)
            &&& w < i ==> welds(points, normals, i, w)
        }),
{
    weld_is_first(points, normals, i, 0);
}

/// The groups that span a solid are kept in order, and no others.
pub proof fn spanning_groups_are_kept(
    t: Seq<TriangleView>,
    list: Seq<GroupView>,
    spans: Seq<bool>,
    n: int,
)
    requires
        0 <= n <= list.len(),
        spans.len() == list.len(),
    ensures
        forall|i: int|
            0 <= i < n && spans[i] && group_points(t, (#[trigger] list[i]).faces).len() >= 4 ==> kept(
                t,
                list,
                spans,
                n,
            ).contains(list[i]),
        forall|g: GroupView| #[trigger]
            kept(t, list, spans, n).contains(g) ==> exists|i: int|
                0 <= i < n && #[trigger] list[i] == g && spans[i] && group_points(
                    t,
                    list[i].faces,
                ).len() >= 4,
        n > 0 && spans[n - 1] && group_points(t, list[n - 1].faces).len() >= 4 ==> kept(
            t,
            list,
            spans,
            n,
        ).last() == list[n - 1],
        kept(t, list, spans, n).len() <= n,
    decreases n,
{
    if n > 0 {
        spanning_groups_are_kept(t, list, spans, n - 1);
        let before = kept(t, list, spans, n - 1);
        let all = kept(t, list, spans, n);
        assert forall|i: int|
            0 <= i < n && spans[i] && group_points(t, (#[trigger] list[i]).faces).len()
                >= 4 implies all.contains(list[i]) by {
            if i < n - 1 {
                let k = before.index_of(list[i]);
                assert(all[k] == list[i]);
            } else {
                assert(all[before.len() as int] == list[i]);
            }
        }
        assert forall|g: GroupView| #[trigger] all.contains(g) implies exists|i: int|
            0 <= i < n && #[trigger] list[i] == g && spans[i] && group_points(
                t,
                list[i].faces,
            ).len() >= 4 by {
            let k = all.index_of(g);
            if k < before.len() {
                assert(before[k] == g);
                assert(before.contains(g));
            } else {
                assert(list[n - 1] == g);
            }
        }
    }
}

proof fn solids_stay(pb: Seq<i32>, parents: Seq<i32>, n: int, i: int)
    requires
        0 <= i < n <= pb.len(),
    ensures
        all_solids(pb, parents, n).len() == pb.len(),
        all_solids(pb, parents, n)[i] == all_solids(pb, parents, i + 1)[i],
        all_solids(pb, parents, i).len() == pb.len(),
    decreases n,
{
    lengths_stay(pb, parents, n);
    lengths_stay(pb, parents, i);
    if n > i + 1 {
        lengths_stay(pb, parents, n - 1);
        solids_stay(pb, parents, n - 1, i);
    }
}

proof fn lengths_stay(pb: Seq<i32>, parents: Seq<i32>, n: int)
    requires
        n <= pb.len(),
    ensures
        all_solids(pb, parents, n).len() == pb.len(),
    decreases n,
{
    if n > 0 {
        lengths_stay(pb, parents, n - 1);
    }
}

proof fn not_yet_changed(pb: Seq<i32>, parents: Seq<i32>, n: int, i: int)
    requires
        0 <= n <= i < pb.len(),
    ensures
        all_solids(pb, parents, n)[i] == pb[i],
        all_solids(pb, parents, n).len() == pb.len(),
    decreases n,
{
    lengths_stay(pb, parents, n);
    if n > 0 {
        lengths_stay(pb, parents, n - 1);
        not_yet_changed(pb, parents, n - 1, i);
    }
}

/// A bone with a solid of its own moves with it; a bone without one moves with what its parent moves
/// with, and one without a parent with the first solid.
pub proof fn bones_follow_their_parents(pb: Seq<i32>, parents: Seq<i32>, i: int)
    requires
        0 <= i < pb.len(),
        parents.len() == pb.len(),
        parents[i] < i,
    ensures
        ({
            let all = all_solids(pb, parents, pb.len() as int);
            &&& pb[i] >= 0 ==> all[i] == pb[i]
            &&& pb[i] < 0 && parents[i] < 0 ==> all[i] == 0
            &&& pb[i] < 0 && parents[i] >= 0 && all[parents[i] as int] >= 0 ==> all[i]
                == all[parents[i] as int]
        }),
{
    let n = pb.len() as int;
    solids_stay(pb, parents, n, i);
    not_yet_changed(pb, parents, i, i);
    let before = all_solids(pb, parents, i);
    if pb[i] < 0 && parents[i] >= 0 {
        let p = parents[i] as int;
        solids_stay(pb, parents, n, p);
        solids_stay(pb, parents, i, p);
        assert(before[p] == all_solids(pb, parents, n)[p]);
        reveal_with_fuel(solid_above, 2);
    }
}

/// Below a node of the tree, the node right behind it covers the first half of its hulls, and the
/// node that its offset leads to the second half; a node of one hull names it.
pub proof fn halves_hang_below(first: nat, count: nat)
    requires
        count >= 1,
        first + count <= usize::MAX,
        28 * (2 * count) <= i32::MAX,
    ensures
        ({
            let t = tree(first, count);
            let right = t[0].right_offset as int / 28;
            &&& t[0].first == first && t[0].count == count
            &&& count == 1 ==> t.len() == 1 && t[0].hull == Some(first as usize)
                && t[0].right_offset == 0
            &&& count > 1 ==> t[0].hull is None && t[0].right_offset % 28 == 0 && 1 < right
                < t.len() && t[1].first == first && t[1].count == count / 2 && t[right].first
                == first + count / 2 && t[right].count == count - count / 2
        }),
{
    if count > 1 {
        let mid = count / 2;
        tree_size(first, mid);
        tree_size(first + mid, (count - mid) as nat);
        let left = tree(first, mid);
        let right = tree(first + mid, (count - mid) as nat);
        let t = tree(first, count);
        assert(t[1] == left[0]);
        assert(t[(1 + left.len()) as int] == right[0]);
    }
}

} // verus!
