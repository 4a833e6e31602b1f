//! Which solid moves each bone.
use std::collections::HashMap;
use vstd::prelude::*;

use super::ragdoll::{
    all_owners, group_by_bone_merged, group_of, groups, groups_have_their_own_bones, owned,
    GroupView, RagdollGroup,
};
use super::weld::{corner_of, share};
use crate::seqs::{distinct, viewed, viewing};
use crate::smd::{triangle_views, Smd, SmdTriangle, SmdView, TriangleView};

verus! {

broadcast use viewing;

/// The positions of the corners of some triangles.
pub open spec fn face_corners(t: Seq<TriangleView>, faces: Seq<u32>) -> Seq<[u32; 3]> {
    Seq::new(3 * faces.len(), |e: int| corner_of(t, 3 * faces[e / 3] + e % 3).position)
}

/// The points of some triangles, each once.
pub open spec fn group_points(t: Seq<TriangleView>, faces: Seq<u32>) -> Seq<[u32; 3]> {
    distinct(face_corners(t, faces))
}

/// The points of some triangles, each once.
pub fn list_group_points(triangles: &Vec<SmdTriangle>, faces: &Vec<u32>) -> (r: Vec<[u32; 3]>)
    requires
        3 * faces@.len() < u32::MAX,
        forall|k: int| 0 <= k < faces@.len() ==> (#[trigger] faces@[k]) < triangles@.len(),
    ensures
        r@ == group_points(triangle_views(triangles@), faces@),
{
    let ghost t = triangle_views(triangles@);
    let mut list: Vec<[u32; 3]> = Vec::new();
    let mut k: usize = 0;
    while k < faces.len()
        invariant
            k <= faces@.len(),
            t == triangle_views(triangles@),
            forall|j: int| 0 <= j < faces@.len() ==> (#[trigger] faces@[j]) < triangles@.len(),
            list@ == face_corners(t, faces@).take(3 * k),
        decreases faces@.len() - k,
    {
        let f: usize = faces[k] as usize;
        assert(t[f as int] == triangles@[f as int]@);
        assert(corner_of(t, 3 * f) == t[f as int].vertices[0]);
        assert(corner_of(t, 3 * f + 1) == t[f as int].vertices[1]);
        assert(corner_of(t, 3 * f + 2) == t[f as int].vertices[2]);
        assert((3 * k) / 3 == k && (3 * k) % 3 == 0);
        assert((3 * k + 1) / 3 == k && (3 * k + 1) % 3 == 1);
        assert((3 * k + 2) / 3 == k && (3 * k + 2) % 3 == 2);
        list.push(triangles[f].vertices[0].position);
        list.push(triangles[f].vertices[1].position);
        list.push(triangles[f].vertices[2].position);
        assert(list@ =~= face_corners(t, faces@).take(3 * k + 3));
        k = k + 1;
    }
    assert(face_corners(t, faces@).take(3 * faces@.len() as int) =~= face_corners(t, faces@));
    let (points, _) = share(&list);
    points
}

/// Whether the points of a group span a solid: there are four at least, and it is known that they
/// do.
pub open spec fn spans_solid(t: Seq<TriangleView>, g: GroupView, spans: Seq<bool>, k: int) -> bool {
    group_points(t, g.faces).len() >= 4 && k < spans.len() && spans[k]
}

/// Those of the first `n` groups that span a solid.
pub open spec fn kept(t: Seq<TriangleView>, list: Seq<GroupView>, spans: Seq<bool>, n: int) -> Seq<
    GroupView,
>
    decreases n,
{
    if n <= 0 {
        Seq::empty()
    } else if spans_solid(t, list[n - 1], spans, n - 1) {
        kept(t, list, spans, n - 1).push(list[n - 1])
    } else {
        kept(t, list, spans, n - 1)
    }
}

/// A table of bones with no solid.
pub open spec fn no_solids(n: nat) -> Seq<i32> {
    Seq::new(n, |i: int| -1i32)
}

/// A table of bones with the first `n` solids at their own bones.
pub open spec fn own_solids(list: Seq<GroupView>, count: nat, n: int) -> Seq<i32>
    decreases n,
{
    if n <= 0 {
        no_solids(count)
    } else {
        let before = own_solids(list, count, n - 1);
        if list[n - 1].bone < count {
            before.update(list[n - 1].bone as int, (n - 1) as i32)
        } else {
            before
        }
    }
}

/// The bone that bone `i` hangs from; -1 where that is not known.
pub open spec fn parent_at(parents: Seq<i32>, i: int) -> i32 {
    if 0 <= i < parents.len() {
        parents[i]
    } else {
        -1i32
    }
}

/// The solid of the nearest bone at or above `cur` that has one, within `steps` steps; the first
/// solid where there is none. A longer way goes round in a circle.
pub open spec fn solid_above(pb: Seq<i32>, parents: Seq<i32>, cur: i32, steps: nat) -> i32
    decreases steps,
{
    if cur < 0 || cur >= pb.len() || steps == 0 {
        0i32
    } else if pb[cur as int] >= 0 {
        pb[cur as int]
    } else {
        solid_above(pb, parents, parent_at(parents, cur as int), (steps - 1) as nat)
    }
}

/// A table of bones with a solid for each of the first `n`.
pub open spec fn all_solids(pb: Seq<i32>, parents: Seq<i32>, n: int) -> Seq<i32>
    decreases n,
{
    if n <= 0 {
        pb
    } else {
        let before = all_solids(pb, parents, n - 1);
        if before[n - 1] >= 0 {
            before
        } else {
            before.update(
                n - 1,
                solid_above(before, parents, parent_at(parents, n - 1), pb.len() + 1),
            )
        }
    }
}

/// The solid that moves each bone; `None` where there is no solid.
pub open spec fn bone_solids(
    m: SmdView,
    merged: Map<i32, i32>,
    spans: Seq<bool>,
    count: nat,
    parents: Seq<i32>,
) -> Option<Seq<i32>> {
    let list = groups(m, merged);
    let solids = kept(m.triangles, list, spans, list.len() as int);
    if solids.len() == 0 {
        None
    } else {
        Some(
            all_solids(
                own_solids(solids, count, solids.len() as int),
                parents,
                count as int,
            ),
        )
    }
}

/// The faces of a group are faces of the mesh.
pub proof fn owned_exist(m: SmdView, merged: Map<i32, i32>, b: i32, n: int)
    requires
        0 <= n <= m.triangles.len(),
        m.triangles.len() <= u32::MAX,
    ensures
        owned(m, merged, b, n).len() <= n,
        forall|k: int|
            0 <= k < owned(m, merged, b, n).len() ==> (#[trigger] owned(m, merged, b, n)[k]) < n,
    decreases n,
{
    if n > 0 {
        owned_exist(m, merged, b, n - 1);
    }
}

/// The places of the groups that span a solid.
fn list_kept(
    smd: &Smd,
    list: &Vec<RagdollGroup>,
    spans: &Vec<bool>,
    Ghost(merged): Ghost<Map<i32, i32>>,
) -> (r: Vec<u32>)
    requires
        3 * smd.triangles@.len() < u32::MAX,
        viewed(list@) == groups(smd@, merged),
    ensures
        ({
            let solids = kept(smd@.triangles, viewed(list@), spans@, list@.len() as int);
            &&& r@.len() == solids.len()
            &&& forall|k: int| 0 <= k < r@.len() ==> (#[trigger] r@[k]) == solids[k].bone
        }),
{
    let ghost v = viewed(list@);
    let ghost t = smd@.triangles;
    let mut out: Vec<u32> = Vec::new();
    let mut k: usize = 0;
    while k < list.len()
        invariant
            k <= list@.len(),
            v == viewed(list@),
            v == groups(smd@, merged),
            t == smd@.triangles,
            3 * smd.triangles@.len() < u32::MAX,
            out@.len() == kept(t, v, spans@, k as int).len(),
            forall|j: int|
                0 <= j < out@.len() ==> (#[trigger] out@[j]) == kept(t, v, spans@, k as int)[j].bone,
        decreases list@.len() - k,
    {
        assert(v[k as int] == list@[k as int]@);
        proof {
            let all = all_owners(smd@, merged);
            assert(v.len() == list@.len());
            assert(v.len() == all.len());
            let b = all[k as int] as i32;
            owned_exist(smd@, merged, b, t.len() as int);
            assert(v[k as int] == group_of(smd@, merged, b));
            assert(list@[k as int].faces@ == v[k as int].faces);
            assert(t.len() == smd.triangles@.len());
        }
        let points: Vec<[u32; 3]> = list_group_points(&smd.triangles, &list[k].faces);
        if points.len() >= 4 && k < spans.len() && spans[k] {
            out.push(list[k].bone);
        }
        k = k + 1;
    }
    out
}

/// The solid that moves each of `bone_count` bones: its own where it has one, else that of the
/// nearest bone above it that has one, else the first. The triangles are grouped by bone with the
/// same merges as the solids of a ragdoll, and `spans` tells of each group whether its points span a
/// solid, so that the numbers are those of the solids. Where there is no solid, there is no table.
pub fn physics_bone_table(
    smd: &Smd,
    merged: &HashMap<i32, i32>,
    spans: &Vec<bool>,
    bone_count: usize,
    bone_parents: &Vec<i32>,
) -> (r: Option<Vec<i32>>)
    requires
        smd.nodes@.len() < usize::MAX,
        3 * smd.triangles@.len() < u32::MAX,
        bone_count < usize::MAX,
    ensures
        match (r, bone_solids(smd@, merged@, spans@, bone_count as nat, bone_parents@)) {
            (Some(a), Some(b)) => a@ == b,
            (None, None) => true,
            _ => false,
        },
{
    let list: Vec<RagdollGroup> = group_by_bone_merged(smd, merged);
    let solids: Vec<u32> = list_kept(smd, &list, spans, Ghost(merged@));
    let ghost want = kept(smd@.triangles, viewed(list@), spans@, list@.len() as int);
    if solids.len() == 0 {
        return None;
    }
    let mut pb: Vec<i32> = Vec::new();
    let mut i: usize = 0;
    while i < bone_count
        invariant
            i <= bone_count,
            pb@ == no_solids(i as nat),
        decreases bone_count - i,
    {
        pb.push(-1);
        i = i + 1;
        assert(pb@ =~= no_solids(i as nat));
    }
    let mut k: usize = 0;
    while k < solids.len()
        invariant
            k <= solids@.len(),
            solids@.len() == want.len(),
            forall|j: int| 0 <= j < solids@.len() ==> (#[trigger] solids@[j]) == want[j].bone,
            pb@.len() == bone_count,
            pb@ == own_solids(want, bone_count as nat, k as int),
        decreases solids@.len() - k,
    {
        let b: usize = solids[k] as usize;
        if b < bone_count {
            pb.set(
                b,
                #[verifier::truncate]
                (k as i32),
            );
        }
        k = k + 1;
    }
    let ghost own = pb@;
    let mut i: usize = 0;
    while i < bone_count
        invariant
            i <= bone_count < usize::MAX,
            own.len() == bone_count,
            pb@.len() == bone_count,
            pb@ == all_solids(own, bone_parents@, i as int),
        decreases bone_count - i,
    {
        if pb[i] < 0 {
            let s: i32 = find_solid_above(&pb, bone_parents, i);
            pb.set(i, s);
        }
        i = i + 1;
    }
    Some(pb)
}

/// The bone that bone `i` hangs from.
fn get_parent(parents: &Vec<i32>, i: usize) -> (r: i32)
    ensures
        r == parent_at(parents@, i as int),
{
    if i < parents.len() {
        parents[i]
    } else {
        -1
    }
}

/// The solid of the nearest bone above bone `i` that has one.
fn find_solid_above(pb: &Vec<i32>, parents: &Vec<i32>, i: usize) -> (r: i32)
    requires
        i < pb@.len() < usize::MAX,
    ensures
        r == solid_above(pb@, parents@, parent_at(parents@, i as int), pb@.len() + 1),
{
    let total: usize = pb.len();
    let mut cur: i32 = get_parent(parents, i);
    let mut steps: usize = total + 1;
    while cur >= 0 && (cur as usize) < total && steps > 0
        invariant
            total == pb@.len(),
            solid_above(pb@, parents@, cur, steps as nat) == solid_above(
                pb@,
                parents@,
                parent_at(parents@, i as int),
                pb@.len() + 1,
            ),
        decreases steps,
    {
        if pb[cur as usize] >= 0 {
            return pb[cur as usize];
        }
        cur = get_parent(parents, cur as usize);
        steps = steps - 1;
    }
    0
}

/// Each bone is moved by one of the solids.
pub proof fn every_bone_has_a_solid(
    m: SmdView,
    merged: Map<i32, i32>,
    spans: Seq<bool>,
    count: nat,
    parents: Seq<i32>,
)
    requires
        groups(m, merged).len() <= i32::MAX,
    ensures
        bone_solids(m, merged, spans, count, parents) matches Some(pb) ==> {
            let list = groups(m, merged);
            let solids = kept(m.triangles, list, spans, list.len() as int);
            &&& pb.len() == count
            &&& forall|i: int| 0 <= i < count ==> 0 <= (#[trigger] pb[i]) < solids.len()
        },
{
    let list = groups(m, merged);
    let solids = kept(m.triangles, list, spans, list.len() as int);
    kept_is_less(m.triangles, list, spans, list.len() as int);
    if solids.len() > 0 {
        own_in_range(solids, count, solids.len() as int);
        let own = own_solids(solids, count, solids.len() as int);
        all_in_range(own, parents, solids.len() as int, count as int);
    }
}

proof fn kept_is_less(t: Seq<TriangleView>, list: Seq<GroupView>, spans: Seq<bool>, n: int)
    requires
        0 <= n <= list.len(),
    ensures
        kept(t, list, spans, n).len() <= n,
    decreases n,
{
    if n > 0 {
        kept_is_less(t, list, spans, n - 1);
    }
}

proof fn own_in_range(list: Seq<GroupView>, count: nat, n: int)
    requires
        0 <= n <= list.len() <= i32::MAX,
    ensures
        own_solids(list, count, n).len() == count,
        forall|i: int| 0 <= i < count ==> -1 <= (#[trigger] own_solids(list, count, n)[i]) < list.len(),
    decreases n,
{
    if n > 0 {
        own_in_range(list, count, n - 1);
    }
}

proof fn above_in_range(pb: Seq<i32>, parents: Seq<i32>, cur: i32, steps: nat, total: int)
    requires
        total > 0,
        forall|i: int| 0 <= i < pb.len() ==> (#[trigger] pb[i]) < total,
    ensures
        0 <= solid_above(pb, parents, cur, steps) < total,
    decreases steps,
{
    if !(cur < 0 || cur >= pb.len() || steps == 0) && pb[cur as int] < 0 {
        above_in_range(pb, parents, parent_at(parents, cur as int), (steps - 1) as nat, total);
    }
}

proof fn all_in_range(pb: Seq<i32>, parents: Seq<i32>, total: int, n: int)
    requires
        total > 0,
        0 <= n <= pb.len(),
        forall|i: int| 0 <= i < pb.len() ==> (#[trigger] pb[i]) < total,
    ensures
        all_solids(pb, parents, n).len() == pb.len(),
        forall|i: int| 0 <= i < pb.len() ==> (#[trigger] all_solids(pb, parents, n)[i]) < total,
        forall|i: int| 0 <= i < n ==> 0 <= (#[trigger] all_solids(pb, parents, n)[i]),
    decreases n,
{
    if n > 0 {
        all_in_range(pb, parents, total, n - 1);
        let before = all_solids(pb, parents, n - 1);
        above_in_range(before, parents, parent_at(parents, n - 1), pb.len() + 1, total);
    }
}

/// A bone with a solid of its own keeps it.
proof fn own_solids_stay(pb: Seq<i32>, parents: Seq<i32>, n: int, i: int)
    requires
        0 <= n <= pb.len(),
        0 <= i < pb.len(),
        pb[i] >= 0,
    ensures
        all_solids(pb, parents, n).len() == pb.len(),
        all_solids(pb, parents, n)[i] == pb[i],
    decreases n,
{
    if n > 0 {
        own_solids_stay(pb, parents, n - 1, i);
    }
}

/// Where no two solids have the same bone, each stands at its bone.
proof fn own_solids_stand(list: Seq<GroupView>, count: nat, n: int, k: int)
    requires
        0 <= k < n <= list.len() <= i32::MAX,
        list[k].bone < count,
        forall|i: int, j: int|
            0 <= i < j < list.len() ==> (#[trigger] list[i]).bone != (#[trigger] list[j]).bone,
    ensures
        own_solids(list, count, n).len() == count,
        own_solids(list, count, n)[list[k].bone as int] == k,
    decreases n,
{
    own_in_range(list, count, n - 1);
    if k < n - 1 {
        own_solids_stand(list, count, n - 1, k);
        assert(list[k].bone != list[n - 1].bone);
    }
}

/// Of groups that have bones of their own, those that are kept have too.
proof fn kept_have_their_own_bones(
    t: Seq<TriangleView>,
    list: Seq<GroupView>,
    spans: Seq<bool>,
    n: int,
)
    requires
        0 <= n <= list.len(),
        forall|i: int, j: int|
            0 <= i < j < list.len() ==> (#[trigger] list[i]).bone != (#[trigger] list[j]).bone,
    ensures
        forall|i: int| 0 <= i < kept(t, list, spans, n).len() ==> exists|g: int|
            0 <= g < n && list[g] == #[trigger] kept(t, list, spans, n)[i],
        forall|i: int, j: int|
            0 <= i < j < kept(t, list, spans, n).len() ==> (#[trigger] kept(
                t,
                list,
                spans,
                n,
            )[i]).bone != (#[trigger] kept(t, list, spans, n)[j]).bone,
    decreases n,
{
    if n > 0 {
        kept_have_their_own_bones(t, list, spans, n - 1);
        let before = kept(t, list, spans, n - 1);
        let after = kept(t, list, spans, n);
        assert forall|i: int| 0 <= i < after.len() implies exists|g: int|
            0 <= g < n && list[g] == #[trigger] after[i] by {
            if i < before.len() {
                assert(after[i] == before[i]);
                let g = choose|g: int| 0 <= g < n - 1 && list[g] == before[i];
                assert(list[g] == after[i]);
            } else {
                assert(list[n - 1] == after[i]);
            }
        }
        assert forall|i: int, j: int| 0 <= i < j < after.len() implies (#[trigger] after[i]).bone
            != (#[trigger] after[j]).bone by {
            assert(after[i] == before[i]);
            let g = choose|g: int| 0 <= g < n - 1 && list[g] == before[i];
            if j < before.len() {
                assert(after[j] == before[j]);
            } else {
                assert(list[g].bone != list[n - 1].bone);
            }
        }
    }
}

/// A bone that has a solid of its own is moved by it.
pub proof fn solids_move_their_own_bones(
    m: SmdView,
    merged: Map<i32, i32>,
    spans: Seq<bool>,
    count: nat,
    parents: Seq<i32>,
    k: int,
)
    requires
        groups(m, merged).len() <= i32::MAX,
        ({
            let list = groups(m, merged);
            let solids = kept(m.triangles, list, spans, list.len() as int);
            0 <= k < solids.len() && solids[k].bone < count
        }),
    ensures
        ({
            let list = groups(m, merged);
            let solids = kept(m.triangles, list, spans, list.len() as int);
            &&& bone_solids(m, merged, spans, count, parents) matches Some(pb)
            &&& pb.len() == count
            &&& pb[solids[k].bone as int] == k
        }),
{
    let list = groups(m, merged);
    let solids = kept(m.triangles, list, spans, list.len() as int);
    groups_have_their_own_bones(m, merged);
    kept_is_less(m.triangles, list, spans, list.len() as int);
    kept_have_their_own_bones(m.triangles, list, spans, list.len() as int);
    own_solids_stand(solids, count, solids.len() as int, k);
    let own = own_solids(solids, count, solids.len() as int);
    own_solids_stay(own, parents, count as int, solids[k].bone as int);
}

} // verus!
