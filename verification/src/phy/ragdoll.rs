//! Ragdolls: the triangles of a collision mesh, by bone.
use std::collections::HashMap;
use vstd::prelude::*;

use super::pose::{find_node_with, node_with};
use super::weld::corner_of;
use crate::seqs::{increasing, insert_sorted, insert_sorted_keeps_order, viewed, viewed_if, viewing};
use crate::smd::{node_views, signed_decimal, signed_text, NodeView, Smd, SmdNode, SmdView};

verus! {

broadcast use {vstd::std_specs::hash::group_hash_axioms, viewing};

/// The triangles of a bone.
#[derive(Debug, Clone, PartialEq)]
pub struct RagdollGroup {
    /// The index of the bone.
    pub bone: u32,
    /// The name of the bone.
    pub name: String,
    /// The name of the nearest bone above it that has triangles too.
    pub parent: Option<String>,
    /// The triangles.
    pub faces: Vec<u32>,
}

/// The triangles of a bone as a mathematical value.
#[verifier::ext_equal]
pub struct GroupView {
    /// The index of the bone.
    pub bone: u32,
    /// The name of the bone.
    pub name: Seq<char>,
    /// The name of the nearest bone above it that has triangles too.
    pub parent: Option<Seq<char>>,
    /// The triangles.
    pub faces: Seq<u32>,
}

impl View for RagdollGroup {
    type V = GroupView;

    open spec fn view(&self) -> GroupView {
        GroupView {
            bone: self.bone,
            name: self.name@,
            parent: viewed_if(self.parent),
            faces: self.faces@,
        }
    }
}

/// Whether following the merges from `cur` for at most `steps` steps leads to `target`.
pub open spec fn leads_to(merged: Map<i32, i32>, cur: i32, target: i32, steps: nat) -> bool
    decreases steps,
{
    if cur == target {
        true
    } else if merged.contains_key(cur) && merged[cur] != cur && steps > 0 {
        leads_to(merged, merged[cur], target, (steps - 1) as nat)
    } else {
        false
    }
}

/// Tells whether merging `child` into `parent` would close a circle: whether the merges so far lead
/// from `parent` to `child`. After more than `limit` steps they are given up.
pub fn would_cycle(merged: &HashMap<i32, i32>, parent: i32, child: i32, limit: usize) -> (r: bool)
    ensures
        r == leads_to(merged@, parent, child, limit as nat + 1),
{
    let mut cur: i32 = parent;
    let mut left: usize = limit;
    let mut last: bool = false;
    loop
        invariant
            leads_to(
                merged@,
                cur,
                child,
                if last {
                    0nat
                } else {
                    left as nat + 1
                },
            ) == leads_to(merged@, parent, child, limit as nat + 1),
        decreases left, (if last { 0int } else { 1int }),
    {
        if cur == child {
            return true;
        }
        match merged.get(&cur) {
            Some(next) => {
                if *next == cur || last {
                    return false;
                }
                cur = *next;
                if left == 0 {
                    last = true;
                } else {
                    left = left - 1;
                }
            },
            None => {
                return false;
            },
        }
    }
}

/// The bone that `b` is merged into: the merges are followed for at most `steps` steps.
pub open spec fn resolved(merged: Map<i32, i32>, b: i32, steps: nat) -> i32
    decreases steps,
{
    if merged.contains_key(b) && merged[b] != b && steps > 0 {
        resolved(merged, merged[b], (steps - 1) as nat)
    } else {
        b
    }
}

/// The bone that `b` is merged into.
fn resolve(merged: &HashMap<i32, i32>, b: i32, steps: usize) -> (r: i32)
    ensures
        r == resolved(merged@, b, steps as nat),
{
    let mut cur: i32 = b;
    let mut left: usize = steps;
    loop
        invariant
            resolved(merged@, cur, left as nat) == resolved(merged@, b, steps as nat),
        decreases left,
    {
        match merged.get(&cur) {
            Some(next) => {
                if *next == cur || left == 0 {
                    return cur;
                }
                cur = *next;
                left = left - 1;
            },
            None => {
                return cur;
            },
        }
    }
}

/// How many merges are followed in a mesh.
pub open spec fn merge_steps(m: SmdView) -> nat {
    m.nodes.len() + 1
}

/// Whether one of the links from `k` on of a corner leads to bone `b`.
pub open spec fn linked_to(m: SmdView, merged: Map<i32, i32>, e: int, b: i32, k: int) -> bool {
    exists|l: int|
        k <= l < corner_of(m.triangles, e).links.len() && resolved(
            merged,
            (#[trigger] corner_of(m.triangles, e).links[l]).bone,
            merge_steps(m),
        ) == b
}

/// Whether triangle `f` belongs to bone `b`: whether a corner of it is linked to the bone.
pub open spec fn owns(m: SmdView, merged: Map<i32, i32>, b: i32, f: int) -> bool {
    linked_to(m, merged, 3 * f, b, 0) || linked_to(m, merged, 3 * f + 1, b, 0) || linked_to(
        m,
        merged,
        3 * f + 2,
        b,
        0,
    )
}

/// The first `n` triangles that belong to bone `b`.
pub open spec fn owned(m: SmdView, merged: Map<i32, i32>, b: i32, n: int) -> Seq<u32>
    decreases n,
{
    if n <= 0 {
        Seq::empty()
    } else if owns(m, merged, b, n - 1) {
        owned(m, merged, b, n - 1).push((n - 1) as u32)
    } else {
        owned(m, merged, b, n - 1)
    }
}

/// The bones that a corner is linked to, among its first `n` links, added to others in order.
pub open spec fn with_links(
    m: SmdView,
    merged: Map<i32, i32>,
    bones: Seq<int>,
    e: int,
    n: int,
) -> Seq<int>
    decreases n,
{
    if n <= 0 {
        bones
    } else {
        insert_sorted(
            with_links(m, merged, bones, e, n - 1),
            resolved(
                merged,
                corner_of(m.triangles, e).links[n - 1].bone,
                merge_steps(m),
            ) as int,
        )
    }
}

/// The bones that the first `n` corners are linked to, each once, in increasing order.
pub open spec fn owners(m: SmdView, merged: Map<i32, i32>, n: int) -> Seq<int>
    decreases n,
{
    if n <= 0 {
        Seq::empty()
    } else {
        with_links(
            m,
            merged,
            owners(m, merged, n - 1),
            n - 1,
            corner_of(m.triangles, n - 1).links.len() as int,
        )
    }
}

/// The bones that have triangles, each once, in increasing order.
pub open spec fn all_owners(m: SmdView, merged: Map<i32, i32>) -> Seq<int> {
    owners(m, merged, 3 * m.triangles.len() as int)
}

/// The index of the bone that the bone with index `b` hangs from; -1 where that is not known.
pub open spec fn parent_index(nodes: Seq<NodeView>, b: i32) -> i32 {
    match node_with(nodes, b, nodes.len() as int) {
        Some(i) => nodes[i].parent,
        None => -1i32,
    }
}

/// The index of the nearest bone at or above `cur` that is listed, within `steps` steps. A longer
/// way goes round in a circle.
pub open spec fn listed_above(nodes: Seq<NodeView>, list: Seq<int>, cur: i32, steps: nat) -> Option<
    i32,
>
    decreases steps,
{
    if cur < 0 || steps == 0 {
        None
    } else if list.contains(cur as int) {
        Some(cur)
    } else {
        listed_above(nodes, list, parent_index(nodes, cur), (steps - 1) as nat)
    }
}

/// The name of the bone with index `b`, if there is one.
pub open spec fn name_at(nodes: Seq<NodeView>, b: i32) -> Option<Seq<char>> {
    match node_with(nodes, b, nodes.len() as int) {
        Some(i) => Some(nodes[i].name),
        None => None,
    }
}

/// The triangles of bone `b`.
pub open spec fn group_of(m: SmdView, merged: Map<i32, i32>, b: i32) -> GroupView {
    GroupView {
        bone: crate::bytes::wrap32(b),
        name: match name_at(m.nodes, b) {
            Some(n) => n,
            None => "bone"@ + signed_decimal(b as int),
        },
        parent: match listed_above(
            m.nodes,
            all_owners(m, merged),
            parent_index(m.nodes, b),
            m.nodes.len() + 1,
        ) {
            Some(p) => name_at(m.nodes, p),
            None => None,
        },
        faces: owned(m, merged, b, m.triangles.len() as int),
    }
}

/// The triangles of a mesh, by bone.
pub open spec fn groups(m: SmdView, merged: Map<i32, i32>) -> Seq<GroupView> {
    let list = all_owners(m, merged);
    Seq::new(list.len(), |k: int| group_of(m, merged, list[k] as i32))
}

/// Indices of bones as whole numbers.
pub open spec fn whole(list: Seq<i32>) -> Seq<int> {
    Seq::new(list.len(), |i: int| list[i] as int)
}

/// Sorted insertion puts a number before all that are greater and behind all that are less.
proof fn inserted_at(s: Seq<int>, x: int, k: int)
    requires
        0 <= k <= s.len(),
        forall|i: int| 0 <= i < k ==> #[trigger] s[i] < x,
        forall|i: int| k <= i < s.len() ==> #[trigger] s[i] > x,
    ensures
        insert_sorted(s, x) == s.insert(k, x),
    decreases s.len(),
{
    if s.len() == 0 {
        assert(s.insert(k, x) =~= seq![x]);
    } else if k == s.len() {
        assert(s.last() < x);
        assert(s.insert(k, x) =~= s.push(x));
    } else {
        assert(s.last() > x);
        inserted_at(s.drop_last(), x, k);
        assert(s.insert(k, x) =~= s.drop_last().insert(k, x).push(s.last()));
    }
}

/// Sorted insertion of a number that is there changes nothing.
proof fn inserted_again(s: Seq<int>, k: int)
    requires
        increasing(s),
        0 <= k < s.len(),
    ensures
        insert_sorted(s, s[k]) == s,
    decreases s.len(),
{
    if k < s.len() - 1 {
        assert(s[k] < s[s.len() - 1]);
        inserted_again(s.drop_last(), k);
        assert(s.drop_last()[k] == s[k]);
        assert(s.drop_last().push(s.last()) =~= s);
    }
}

/// Adds the index of a bone to a list in increasing order.
fn add_owner(list: &mut Vec<i32>, x: i32)
    requires
        increasing(whole(old(list)@)),
    ensures
        increasing(whole(final(list)@)),
        whole(final(list)@) == insert_sorted(whole(old(list)@), x as int),
{
    let ghost s = whole(list@);
    let mut k: usize = list.len();
    proof {
        insert_sorted_keeps_order(s, x as int);
    }
    while k > 0
        invariant
            k <= list@.len(),
            s == whole(list@),
            *list == *old(list),
            increasing(s),
            increasing(insert_sorted(s, x as int)),
            forall|i: int| k <= i < s.len() ==> #[trigger] s[i] > x,
        ensures
            k <= list@.len(),
            s == whole(list@),
            forall|i: int| k <= i < s.len() ==> #[trigger] s[i] > x,
            forall|i: int| 0 <= i < k ==> #[trigger] s[i] < x,
        decreases k,
    {
        assert(s[k - 1] == list@[k - 1]);
        if list[k - 1] == x {
            proof {
                inserted_again(s, k - 1);
            }
            return;
        }
        if list[k - 1] < x {
            break;
        }
        k = k - 1;
    }
    list.insert(k, x);
    proof {
        inserted_at(s, x as int, k as int);
        assert(whole(list@) =~= s.insert(k as int, x as int));
    }
}

/// The bones that have triangles, each once, in increasing order.
fn list_owners(smd: &Smd, merged: &HashMap<i32, i32>) -> (r: Vec<i32>)
    requires
        smd.nodes@.len() < usize::MAX,
    ensures
        whole(r@) == all_owners(smd@, merged@),
        increasing(whole(r@)),
{
    let ghost m = smd@;
    let steps: usize = smd.nodes.len() + 1;
    let mut list: Vec<i32> = Vec::new();
    let mut f: usize = 0;
    assert(whole(list@) =~= Seq::empty());
    while f < smd.triangles.len()
        invariant
            f <= smd.triangles@.len(),
            m == smd@,
            steps == merge_steps(m),
            increasing(whole(list@)),
            whole(list@) == owners(m, merged@, 3 * f),
        decreases smd.triangles@.len() - f,
    {
        assert(m.triangles[f as int] == smd.triangles@[f as int]@);
        let mut k: usize = 0;
        while k < 3
            invariant
                k <= 3,
                f < smd.triangles@.len(),
                m == smd@,
                m.triangles[f as int] == smd.triangles@[f as int]@,
                steps == merge_steps(m),
                increasing(whole(list@)),
                whole(list@) == owners(m, merged@, 3 * f + k),
            decreases 3 - k,
        {
            let ghost e = 3 * f + k;
            let ghost v = corner_of(m.triangles, e);
            let ghost before = owners(m, merged@, e);
            assert(e / 3 == f && e % 3 == k as int);
            assert(v == smd.triangles@[f as int].vertices@[k as int]@);
            let mut l: usize = 0;
            while l < smd.triangles[f].vertices[k].links.len()
                invariant
                    k < 3,
                    f < smd.triangles@.len(),
                    l <= v.links.len(),
                    m == smd@,
                    e == 3 * f + k,
                    v == corner_of(m.triangles, e),
                    v == smd.triangles@[f as int].vertices@[k as int]@,
                    steps == merge_steps(m),
                    increasing(whole(list@)),
                    whole(list@) == with_links(m, merged@, before, e, l as int),
                decreases v.links.len() - l,
            {
                let b: i32 = resolve(merged, smd.triangles[f].vertices[k].links[l].bone, steps);
                add_owner(&mut list, b);
                l = l + 1;
            }
            k = k + 1;
        }
        f = f + 1;
    }
    list
}

/// Tells whether a corner of triangle `f` is linked to bone `b`.
fn face_on_bone(smd: &Smd, merged: &HashMap<i32, i32>, b: i32, f: usize) -> (r: bool)
    requires
        f < smd.triangles@.len(),
        smd.nodes@.len() < usize::MAX,
    ensures
        r == owns(smd@, merged@, b, f as int),
{
    let ghost m = smd@;
    let steps: usize = smd.nodes.len() + 1;
    assert(m.triangles[f as int] == smd.triangles@[f as int]@);
    let mut k: usize = 0;
    while k < 3
        invariant
            k <= 3,
            f < smd.triangles@.len(),
            m == smd@,
            m.triangles[f as int] == smd.triangles@[f as int]@,
            steps == merge_steps(m),
            forall|j: int| 0 <= j < k ==> !#[trigger] linked_to(m, merged@, 3 * f + j, b, 0),
        decreases 3 - k,
    {
        let ghost e = 3 * f + k;
        let ghost v = corner_of(m.triangles, e);
        assert(e / 3 == f && e % 3 == k as int);
        assert(v == smd.triangles@[f as int].vertices@[k as int]@);
        let mut l: usize = 0;
        while l < smd.triangles[f].vertices[k].links.len()
            invariant
                k < 3,
                f < smd.triangles@.len(),
                l <= v.links.len(),
                m == smd@,
                e == 3 * f + k,
                v == corner_of(m.triangles, e),
                v == smd.triangles@[f as int].vertices@[k as int]@,
                steps == merge_steps(m),
                forall|j: int|
                    0 <= j < l ==> resolved(merged@, (#[trigger] v.links[j]).bone, merge_steps(m))
                        != b,
            decreases v.links.len() - l,
        {
            if resolve(merged, smd.triangles[f].vertices[k].links[l].bone, steps) == b {
                assert(resolved(merged@, v.links[l as int].bone, merge_steps(m)) == b);
                assert(linked_to(m, merged@, e, b, 0));
                assert(owns(m, merged@, b, f as int)) by {
                    if k == 0 {
                        assert(linked_to(m, merged@, 3 * f, b, 0));
                    }
                }
                return true;
            }
            l = l + 1;
        }
        assert(!linked_to(m, merged@, e, b, 0));
        k = k + 1;
    }
    assert(!linked_to(m, merged@, 3 * f + 0, b, 0));
    assert(!linked_to(m, merged@, 3 * f + 1, b, 0));
    assert(!linked_to(m, merged@, 3 * f + 2, b, 0));
    false
}

/// The triangles that belong to bone `b`.
fn list_owned(smd: &Smd, merged: &HashMap<i32, i32>, b: i32) -> (r: Vec<u32>)
    requires
        smd.nodes@.len() < usize::MAX,
        smd.triangles@.len() <= u32::MAX,
    ensures
        r@ == owned(smd@, merged@, b, smd@.triangles.len() as int),
{
    let mut out: Vec<u32> = Vec::new();
    let mut f: usize = 0;
    while f < smd.triangles.len()
        invariant
            f <= smd.triangles@.len(),
            smd.nodes@.len() < usize::MAX,
            smd.triangles@.len() <= u32::MAX,
            out@ == owned(smd@, merged@, b, f as int),
        decreases smd.triangles@.len() - f,
    {
        if face_on_bone(smd, merged, b, f) {
            out.push(f as u32);
        }
        f = f + 1;
    }
    out
}

/// The index of the bone that a bone hangs from.
fn find_parent_index(nodes: &Vec<SmdNode>, b: i32) -> (r: i32)
    ensures
        r == parent_index(node_views(nodes@), b),
{
    match find_node_with(nodes, b) {
        Some(i) => {
            assert(node_views(nodes@)[i as int] == nodes@[i as int]@);
            nodes[i].parent
        },
        None => -1,
    }
}

/// Tells whether a bone is listed.
fn is_listed(list: &Vec<i32>, b: i32) -> (r: bool)
    ensures
        r == whole(list@).contains(b as int),
{
    let mut k: usize = 0;
    while k < list.len()
        invariant
            k <= list@.len(),
            forall|j: int| 0 <= j < k ==> #[trigger] whole(list@)[j] != b,
        decreases list@.len() - k,
    {
        assert(whole(list@)[k as int] == list@[k as int]);
        if list[k] == b {
            return true;
        }
        k = k + 1;
    }
    false
}

/// The index of the nearest bone at or above `start` that is listed.
fn find_listed_above(nodes: &Vec<SmdNode>, list: &Vec<i32>, start: i32) -> (r: Option<i32>)
    requires
        nodes@.len() < usize::MAX,
    ensures
        r == listed_above(node_views(nodes@), whole(list@), start, nodes@.len() + 1),
{
    let mut cur: i32 = start;
    let mut steps: usize = nodes.len() + 1;
    while cur >= 0 && steps > 0
        invariant
            listed_above(node_views(nodes@), whole(list@), cur, steps as nat) == listed_above(
                node_views(nodes@),
                whole(list@),
                start,
                nodes@.len() + 1,
            ),
        decreases steps,
    {
        if is_listed(list, cur) {
            return Some(cur);
        }
        cur = find_parent_index(nodes, cur);
        steps = steps - 1;
    }
    None
}

/// The name of the bone with index `b`.
fn find_name_at(nodes: &Vec<SmdNode>, b: i32) -> (r: Option<String>)
    ensures
        viewed_if(r) == name_at(node_views(nodes@), b),
{
    match find_node_with(nodes, b) {
        Some(i) => {
            assert(node_views(nodes@)[i as int] == nodes@[i as int]@);
            Some(nodes[i].name.clone())
        },
        None => None,
    }
}

/// The triangles of a bone.
fn build_group(smd: &Smd, merged: &HashMap<i32, i32>, list: &Vec<i32>, b: i32) -> (r: RagdollGroup)
    requires
        smd.nodes@.len() < usize::MAX,
        smd.triangles@.len() <= u32::MAX,
        whole(list@) == all_owners(smd@, merged@),
    ensures
        r@ == group_of(smd@, merged@, b),
{
    let parent: Option<String> = match find_listed_above(
        &smd.nodes,
        list,
        find_parent_index(&smd.nodes, b),
    ) {
        Some(p) => find_name_at(&smd.nodes, p),
        None => None,
    };
    let name: String = match find_name_at(&smd.nodes, b) {
        Some(n) => n,
        None => {
            let mut n: String = "bone".to_owned();
            let t: String = signed_text(b);
            n.push_str(t.as_str());
            n
        },
    };
    let bone: u32 = if b >= 0 {
        b as u32
    } else {
        (b as i64 + 4294967296) as u32
    };
    RagdollGroup { bone, name, parent, faces: list_owned(smd, merged, b) }
}

/// The triangles of a mesh, by bone, where some bones are merged into others: a triangle belongs to
/// each bone that a corner of it is linked to.
pub fn group_by_bone_merged(smd: &Smd, merged: &HashMap<i32, i32>) -> (r: Vec<RagdollGroup>)
    requires
        smd.nodes@.len() < usize::MAX,
        smd.triangles@.len() <= u32::MAX,
    ensures
        viewed(r@) == groups(smd@, merged@),
{
    let list: Vec<i32> = list_owners(smd, merged);
    let ghost want = groups(smd@, merged@);
    let mut out: Vec<RagdollGroup> = Vec::new();
    let mut k: usize = 0;
    while k < list.len()
        invariant
            k <= list@.len(),
            smd.nodes@.len() < usize::MAX,
            smd.triangles@.len() <= u32::MAX,
            whole(list@) == all_owners(smd@, merged@),
            want == groups(smd@, merged@),
            viewed(out@) == want.take(k as int),
        decreases list@.len() - k,
    {
        assert(whole(list@)[k as int] == list@[k as int]);
        let g: RagdollGroup = build_group(smd, merged, &list, list[k]);
        assert(g@ == want[k as int]);
        out.push(g);
        assert(viewed(out@) =~= want.take(k + 1));
        k = k + 1;
    }
    assert(viewed(out@) =~= want);
    out
}

/// The triangles of a mesh, by bone.
pub fn group_by_bone(smd: &Smd) -> (r: Vec<RagdollGroup>)
    requires
        smd.nodes@.len() < usize::MAX,
        smd.triangles@.len() <= u32::MAX,
    ensures
        viewed(r@) == groups(smd@, Map::empty()),
{
    let none: HashMap<i32, i32> = HashMap::new();
    group_by_bone_merged(smd, &none)
}

/// What a list of bones holds after some corners: each bone that one of them is linked to.
spec fn lists_links(
    m: SmdView,
    merged: Map<i32, i32>,
    list: Seq<int>,
    n: int,
) -> bool {
    &&& increasing(list)
    &&& forall|b: int| #[trigger] list.contains(b) <==> i32::MIN <= b <= i32::MAX && exists|e: int|
        0 <= e < n && #[trigger] linked_to(m, merged, e, b as i32, 0)
}

proof fn links_added(
    m: SmdView,
    merged: Map<i32, i32>,
    list: Seq<int>,
    e: int,
    n: int,
)
    requires
        increasing(list),
        0 <= n <= corner_of(m.triangles, e).links.len(),
    ensures
        increasing(with_links(m, merged, list, e, n)),
        forall|b: int| #[trigger]
            with_links(m, merged, list, e, n).contains(b) <==> list.contains(b) || exists|l: int|
                0 <= l < n && resolved(
                    merged,
                    (#[trigger] corner_of(m.triangles, e).links[l]).bone,
                    merge_steps(m),
                ) == b,
    decreases n,
{
    if n > 0 {
        links_added(m, merged, list, e, n - 1);
        let before = with_links(m, merged, list, e, n - 1);
        let links = corner_of(m.triangles, e).links;
        let x = resolved(merged, links[n - 1].bone, merge_steps(m)) as int;
        insert_sorted_keeps_order(before, x);
        assert forall|b: int| #[trigger] with_links(m, merged, list, e, n).contains(b)
            <==> list.contains(b) || exists|l: int|
            0 <= l < n && resolved(merged, (#[trigger] links[l]).bone, merge_steps(m)) == b by {
            assert(insert_sorted(before, x).contains(b) <==> before.contains(b) || b == x);
            if b == x {
                assert(resolved(merged, links[n - 1].bone, merge_steps(m)) == b);
            }
        }
    }
}

proof fn owners_listed(m: SmdView, merged: Map<i32, i32>, n: int)
    requires
        0 <= n <= 3 * m.triangles.len(),
    ensures
        lists_links(m, merged, owners(m, merged, n), n),
    decreases n,
{
    if n > 0 {
        owners_listed(m, merged, n - 1);
        let before = owners(m, merged, n - 1);
        let e = n - 1;
        let links = corner_of(m.triangles, e).links;
        links_added(m, merged, before, e, links.len() as int);
        let list = owners(m, merged, n);
        assert forall|b: int| #[trigger] list.contains(b) <==> i32::MIN <= b <= i32::MAX && exists|
            d: int,
        |
            0 <= d < n && #[trigger] linked_to(m, merged, d, b as i32, 0) by {
            if list.contains(b) {
                if before.contains(b) {
                    let d = choose|d: int|
                        0 <= d < n - 1 && #[trigger] linked_to(m, merged, d, b as i32, 0);
                    assert(linked_to(m, merged, d, b as i32, 0));
                } else {
                    let l = choose|l: int|
                        0 <= l < links.len() && resolved(
                            merged,
                            (#[trigger] links[l]).bone,
                            merge_steps(m),
                        ) == b;
                    assert(resolved(merged, links[l].bone, merge_steps(m)) == b as i32);
                    assert(linked_to(m, merged, e, b as i32, 0));
                }
            }
            if i32::MIN <= b <= i32::MAX && exists|d: int|
                0 <= d < n && #[trigger] linked_to(m, merged, d, b as i32, 0) {
                let d = choose|d: int|
                    0 <= d < n && #[trigger] linked_to(m, merged, d, b as i32, 0);
                if d < n - 1 {
                    assert(before.contains(b));
                } else {
                    let l = choose|l: int|
                        0 <= l < corner_of(m.triangles, d).links.len() && resolved(
                            merged,
                            (#[trigger] corner_of(m.triangles, d).links[l]).bone,
                            merge_steps(m),
                        ) == b as i32;
                    assert(resolved(merged, links[l].bone, merge_steps(m)) == b);
                }
            }
        }
    }
}

/// The bones that have triangles come in increasing order, each once, and a bone is among them
/// exactly if a triangle belongs to it.
pub proof fn groups_are_in_order(m: SmdView, merged: Map<i32, i32>)
    ensures
        increasing(all_owners(m, merged)),
        forall|b: i32| #[trigger]
            all_owners(m, merged).contains(b as int) <==> exists|f: int|
                0 <= f < m.triangles.len() && #[trigger] owns(m, merged, b, f),
{
    let n = 3 * m.triangles.len() as int;
    owners_listed(m, merged, n);
    assert forall|b: i32| #[trigger] all_owners(m, merged).contains(b as int) <==> exists|f: int|
        0 <= f < m.triangles.len() && #[trigger] owns(m, merged, b, f) by {
        if all_owners(m, merged).contains(b as int) {
            let e = choose|e: int| 0 <= e < n && #[trigger] linked_to(m, merged, e, b, 0);
            let f = e / 3;
            assert(e == 3 * f || e == 3 * f + 1 || e == 3 * f + 2);
            assert(owns(m, merged, b, f));
        }
        if exists|f: int| 0 <= f < m.triangles.len() && #[trigger] owns(m, merged, b, f) {
            let f = choose|f: int|
                0 <= f < m.triangles.len() && #[trigger] owns(m, merged, b, f);
            let e = if linked_to(m, merged, 3 * f, b, 0) {
                3 * f
            } else if linked_to(m, merged, 3 * f + 1, b, 0) {
                3 * f + 1
            } else {
                3 * f + 2
            };
            let w = b as int;
            assert(0 <= e < n && linked_to(m, merged, e, w as i32, 0));
            assert(all_owners(m, merged).contains(w));
        }
    }
}

/// No two groups have the same bone.
pub proof fn groups_have_their_own_bones(m: SmdView, merged: Map<i32, i32>)
    ensures
        forall|i: int, j: int|
            0 <= i < j < groups(m, merged).len() ==> (#[trigger] groups(m, merged)[i]).bone != (
            #[trigger] groups(m, merged)[j]).bone,
{
    let all = all_owners(m, merged);
    let list = groups(m, merged);
    owners_listed(m, merged, 3 * m.triangles.len() as int);
    assert forall|i: int, j: int| 0 <= i < j < list.len() implies (#[trigger] list[i]).bone != (
    #[trigger] list[j]).bone by {
        assert(all.contains(all[i]));
        assert(all.contains(all[j]));
        assert(all[i] < all[j]);
    }
}

} // verus!
