//! Merges of bones lead to no bone twice.
use vstd::prelude::*;

use super::plan::{index_named, merges_from};
use super::ragdoll::leads_to;
use crate::qc::model::PairView;
use crate::smd::SmdView;

verus! {

/// Where `k` merges lead from a bone, if there are so many.
spec fn after(t: Map<i32, i32>, c: i32, k: nat) -> Option<i32>
    decreases k,
{
    if k == 0 {
        Some(c)
    } else if t.contains_key(c) {
        after(t, t[c], (k - 1) as nat)
    } else {
        None
    }
}

proof fn after_adds(t: Map<i32, i32>, c: i32, i: nat, j: nat)
    ensures
        after(t, c, i + j) == (match after(t, c, i) {
            Some(x) => after(t, x, j),
            None => None,
        }),
    decreases i,
{
    if i > 0 && t.contains_key(c) {
        after_adds(t, t[c], (i - 1) as nat, j);
    }
}

/// What a bone leads to, some merges lead to.
proof fn led_after(t: Map<i32, i32>, c: i32, target: i32, steps: nat) -> (k: nat)
    requires
        leads_to(t, c, target, steps),
    ensures
        k <= steps,
        after(t, c, k) == Some(target),
    decreases steps,
{
    if c == target {
        0
    } else {
        let k = led_after(t, t[c], target, (steps - 1) as nat);
        k + 1
    }
}

/// More steps lead as far.
proof fn led_farther(t: Map<i32, i32>, c: i32, target: i32, a: nat, b: nat)
    requires
        leads_to(t, c, target, a),
        a <= b,
    ensures
        leads_to(t, c, target, b),
    decreases a,
{
    if c != target {
        led_farther(t, t[c], target, (a - 1) as nat, (b - 1) as nat);
    }
}

/// Merges that lead to `target` without the merge of `child` do so with and without it.
proof fn led_without(
    t: Map<i32, i32>,
    child: i32,
    parent: i32,
    c: i32,
    target: i32,
    k: nat,
)
    requires
        after(t.insert(child, parent), c, k) == Some(target),
        forall|j: nat| j < k ==> #[trigger] after(t.insert(child, parent), c, j) != Some(child),
    ensures
        leads_to(t, c, target, k),
    decreases k,
{
    let u = t.insert(child, parent);
    if c != target {
        assert(after(u, c, 0) == Some(c));
        assert(u[c] == t[c]);
        let d = t[c];
        assert forall|j: nat| j < k - 1 implies #[trigger] after(u, d, j) != Some(child) by {
            assert(after(u, c, j + 1) == after(u, d, j));
        }
        led_without(t, child, parent, d, target, (k - 1) as nat);
    }
}

/// The first of the merges from a bone that leads to `child` needs no merge of `child`.
proof fn led_to_child(t: Map<i32, i32>, child: i32, parent: i32, c: i32, k: nat)
    requires
        after(t.insert(child, parent), c, k) == Some(child),
    ensures
        leads_to(t, c, child, k),
    decreases k,
{
    let u = t.insert(child, parent);
    if c != child {
        assert(u[c] == t[c]);
        led_to_child(t, child, parent, t[c], (k - 1) as nat);
    }
}

/// No bone leads back to itself.
pub open spec fn no_circle(t: Map<i32, i32>, steps: nat) -> bool {
    forall|c: i32| #[trigger] t.contains_key(c) ==> !leads_to(t, t[c], c, steps)
}

/// One more merge closes no circle, unless its target leads to the bone.
proof fn one_more(t: Map<i32, i32>, child: i32, parent: i32, steps: nat)
    requires
        no_circle(t, steps),
        !leads_to(t, parent, child, steps),
    ensures
        no_circle(t.insert(child, parent), steps),
{
    let u = t.insert(child, parent);
    assert forall|c: i32| #[trigger] u.contains_key(c) implies !leads_to(u, u[c], c, steps) by {
        if leads_to(u, u[c], c, steps) {
            let y = u[c];
            let k = led_after(u, y, c, steps);
            if exists|j: nat| j <= k && #[trigger] after(u, y, j) == Some(child) {
                let j = choose|j: nat| j <= k && #[trigger] after(u, y, j) == Some(child);
                after_adds(u, y, j, (k - j) as nat);
                after_adds(u, child, (k - j) as nat, 1);
                assert(after(u, c, 1) == after(u, y, 0));
                after_adds(u, child, (k - j + 1) as nat, j);
                assert(after(u, child, k + 1) == after(u, parent, k));
                led_to_child(t, child, parent, parent, k);
                led_farther(t, parent, child, k, steps);
            } else {
                assert(after(u, y, k) != Some(child));
                led_without(t, child, parent, y, c, k);
                assert(t.contains_key(c) && t[c] == y);
                led_farther(t, y, c, k, steps);
            }
        }
    }
}

proof fn merges_close_none(m: SmdView, pairs: Seq<PairView>, t: Map<i32, i32>, i: int)
    requires
        no_circle(t, m.nodes.len() + 1),
    ensures
        match merges_from(m, pairs, t, i) {
            Ok(u) => no_circle(u, m.nodes.len() + 1),
            Err(_) => true,
        },
    decreases pairs.len() - i,
{
    if 0 <= i < pairs.len() {
        match (index_named(m.nodes, pairs[i].a), index_named(m.nodes, pairs[i].b)) {
            (Some(parent), Some(child)) => {
                if parent == child {
                    merges_close_none(m, pairs, t, i + 1);
                } else if !leads_to(t, parent, child, m.nodes.len() + 1) {
                    one_more(t, child, parent, m.nodes.len() + 1);
                    merges_close_none(m, pairs, t.insert(child, parent), i + 1);
                }
            },
            _ => {},
        }
    }
}

/// The merges that a script asks for lead no bone back to itself, in as many steps as there are
/// bones and one more.
pub proof fn merges_form_no_circle(m: SmdView, pairs: Seq<PairView>)
    ensures
        match merges_from(m, pairs, Map::empty(), 0) {
            Ok(t) => no_circle(t, m.nodes.len() + 1),
            Err(_) => true,
        },
{
    merges_close_none(m, pairs, Map::empty(), 0);
}

} // verus!
