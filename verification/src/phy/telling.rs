//! What the text of a collision file tells of joints, rules and friction, and where it has it from.
use vstd::prelude::*;

use super::meaning::{has_line, held_before, held_behind, holds};
use super::params::{AnimatedFriction, JointConstraint, JointLimitType, PhyParams, PhySolid};
use super::plan::{index_named, joint_values, own_values, parent_name, solid_of, solid_parent};
use super::pose::node_with;
use super::ragdoll::GroupView;
use super::section::{
    axis_limits, axis_lines, edit_block, find_solid, friction_block, joint_block, line, merge_lines,
    pair_line, rules_block,
};
use crate::arith::of_integer;
use crate::decimals::six_decimals;
use crate::qc::model::{JointOverrideView, PhysicsView};
use crate::single::ONE;
use crate::smd::{last_node, NodeView};
use crate::text::{decimal, lower};

verus! {

/// Texts put behind each other.
pub open spec fn joined(list: Seq<Seq<char>>, n: nat) -> Seq<char>
    decreases n,
{
    if n == 0 {
        Seq::empty()
    } else {
        joined(list, (n - 1) as nat) + list[n - 1]
    }
}

proof fn joined_holds(list: Seq<Seq<char>>, n: nat, i: int)
    requires
        0 <= i < n <= list.len(),
    ensures
        holds(joined(list, n), list[i]),
    decreases n,
{
    if i == n - 1 {
        held_behind(joined(list, (n - 1) as nat), list[i]);
    } else {
        joined_holds(list, (n - 1) as nat, i);
        held_before(joined(list, (n - 1) as nat), list[n - 1], list[i]);
    }
}

proof fn held_in_held(a: Seq<char>, b: Seq<char>, c: Seq<char>)
    requires
        holds(a, b),
        holds(b, c),
    ensures
        holds(a, c),
{
    let k = choose|k: int| 0 <= k <= a.len() - b.len() && #[trigger] a.subrange(k, k + b.len()) == b;
    let l = choose|l: int| 0 <= l <= b.len() - c.len() && #[trigger] b.subrange(l, l + c.len()) == c;
    let in_a = a.subrange(k, k + b.len());
    assert(in_a.subrange(l, l + c.len()) =~= a.subrange(k + l, k + l + c.len()));
}

proof fn three_lines(
    min_key: Seq<char>,
    max_key: Seq<char>,
    friction_key: Seq<char>,
    v: (u32, u32, u32),
)
    ensures
        ({
            let t = axis_lines(min_key, max_key, friction_key, v);
            &&& has_line(t, min_key, six_decimals(v.0))
            &&& has_line(t, max_key, six_decimals(v.1))
            &&& has_line(t, friction_key, six_decimals(v.2))
        }),
{
    let a = line(min_key, six_decimals(v.0));
    let b = line(max_key, six_decimals(v.1));
    let c = line(friction_key, six_decimals(v.2));
    held_behind(Seq::empty(), a);
    assert(Seq::<char>::empty() + a =~= a);
    held_before(a, b, a);
    held_before(a + b, c, a);
    held_behind(a, b);
    held_before(a + b, c, b);
    held_behind(a + b, c);
}

/// The text of a joint tells the numbers of the two solids that it joins, and for each axis the
/// angles and the friction, each under its own key.
#[verifier::spinoff_prover]
#[verifier::rlimit(60)]
pub proof fn joints_tell_their_limits(
    solids: Seq<PhySolid>,
    limits: Seq<JointConstraint>,
    i: int,
    j: int,
)
    requires
        0 <= i < solids.len(),
        0 <= j < solids.len(),
        solids[i].parent is Some,
        solids[j].name@ == solids[i].parent->0@,
        forall|k: int| 0 <= k < j ==> (#[trigger] solids[k]).name@ != solids[j].name@,
    ensures
        ({
            let t = joint_block(solids, limits, i);
            let n = limits.len() as int;
            let x = axis_limits(limits, solids[i].name@, 0, n);
            let y = axis_limits(limits, solids[i].name@, 1, n);
            let z = axis_limits(limits, solids[i].name@, 2, n);
            &&& has_line(t, "parent"@, decimal(j as nat))
            &&& has_line(t, "child"@, decimal(i as nat))
            &&& has_line(t, "xmin"@, six_decimals(x.0))
            &&& has_line(t, "xmax"@, six_decimals(x.1))
            &&& has_line(t, "xfriction"@, six_decimals(x.2))
            &&& has_line(t, "ymin"@, six_decimals(y.0))
            &&& has_line(t, "ymax"@, six_decimals(y.1))
            &&& has_line(t, "yfriction"@, six_decimals(y.2))
            &&& has_line(t, "zmin"@, six_decimals(z.0))
            &&& has_line(t, "zmax"@, six_decimals(z.1))
            &&& has_line(t, "zfriction"@, six_decimals(z.2))
        }),
{
    solid_is_found(solids, solids[i].parent->0@, 0, j);
    let t = joint_block(solids, limits, i);
    let n = limits.len() as int;
    let bone = solids[i].name@;
    let x = axis_lines("xmin"@, "xmax"@, "xfriction"@, axis_limits(limits, bone, 0, n));
    let y = axis_lines("ymin"@, "ymax"@, "yfriction"@, axis_limits(limits, bone, 1, n));
    let z = axis_lines("zmin"@, "zmax"@, "zfriction"@, axis_limits(limits, bone, 2, n));
    let list = seq![
        "ragdollconstraint {\n"@,
        line("parent"@, decimal(j as nat)),
        line("child"@, decimal(i as nat)),
        x,
        y,
        z,
        "}\n"@,
    ];
    reveal_with_fuel(joined, 8);
    assert(Seq::<char>::empty() + "ragdollconstraint {\n"@ =~= "ragdollconstraint {\n"@);
    assert(t == joined(list, 7));
    joined_holds(list, 7, 1);
    joined_holds(list, 7, 2);
    joined_holds(list, 7, 3);
    joined_holds(list, 7, 4);
    joined_holds(list, 7, 5);
    axis_held(t, "xmin"@, "xmax"@, "xfriction"@, axis_limits(limits, bone, 0, n));
    axis_held(t, "ymin"@, "ymax"@, "yfriction"@, axis_limits(limits, bone, 1, n));
    axis_held(t, "zmin"@, "zmax"@, "zfriction"@, axis_limits(limits, bone, 2, n));
}

proof fn axis_held(
    t: Seq<char>,
    min_key: Seq<char>,
    max_key: Seq<char>,
    friction_key: Seq<char>,
    v: (u32, u32, u32),
)
    requires
        holds(t, axis_lines(min_key, max_key, friction_key, v)),
    ensures
        has_line(t, min_key, six_decimals(v.0)),
        has_line(t, max_key, six_decimals(v.1)),
        has_line(t, friction_key, six_decimals(v.2)),
{
    let a = axis_lines(min_key, max_key, friction_key, v);
    three_lines(min_key, max_key, friction_key, v);
    held_in_held(t, a, line(min_key, six_decimals(v.0)));
    held_in_held(t, a, line(max_key, six_decimals(v.1)));
    held_in_held(t, a, line(friction_key, six_decimals(v.2)));
}

proof fn solid_is_found(solids: Seq<PhySolid>, name: Seq<char>, k: int, j: int)
    requires
        0 <= k <= j < solids.len(),
        solids[j].name@ == name,
        forall|l: int| k <= l < j ==> (#[trigger] solids[l]).name@ != name,
    ensures
        find_solid(solids, name, k) == Some(j),
    decreases j - k,
{
    if k < j {
        solid_is_found(solids, name, k + 1, j);
    }
}

/// A pair of solids that collide is told by their numbers.
pub proof fn pairs_tell_their_numbers(
    solids: Seq<PhySolid>,
    pair: (String, String),
    i: int,
    j: int,
)
    requires
        0 <= i < solids.len(),
        0 <= j < solids.len(),
        i != j,
        solids[i].name@ == pair.0@,
        solids[j].name@ == pair.1@,
        forall|k: int, l: int|
            0 <= k < l < solids.len() ==> (#[trigger] solids[k]).name@ != (
            #[trigger] solids[l]).name@,
    ensures
        has_line(
            pair_line(solids, pair),
            "collisionpair"@,
            decimal(i as nat) + ","@ + decimal(j as nat),
        ),
{
    solid_is_found(solids, pair.0@, 0, i);
    solid_is_found(solids, pair.1@, 0, j);
    let a = line("collisionpair"@, decimal(i as nat) + ","@ + decimal(j as nat));
    held_behind(Seq::empty(), a);
    assert(Seq::<char>::empty() + a =~= a);
}

/// Without collisions between solids the rules say so; without rules nothing is told.
pub proof fn rules_tell_what_collides(solids: Seq<PhySolid>, params: PhyParams)
    ensures
        params.no_self_collisions ==> has_line(
            rules_block(solids, params),
            "selfcollisions"@,
            "0"@,
        ),
        !params.no_self_collisions && params.collision_pairs@.len() == 0 ==> rules_block(
            solids,
            params,
        ) == Seq::<char>::empty(),
{
    let a = "collisionrules {\n"@;
    let b = line("selfcollisions"@, "0"@);
    held_behind(a, b);
    held_before(a + b, "}\n"@, b);
}

/// The text of friction under animation tells its five numbers, each under its own key.
#[verifier::spinoff_prover]
pub proof fn friction_tells_its_numbers(f: AnimatedFriction)
    ensures
        ({
            let t = friction_block(Some(f));
            &&& has_line(t, "animfrictionmin"@, six_decimals(of_integer(f.min)))
            &&& has_line(t, "animfrictionmax"@, six_decimals(of_integer(f.max)))
            &&& has_line(t, "animfrictiontimein"@, six_decimals(f.time_in))
            &&& has_line(t, "animfrictiontimeout"@, six_decimals(f.time_out))
            &&& has_line(t, "animfrictiontimehold"@, six_decimals(f.time_hold))
        }),
        friction_block(None) == Seq::<char>::empty(),
{
    let list = seq![
        "animatedfriction {\n"@,
        line("animfrictionmin"@, six_decimals(of_integer(f.min))),
        line("animfrictionmax"@, six_decimals(of_integer(f.max))),
        line("animfrictiontimein"@, six_decimals(f.time_in)),
        line("animfrictiontimeout"@, six_decimals(f.time_out)),
        line("animfrictiontimehold"@, six_decimals(f.time_hold)),
        "}\n"@,
    ];
    reveal_with_fuel(joined, 8);
    assert(Seq::<char>::empty() + "animatedfriction {\n"@ =~= "animatedfriction {\n"@);
    assert(friction_block(Some(f)) == joined(list, 7));
    joined_holds(list, 7, 1);
    joined_holds(list, 7, 2);
    joined_holds(list, 7, 3);
    joined_holds(list, 7, 4);
    joined_holds(list, 7, 5);
}

proof fn merges_are_told(merges: Seq<(String, String)>, n: int, i: int)
    requires
        0 <= i < n <= merges.len(),
    ensures
        has_line(merge_lines(merges, n), "jointmerge"@, merges[i].0@ + ","@ + merges[i].1@),
    decreases n,
{
    let before = merge_lines(merges, n - 1);
    let own = line("jointmerge"@, merges[n - 1].0@ + ","@ + merges[n - 1].1@);
    if i == n - 1 {
        held_behind(before, own);
    } else {
        merges_are_told(merges, n - 1, i);
        held_before(before, own, line("jointmerge"@, merges[i].0@ + ","@ + merges[i].1@));
    }
}

/// The last block of the text tells the root, the whole mass, whether the solid is taken as it is,
/// and every merged pair, the parent before the child.
#[verifier::spinoff_prover]
pub proof fn the_last_block_tells_the_rest(params: PhyParams, i: int)
    ensures
        ({
            let t = edit_block(params);
            &&& has_line(t, "rootname"@, params.root_name@)
            &&& has_line(t, "totalmass"@, six_decimals(params.total_mass))
            &&& params.concave ==> has_line(t, "concave"@, "1"@)
            &&& 0 <= i < params.merge_list@.len() ==> has_line(
                t,
                "jointmerge"@,
                params.merge_list@[i].0@ + ","@ + params.merge_list@[i].1@,
            )
        }),
{
    let n = params.merge_list@.len() as int;
    let concave = if params.concave {
        line("concave"@, "1"@)
    } else {
        Seq::empty()
    };
    let list = seq![
        "editparams {\n"@,
        line("rootname"@, params.root_name@),
        line("totalmass"@, six_decimals(params.total_mass)),
        concave,
        merge_lines(params.merge_list@, n),
        "}\n"@,
    ];
    reveal_with_fuel(joined, 7);
    assert(Seq::<char>::empty() + "editparams {\n"@ =~= "editparams {\n"@);
    assert(edit_block(params) == joined(list, 6));
    joined_holds(list, 6, 1);
    joined_holds(list, 6, 2);
    joined_holds(list, 6, 3);
    joined_holds(list, 6, 4);
    if 0 <= i < n {
        merges_are_told(params.merge_list@, n, i);
        held_in_held(
            edit_block(params),
            merge_lines(params.merge_list@, n),
            line("jointmerge"@, params.merge_list@[i].0@ + ","@ + params.merge_list@[i].1@),
        );
    }
}

/// The words for limits and axes.
pub proof fn words_for_limits(word: Seq<char>)
    ensures
        lower(word) == "free"@ ==> JointLimitType::named(word) == Some(JointLimitType::Free),
        lower(word) == "fixed"@ ==> JointLimitType::named(word) == Some(JointLimitType::Fixed),
        lower(word) == "limit"@ ==> JointLimitType::named(word) == Some(JointLimitType::Limit),
        JointConstraint::axis_named('x') == Some(0u8),
        JointConstraint::axis_named('X') == Some(0u8),
        JointConstraint::axis_named('y') == Some(1u8),
        JointConstraint::axis_named('Y') == Some(1u8),
        JointConstraint::axis_named('z') == Some(2u8),
        JointConstraint::axis_named('Z') == Some(2u8),
{
    assert("free"@[1] == 'r' && "fixed"@[1] == 'i' && "limit"@[0] == 'l' && "fixed"@[0] == 'f'
        && "free"@[0] == 'f') by {
        reveal_strlit("free");
        reveal_strlit("fixed");
        reveal_strlit("limit");
    }
}

proof fn own_is_found(list: Seq<JointOverrideView>, name: Seq<char>, k: int, i: int)
    requires
        0 <= k <= i < list.len(),
        list[i].bone == name,
        forall|l: int| k <= l < i ==> (#[trigger] list[l]).bone != name,
    ensures
        own_values(list, name, k) == Some(i),
    decreases i - k,
{
    if k < i {
        own_is_found(list, name, k + 1, i);
    }
}

proof fn no_own_is_found(list: Seq<JointOverrideView>, name: Seq<char>, k: int)
    requires
        0 <= k,
        forall|l: int| 0 <= l < list.len() ==> (#[trigger] list[l]).bone != name,
    ensures
        own_values(list, name, k) is None,
    decreases list.len() - k,
{
    if k < list.len() {
        no_own_is_found(list, name, k + 1);
    }
}

/// What a joint sets for itself counts; what it does not set, it has from what is set for all, and
/// failing that the plain values.
pub proof fn own_numbers_come_first(p: PhysicsView, name: Seq<char>, i: int)
    requires
        0 <= i < p.joint_overrides.len(),
        p.joint_overrides[i].bone == name,
        forall|l: int| 0 <= l < i ==> (#[trigger] p.joint_overrides[l]).bone != name,
    ensures
        ({
            let o = p.joint_overrides[i];
            let v = joint_values(p, name);
            &&& o.damping matches Some(x) ==> v.damping == x
            &&& o.rot_damping matches Some(x) ==> v.rot_damping == x
            &&& o.inertia matches Some(x) ==> v.inertia == x
            &&& o.mass_bias matches Some(x) ==> v.mass_bias == x
            &&& o.damping is None ==> (p.damping matches Some(x) ==> v.damping == x)
            &&& o.rot_damping is None ==> (p.rot_damping matches Some(x) ==> v.rot_damping == x)
            &&& o.inertia is None ==> (p.inertia matches Some(x) ==> v.inertia == x)
            &&& o.damping is None && p.damping is None ==> v.damping == 0
            &&& o.rot_damping is None && p.rot_damping is None ==> v.rot_damping == 0
            &&& o.inertia is None && p.inertia is None ==> v.inertia == ONE
            &&& o.mass_bias is None ==> v.mass_bias == ONE
        }),
{
    own_is_found(p.joint_overrides, name, 0, i);
}

/// A joint that sets nothing for itself has what is set for all.
pub proof fn other_joints_have_the_common_numbers(p: PhysicsView, g: GroupView, k: int)
    requires
        forall|l: int|
            0 <= l < p.joint_overrides.len() ==> (#[trigger] p.joint_overrides[l]).bone != g.name,
    ensures
        ({
            let v = joint_values(p, g.name);
            &&& v.damping == (match p.damping {
                Some(x) => x,
                None => 0,
            })
            &&& v.rot_damping == (match p.rot_damping {
                Some(x) => x,
                None => 0,
            })
            &&& v.inertia == (match p.inertia {
                Some(x) => x,
                None => ONE,
            })
            &&& v.mass_bias == ONE
        }),
        ({
            let s = solid_of(p, g, k);
            s.bone == g.bone && s.name == g.name && s.parent == g.parent && s.group == k
                && s.mass_bias == ONE
        }),
{
    no_own_is_found(p.joint_overrides, g.name, 0);
}

/// A solid hangs from the nearest bone above its own that has a solid.
pub proof fn solids_hang_from_the_nearest(
    nodes: Seq<NodeView>,
    names: Seq<Seq<char>>,
    p: Seq<char>,
    steps: nat,
)
    ensures
        names.contains(p) ==> solid_parent(nodes, names, Some(p), steps) == Some(p),
        !names.contains(p) && steps > 0 ==> solid_parent(nodes, names, Some(p), steps)
            == solid_parent(nodes, names, parent_name(nodes, p), (steps - 1) as nat),
        solid_parent(nodes, names, None, steps) is None,
        solid_parent(nodes, names, Some(p), steps) matches Some(x) ==> names.contains(x),
    decreases steps,
{
    if !names.contains(p) && steps > 0 {
        match parent_name(nodes, p) {
            Some(q) => solids_hang_from_the_nearest(nodes, names, q, (steps - 1) as nat),
            None => {},
        }
    }
}

proof fn last_is_found(nodes: Seq<NodeView>, name: Seq<char>, n: int, i: int)
    requires
        0 <= i < n <= nodes.len(),
        nodes[i].name == name,
        forall|l: int| i < l < n ==> (#[trigger] nodes[l]).name != name,
    ensures
        last_node(nodes, name, n) == Some(i),
    decreases n,
{
    if n - 1 > i {
        last_is_found(nodes, name, n - 1, i);
    }
}

proof fn number_is_found(nodes: Seq<NodeView>, index: i32, n: int, i: int)
    requires
        0 <= i < n <= nodes.len(),
        nodes[i].index == index,
        forall|l: int| i < l < n ==> (#[trigger] nodes[l]).index != index,
    ensures
        node_with(nodes, index, n) == Some(i),
    decreases n,
{
    if n - 1 > i {
        number_is_found(nodes, index, n - 1, i);
    }
}

/// The parent of a bone is the bone whose number it gives.
pub proof fn parents_are_given_by_number(nodes: Seq<NodeView>, i: int, k: int)
    requires
        0 <= i < nodes.len(),
        0 <= k < nodes.len(),
        nodes[i].parent >= 0,
        nodes[i].parent == nodes[k].index,
        forall|l: int, m: int|
            0 <= l < m < nodes.len() ==> (#[trigger] nodes[l]).name != (#[trigger] nodes[m]).name
                && nodes[l].index != nodes[m].index,
    ensures
        parent_name(nodes, nodes[i].name) == Some(nodes[k].name),
        index_named(nodes, nodes[i].name) == Some(nodes[i].index),
{
    last_is_found(nodes, nodes[i].name, nodes.len() as int, i);
    number_is_found(nodes, nodes[i].parent, nodes.len() as int, k);
}

} // verus!
