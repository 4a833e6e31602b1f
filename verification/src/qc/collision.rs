//! Commands that say how the model collides.
use vstd::prelude::*;

use super::error::QcError;
use super::lexer::{left, Lexer, Token, TokenView};
use super::model::{
    AnimatedFrictionSpec, JointConstraintSpec, JointConstraintSpecView, JointOverride,
    JointOverrideView, ModelDescView, Pair, Physics, PhysicsView, Script, ScriptView,
};
use super::read::{
    any_token, around, deeper, error_for, f, fail_at, given_back, i, int_on, into, left_at, more,
    num, obeyed, out_of, put_around, read_word, shallower, tok, token, v3, vector, went_on, word,
    At,
};
use super::settings::{f_if, num_if, read_pair, resolve_src, resolved, two_words};
use crate::seqs::{viewed, viewing};
use crate::text::{cut_first, first_is, lower, lowered, same, same_but_case};

verus! {

broadcast use viewing;

/// The first joint with the given name, in any ASCII case, from `i` on.
pub open spec fn find_override(list: Seq<JointOverrideView>, name: Seq<char>, i: int) -> Option<int>
    decreases list.len() - i,
{
    if i < 0 || i >= list.len() {
        None
    } else if lower(list[i].bone) == lower(name) {
        Some(i)
    } else {
        find_override(list, name, i + 1)
    }
}

/// The first joint with the given name, in any ASCII case.
pub fn override_index(list: &Vec<JointOverride>, name: &str) -> (r: Option<usize>)
    ensures
        match r {
            Some(i) => i < list@.len() && find_override(viewed(list@), name@, 0) == Some(i as int),
            None => find_override(viewed(list@), name@, 0) is None,
        },
{
    let mut i: usize = 0;
    while i < list.len()
        invariant
            i <= list@.len(),
            find_override(viewed(list@), name@, i as int) == find_override(viewed(list@), name@, 0),
        decreases list@.len() - i,
    {
        assert(viewed(list@)[i as int] == list@[i as int]@);
        if same_but_case(list[i].bone.as_str(), name) {
            return Some(i);
        }
        i = i + 1;
    }
    None
}

/// What a joint has of its own, with one number set.
pub open spec fn override_set(o: JointOverrideView, key: Seq<char>, v: u32) -> JointOverrideView {
    if key == "jointdamping"@ {
        JointOverrideView { damping: Some(v), ..o }
    } else if key == "jointrotdamping"@ {
        JointOverrideView { rot_damping: Some(v), ..o }
    } else if key == "jointinertia"@ {
        JointOverrideView { inertia: Some(v), ..o }
    } else if key == "jointmassbias"@ {
        JointOverrideView { mass_bias: Some(v), ..o }
    } else {
        o
    }
}

/// What joints have of their own, with a joint of that name.
pub open spec fn with_joint(list: Seq<JointOverrideView>, bone: Seq<char>) -> (
    Seq<JointOverrideView>,
    int,
) {
    match find_override(list, bone, 0) {
        Some(i) => (list, i),
        None => (
            list.push(
                JointOverrideView {
                    bone,
                    damping: None,
                    rot_damping: None,
                    inertia: None,
                    mass_bias: None,
                },
            ),
            list.len() as int,
        ),
    }
}

/// What a joint has of its own.
pub open spec fn joint_override(p: PhysicsView, key: Seq<char>, s: At) -> (PhysicsView, At) {
    let (bone, s) = word(s);
    let (v, s) = num(s);
    let (list, i) = with_joint(p.joint_overrides, bone);
    (PhysicsView { joint_overrides: list.update(i, override_set(list[i], key, v)), ..p }, s)
}

/// Sets one number of what a joint has of its own.
fn set_override(list: &mut Vec<JointOverride>, i: usize, key: &str, v: u32)
    requires
        i < old(list)@.len(),
    ensures
        viewed(final(list)@) == viewed(old(list)@).update(
            i as int,
            override_set(viewed(old(list)@)[i as int], key@, v),
        ),
{
    let ghost before = viewed(list@);
    if same(key, "jointdamping") {
        list[i].damping = Some(v);
    } else if same(key, "jointrotdamping") {
        list[i].rot_damping = Some(v);
    } else if same(key, "jointinertia") {
        list[i].inertia = Some(v);
    } else if same(key, "jointmassbias") {
        list[i].mass_bias = Some(v);
    }
    assert(viewed(list@) =~= before.update(i as int, override_set(before[i as int], key@, v)));
}

/// Reads what a joint has of its own.
fn joint_override_key(lex: &mut Lexer, d: &mut Physics, key: &str) -> (r: Result<(), QcError>)
    requires
        old(lex).wf(),
    ensures
        final(lex).wf(),
        obeyed(r, final(lex)@, final(d)@, joint_override(old(d)@, key@, Ok(old(lex)@))),
        left(final(lex)@) <= left(old(lex)@),
{
    let bone: String = match read_word(lex) {
        Ok(v) => v,
        Err(e) => {
            return Err(e);
        },
    };
    let v: u32 = match f(lex) {
        Ok(v) => v,
        Err(e) => {
            return Err(e);
        },
    };
    let at: usize = match override_index(&d.joint_overrides, bone.as_str()) {
        Some(at) => at,
        None => {
            let n: usize = d.joint_overrides.len();
            d.joint_overrides.push(
                JointOverride {
                    bone,
                    damping: None,
                    rot_damping: None,
                    inertia: None,
                    mass_bias: None,
                },
            );
            n
        },
    };
    set_override(&mut d.joint_overrides, at, key, v);
    Ok(())
}

/// A limit on a joint.
pub open spec fn jointconstrain(p: PhysicsView, s: At) -> (PhysicsView, At) {
    let (bone, s) = word(s);
    let (axis, s) = word(s);
    let (kind, s) = word(s);
    let (min, s) = num(s);
    let (max, s) = num(s);
    let (friction, s) = num_if(s);
    (
        PhysicsView {
            constraints: p.constraints.push(
                JointConstraintSpecView { bone, axis, kind, min, max, friction },
            ),
            ..p
        },
        s,
    )
}

/// Adds a limit on a joint. Without a friction it is 0.
pub fn cmd_jointconstrain(lex: &mut Lexer, d: &mut Physics) -> (r: Result<(), QcError>)
    requires
        old(lex).wf(),
    ensures
        final(lex).wf(),
        obeyed(r, final(lex)@, final(d)@, jointconstrain(old(d)@, Ok(old(lex)@))),
        left(final(lex)@) <= left(old(lex)@),
{
    let bone: String = match read_word(lex) {
        Ok(v) => v,
        Err(e) => {
            return Err(e);
        },
    };
    let axis: String = match read_word(lex) {
        Ok(v) => v,
        Err(e) => {
            return Err(e);
        },
    };
    let kind: String = match read_word(lex) {
        Ok(v) => v,
        Err(e) => {
            return Err(e);
        },
    };
    let min: u32 = match f(lex) {
        Ok(v) => v,
        Err(e) => {
            return Err(e);
        },
    };
    let max: u32 = match f(lex) {
        Ok(v) => v,
        Err(e) => {
            return Err(e);
        },
    };
    let friction: u32 = match f_if(lex) {
        Ok(v) => v,
        Err(e) => {
            return Err(e);
        },
    };
    d.constraints.push(JointConstraintSpec { bone, axis, kind, min, max, friction });
    Ok(())
}

/// How friction changes under animation: the least and the greatest, and the times in which it
/// sets in, holds and wears off.
pub open spec fn animatedfriction(p: PhysicsView, s: At) -> (PhysicsView, At) {
    let (min, s) = int_on(s);
    let (max, s) = int_on(s);
    let (time_in, s) = num(s);
    let (time_hold, s) = num(s);
    let (time_out, s) = num(s);
    (
        PhysicsView {
            animated_friction: Some(
                AnimatedFrictionSpec { min, max, time_in, time_out, time_hold },
            ),
            ..p
        },
        s,
    )
}

/// Sets how friction changes under animation.
pub fn cmd_animatedfriction(lex: &mut Lexer, d: &mut Physics) -> (r: Result<(), QcError>)
    requires
        old(lex).wf(),
    ensures
        final(lex).wf(),
        obeyed(r, final(lex)@, final(d)@, animatedfriction(old(d)@, Ok(old(lex)@))),
        left(final(lex)@) <= left(old(lex)@),
{
    let min: i32 = match i(lex) {
        Ok(v) => v,
        Err(e) => {
            return Err(e);
        },
    };
    let max: i32 = match i(lex) {
        Ok(v) => v,
        Err(e) => {
            return Err(e);
        },
    };
    let time_in: u32 = match f(lex) {
        Ok(v) => v,
        Err(e) => {
            return Err(e);
        },
    };
    let time_hold: u32 = match f(lex) {
        Ok(v) => v,
        Err(e) => {
            return Err(e);
        },
    };
    let time_out: u32 = match f(lex) {
        Ok(v) => v,
        Err(e) => {
            return Err(e);
        },
    };
    d.animated_friction = Some(AnimatedFrictionSpec { min, max, time_in, time_out, time_hold });
    Ok(())
}

/// Two solids that are merged, or that collide.
pub open spec fn collision_pair(p: PhysicsView, merge: bool, s: At) -> (PhysicsView, At) {
    let (pair, s) = two_words(s);
    (
        if merge {
            PhysicsView { merge: p.merge.push(pair), ..p }
        } else {
            PhysicsView { collision_pairs: p.collision_pairs.push(pair), ..p }
        },
        s,
    )
}

/// Adds two solids that are merged, or that collide.
pub fn cmd_collision_pair(lex: &mut Lexer, d: &mut Physics, merge: bool) -> (r: Result<
    (),
    QcError,
>)
    requires
        old(lex).wf(),
    ensures
        final(lex).wf(),
        obeyed(r, final(lex)@, final(d)@, collision_pair(old(d)@, merge, Ok(old(lex)@))),
        left(final(lex)@) <= left(old(lex)@),
{
    let p: Pair = match read_pair(lex) {
        Ok(v) => v,
        Err(e) => {
            return Err(e);
        },
    };
    if merge {
        d.merge.push(p);
    } else {
        d.collision_pairs.push(p);
    }
    Ok(())
}

/// Whether a key stands for itself and changes nothing.
pub open spec fn is_idle_key(key: Seq<char>) -> bool {
    key == "weldposition"@ || key == "weldnormal"@ || key == "remove2d"@ || key == "polysoup"@
        || key == "assumeworldspace"@ || key == "concaveperjoint"@ || key
        == "snapcollisionjoints"@ || key == "preservetriangleorder"@
}

/// Tells whether a key stands for itself and changes nothing.
fn idle_key(key: &str) -> (r: bool)
    ensures
        r == is_idle_key(key@),
{
    same(key, "weldposition") || same(key, "weldnormal") || same(key, "remove2d") || same(
        key,
        "polysoup",
    ) || same(key, "assumeworldspace") || same(key, "concaveperjoint") || same(
        key,
        "snapcollisionjoints",
    ) || same(key, "preservetriangleorder")
}

/// Whether a key belongs to one joint.
pub open spec fn is_joint_key(key: Seq<char>) -> bool {
    key == "jointskip"@ || key == "jointmassbias"@ || key == "jointdamping"@ || key
        == "jointrotdamping"@ || key == "jointinertia"@
}

/// Tells whether a key belongs to one joint.
fn joint_key(key: &str) -> (r: bool)
    ensures
        r == is_joint_key(key@),
{
    same(key, "jointskip") || same(key, "jointmassbias") || same(key, "jointdamping") || same(
        key,
        "jointrotdamping",
    ) || same(key, "jointinertia")
}

/// Whether a key has one number or says one thing, in a block and outside.
pub open spec fn is_plain_key(key: Seq<char>) -> bool {
    key == "mass"@ || key == "concave"@ || key == "damping"@ || key == "rotdamping"@ || key
        == "inertia"@ || key == "drag"@ || key == "rootbone"@ || key == "automass"@ || key
        == "masscenter"@ || key == "phyname"@ || key == "maxconvexpieces"@
}

/// Tells whether a key has one number or says one thing.
pub fn plain_key(key: &str) -> (r: bool)
    ensures
        r == is_plain_key(key@),
{
    same(key, "mass") || same(key, "concave") || same(key, "damping") || same(key, "rotdamping")
        || same(key, "inertia") || same(key, "drag") || same(key, "rootbone") || same(
        key,
        "automass",
    ) || same(key, "masscenter") || same(key, "phyname") || same(key, "maxconvexpieces")
}

/// What a plain key sets.
pub open spec fn physics_kv(p: PhysicsView, key: Seq<char>, s: At) -> (PhysicsView, At) {
    if key == "mass"@ {
        let (v, s) = num(s);
        (PhysicsView { mass: Some(v), ..p }, s)
    } else if key == "damping"@ {
        let (v, s) = num(s);
        (PhysicsView { damping: Some(v), ..p }, s)
    } else if key == "rotdamping"@ {
        let (v, s) = num(s);
        (PhysicsView { rot_damping: Some(v), ..p }, s)
    } else if key == "inertia"@ {
        let (v, s) = num(s);
        (PhysicsView { inertia: Some(v), ..p }, s)
    } else if key == "drag"@ {
        let (v, s) = num(s);
        (PhysicsView { drag: Some(v), ..p }, s)
    } else if key == "rootbone"@ {
        let (b, s) = word(s);
        (PhysicsView { root_bone: Some(b), ..p }, s)
    } else if key == "concave"@ {
        (PhysicsView { concave: true, ..p }, s)
    } else if key == "automass"@ {
        (PhysicsView { auto_mass: true, ..p }, s)
    } else if key == "masscenter"@ {
        let (v, s) = vector(s);
        (PhysicsView { mass_center: Some(v), ..p }, s)
    } else if key == "maxconvexpieces"@ {
        (p, int_on(s).1)
    } else if key == "phyname"@ {
        (p, word(s).1)
    } else {
        (p, s)
    }
}

/// Sets what a plain key sets.
pub fn cmd_physics_kv(lex: &mut Lexer, d: &mut Physics, key: &str) -> (r: Result<(), QcError>)
    requires
        old(lex).wf(),
    ensures
        final(lex).wf(),
        obeyed(r, final(lex)@, final(d)@, physics_kv(old(d)@, key@, Ok(old(lex)@))),
        left(final(lex)@) <= left(old(lex)@),
{
    if same(key, "mass") {
        d.mass = match f(lex) {
            Ok(v) => Some(v),
            Err(e) => {
                return Err(e);
            },
        };
    } else if same(key, "damping") {
        d.damping = match f(lex) {
            Ok(v) => Some(v),
            Err(e) => {
                return Err(e);
            },
        };
    } else if same(key, "rotdamping") {
        d.rot_damping = match f(lex) {
            Ok(v) => Some(v),
            Err(e) => {
                return Err(e);
            },
        };
    } else if same(key, "inertia") {
        d.inertia = match f(lex) {
            Ok(v) => Some(v),
            Err(e) => {
                return Err(e);
            },
        };
    } else if same(key, "drag") {
        d.drag = match f(lex) {
            Ok(v) => Some(v),
            Err(e) => {
                return Err(e);
            },
        };
    } else if same(key, "rootbone") {
        d.root_bone = match read_word(lex) {
            Ok(v) => Some(v),
            Err(e) => {
                return Err(e);
            },
        };
    } else if same(key, "concave") {
        d.concave = true;
    } else if same(key, "automass") {
        d.auto_mass = true;
    } else if same(key, "masscenter") {
        d.mass_center = match v3(lex) {
            Ok(v) => Some(v),
            Err(e) => {
                return Err(e);
            },
        };
    } else if same(key, "maxconvexpieces") {
        match i(lex) {
            Ok(_) => {},
            Err(e) => {
                return Err(e);
            },
        }
    } else if same(key, "phyname") {
        match read_word(lex) {
            Ok(_) => {},
            Err(e) => {
                return Err(e);
            },
        }
    }
    Ok(())
}

/// A key without the mark that commands start with.
pub open spec fn bare_key(low: Seq<char>) -> Seq<char> {
    if low.len() > 0 && low[0] == '$' {
        low.skip(1)
    } else {
        low
    }
}

/// What a key in a block sets.
pub open spec fn collision_key(p: PhysicsView, t: TokenView, s: At) -> (PhysicsView, At) {
    let key = bare_key(lower(t.text));
    if is_plain_key(key) {
        physics_kv(p, key, s)
    } else if key == "noselfcollisions"@ {
        (PhysicsView { no_self_collisions: true, ..p }, s)
    } else if key == "jointmerge"@ {
        collision_pair(p, true, s)
    } else if key == "jointcollide"@ {
        collision_pair(p, false, s)
    } else if key == "jointconstrain"@ {
        jointconstrain(p, s)
    } else if key == "animatedfriction"@ {
        animatedfriction(p, s)
    } else if key == "rollingdrag"@ {
        (p, num(s).1)
    } else if is_idle_key(key) {
        (p, s)
    } else if is_joint_key(key) {
        joint_override(p, key, s)
    } else {
        (p, fail_at(s, t, around("未知的碰撞块子键 "@, key, ""@)))
    }
}

/// Sets what a key in a block sets.
fn physics_subkey(lex: &mut Lexer, d: &mut Physics, t: &Token) -> (r: Result<(), QcError>)
    requires
        old(lex).wf(),
    ensures
        final(lex).wf(),
        obeyed(r, final(lex)@, final(d)@, collision_key(old(d)@, t@, Ok(old(lex)@))),
        left(final(lex)@) <= left(old(lex)@),
{
    let low: String = lowered(t.text.as_str());
    let key: String = if first_is(low.as_str(), '$') {
        cut_first(low.as_str())
    } else {
        low
    };
    if plain_key(key.as_str()) {
        cmd_physics_kv(lex, d, key.as_str())
    } else if same(key.as_str(), "noselfcollisions") {
        d.no_self_collisions = true;
        Ok(())
    } else if same(key.as_str(), "jointmerge") {
        cmd_collision_pair(lex, d, true)
    } else if same(key.as_str(), "jointcollide") {
        cmd_collision_pair(lex, d, false)
    } else if same(key.as_str(), "jointconstrain") {
        cmd_jointconstrain(lex, d)
    } else if same(key.as_str(), "animatedfriction") {
        cmd_animatedfriction(lex, d)
    } else if same(key.as_str(), "rollingdrag") {
        match f(lex) {
            Ok(_) => {},
            Err(e) => {
                return Err(e);
            },
        }
        Ok(())
    } else if idle_key(key.as_str()) {
        Ok(())
    } else if joint_key(key.as_str()) {
        joint_override_key(lex, d, key.as_str())
    } else {
        Err(error_for(t, put_around("未知的碰撞块子键 ", key.as_str(), "")))
    }
}

/// What a block sets, from the given depth on.
pub open spec fn collision_keys(p: PhysicsView, depth: int, s: At) -> (PhysicsView, At)
    decreases left_at(s),
{
    if depth <= 0 {
        (p, s)
    } else {
        let (t, n) = any_token(s);
        match t {
            None => (p, n),
            Some(t) => {
                let inner = if t.text == "{"@ {
                    deeper(depth)
                } else if t.text == "}"@ {
                    shallower(depth)
                } else {
                    depth
                };
                let (p, n) = if t.text == "{"@ || t.text == "}"@ {
                    (p, n)
                } else {
                    collision_key(p, t, n)
                };
                if went_on(n, s) {
                    collision_keys(p, inner, n)
                } else {
                    (p, n)
                }
            },
        }
    }
}

/// Sets what a block sets.
fn read_collision_keys(lex: &mut Lexer, d: &mut Physics) -> (r: Result<(), QcError>)
    requires
        old(lex).wf(),
    ensures
        final(lex).wf(),
        obeyed(r, final(lex)@, final(d)@, collision_keys(old(d)@, 1, Ok(old(lex)@))),
        left(final(lex)@) <= left(old(lex)@),
{
    let mut depth: i32 = 1;
    while depth > 0
        invariant
            lex.wf(),
            left(lex@) <= left(old(lex)@),
            collision_keys(d@, depth as int, Ok(lex@)) == collision_keys(
                old(d)@,
                1,
                Ok(old(lex)@),
            ),
        decreases left(lex@),
    {
        let next: Option<Token> = match lex.next_token(true) {
            Ok(v) => v,
            Err(e) => {
                return Err(e);
            },
        };
        let t: Token = match next {
            Some(t) => t,
            None => {
                return Ok(());
            },
        };
        proof {
            reveal_strlit("{");
            reveal_strlit("}");
            assert("{"@[0] != "}"@[0]);
        }
        if same(t.text.as_str(), "{") {
            depth = into(depth);
        } else if same(t.text.as_str(), "}") {
            depth = out_of(depth);
        } else {
            match physics_subkey(lex, d, &t) {
                Ok(_) => {},
                Err(e) => {
                    return Err(e);
                },
            }
        }
    }
    Ok(())
}

/// A collision mesh, and what its block sets.
pub open spec fn collisionmodel(d: ScriptView, joints: bool, s: At) -> (ScriptView, At) {
    let (name, s) = word(s);
    let smd = resolved(d, name);
    let p = PhysicsView { smd: Some(smd), joints, ..d.desc.physics };
    let (p, s) = if more(s) {
        let (t, s) = token(s, false);
        if t.text == "{"@ {
            collision_keys(p, 1, s)
        } else {
            (p, given_back(s, t))
        }
    } else {
        (p, s)
    };
    (
        ScriptView {
            desc: ModelDescView { physics: p, ..d.desc },
            referenced_files: d.referenced_files.push(smd),
            ..d
        },
        s,
    )
}

/// Sets a collision mesh.
pub fn cmd_collisionmodel(lex: &mut Lexer, d: &mut Script, joints: bool) -> (r: Result<
    (),
    QcError,
>)
    requires
        old(lex).wf(),
    ensures
        final(lex).wf(),
        obeyed(r, final(lex)@, final(d)@, collisionmodel(old(d)@, joints, Ok(old(lex)@))),
        left(final(lex)@) <= left(old(lex)@),
{
    let name: String = match read_word(lex) {
        Ok(v) => v,
        Err(e) => {
            return Err(e);
        },
    };
    let smd: String = resolve_src(d, name.as_str());
    d.desc.physics.smd = Some(smd.clone());
    d.referenced_files.push(smd);
    d.desc.physics.joints = joints;
    if lex.token_available() {
        let ghost before = lex@;
        let t: Token = match tok(lex, false) {
            Ok(v) => v,
            Err(e) => {
                return Err(e);
            },
        };
        if same(t.text.as_str(), "{") {
            match read_collision_keys(lex, &mut d.desc.physics) {
                Ok(_) => {},
                Err(e) => {
                    return Err(e);
                },
            }
        } else {
            proof {
                super::lexer::next_leaves_less(before, false);
            }
            lex.unget(t);
        }
    }
    Ok(())
}

} // verus!
