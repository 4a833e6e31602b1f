//! Bones that wobble.
use vstd::prelude::*;

use super::error::{ErrorView, QcError};
use super::lexer::{left, LexState, Lexer, Token};
use super::model::{
    Angles, JiggleBaseSpring, JiggleBone, JiggleBoneView, JiggleFlexible, JiggleRigid,
    ModelDescView, Script, ScriptView,
};
use super::read::{
    any_token, deeper, f, into, left_at, num, obeyed, out_of, read_word, shallower, tok, token,
    went_on, word, At,
};
use crate::arith::{radians, to_radians};
use crate::seqs::viewing;
use crate::text::{lower, lowered, same};

verus! {

broadcast use viewing;

/// Whether a key has one number.
pub open spec fn is_scalar(key: Seq<char>) -> bool {
    key == "length"@
        || key == "tip_mass"@
        || key == "yaw_stiffness"@
        || key == "yaw_damping"@
        || key == "pitch_stiffness"@
        || key == "pitch_damping"@
        || key == "along_stiffness"@
        || key == "along_damping"@
        || key == "angle_constraint"@
        || key == "yaw_friction"@
        || key == "yaw_bounce"@
        || key == "pitch_friction"@
        || key == "pitch_bounce"@
        || key == "base_mass"@
        || key == "base_stiffness"@
        || key == "base_damping"@
        || key == "base_left_friction"@
        || key == "base_up_friction"@
        || key == "base_forward_friction"@
}

/// Whether a key has one number.
fn scalar_key(key: &str) -> (r: bool)
    ensures
        r == is_scalar(key@),
{
    same(key, "length")
        || same(key, "tip_mass")
        || same(key, "yaw_stiffness")
        || same(key, "yaw_damping")
        || same(key, "pitch_stiffness")
        || same(key, "pitch_damping")
        || same(key, "along_stiffness")
        || same(key, "along_damping")
        || same(key, "angle_constraint")
        || same(key, "yaw_friction")
        || same(key, "yaw_bounce")
        || same(key, "pitch_friction")
        || same(key, "pitch_bounce")
        || same(key, "base_mass")
        || same(key, "base_stiffness")
        || same(key, "base_damping")
        || same(key, "base_left_friction")
        || same(key, "base_up_friction")
        || same(key, "base_forward_friction")
}

/// Whether a key has two angles.
pub open spec fn is_pair(key: Seq<char>) -> bool {
    key == "yaw_constraint"@
        || key == "pitch_constraint"@
        || key == "base_left"@
        || key == "base_up"@
        || key == "base_forward"@
}

/// Whether a key has two angles.
fn pair_key(key: &str) -> (r: bool)
    ensures
        r == is_pair(key@),
{
    same(key, "yaw_constraint")
        || same(key, "pitch_constraint")
        || same(key, "base_left")
        || same(key, "base_up")
        || same(key, "base_forward")
}

/// How a bone bends, with one number set.
pub open spec fn flexible_scalar(f: JiggleFlexible, key: Seq<char>, v: u32) -> JiggleFlexible {
    if key == "length"@ {
        JiggleFlexible { length: Some(v), ..f }
    } else if key == "tip_mass"@ {
        JiggleFlexible { tip_mass: Some(v), ..f }
    } else if key == "yaw_stiffness"@ {
        JiggleFlexible { yaw_stiffness: Some(v), ..f }
    } else if key == "yaw_damping"@ {
        JiggleFlexible { yaw_damping: Some(v), ..f }
    } else if key == "pitch_stiffness"@ {
        JiggleFlexible { pitch_stiffness: Some(v), ..f }
    } else if key == "pitch_damping"@ {
        JiggleFlexible { pitch_damping: Some(v), ..f }
    } else if key == "along_stiffness"@ {
        JiggleFlexible { along_stiffness: Some(v), ..f }
    } else if key == "along_damping"@ {
        JiggleFlexible { along_damping: Some(v), ..f }
    } else if key == "yaw_friction"@ {
        JiggleFlexible { yaw_friction: Some(v), ..f }
    } else if key == "yaw_bounce"@ {
        JiggleFlexible { yaw_bounce: Some(v), ..f }
    } else if key == "pitch_friction"@ {
        JiggleFlexible { pitch_friction: Some(v), ..f }
    } else if key == "pitch_bounce"@ {
        JiggleFlexible { pitch_bounce: Some(v), ..f }
    } else {
        f
    }
}

/// How a bone bends, with one number set.
fn set_flexible_scalar(f: JiggleFlexible, key: &str, v: u32) -> (r: JiggleFlexible)
    ensures
        r == flexible_scalar(f, key@, v),
{
    if same(key, "length") {
        JiggleFlexible { length: Some(v), ..f }
    } else if same(key, "tip_mass") {
        JiggleFlexible { tip_mass: Some(v), ..f }
    } else if same(key, "yaw_stiffness") {
        JiggleFlexible { yaw_stiffness: Some(v), ..f }
    } else if same(key, "yaw_damping") {
        JiggleFlexible { yaw_damping: Some(v), ..f }
    } else if same(key, "pitch_stiffness") {
        JiggleFlexible { pitch_stiffness: Some(v), ..f }
    } else if same(key, "pitch_damping") {
        JiggleFlexible { pitch_damping: Some(v), ..f }
    } else if same(key, "along_stiffness") {
        JiggleFlexible { along_stiffness: Some(v), ..f }
    } else if same(key, "along_damping") {
        JiggleFlexible { along_damping: Some(v), ..f }
    } else if same(key, "yaw_friction") {
        JiggleFlexible { yaw_friction: Some(v), ..f }
    } else if same(key, "yaw_bounce") {
        JiggleFlexible { yaw_bounce: Some(v), ..f }
    } else if same(key, "pitch_friction") {
        JiggleFlexible { pitch_friction: Some(v), ..f }
    } else if same(key, "pitch_bounce") {
        JiggleFlexible { pitch_bounce: Some(v), ..f }
    } else {
        f
    }
}

/// How a bone swings, with one number set.
pub open spec fn rigid_scalar(b: JiggleRigid, key: Seq<char>, v: u32) -> JiggleRigid {
    if key == "length"@ {
        JiggleRigid { length: Some(v), ..b }
    } else if key == "tip_mass"@ {
        JiggleRigid { tip_mass: Some(v), ..b }
    } else {
        b
    }
}

/// How a bone swings, with one number set.
fn set_rigid_scalar(b: JiggleRigid, key: &str, v: u32) -> (r: JiggleRigid)
    ensures
        r == rigid_scalar(b, key@, v),
{
    if same(key, "length") {
        JiggleRigid { length: Some(v), ..b }
    } else if same(key, "tip_mass") {
        JiggleRigid { tip_mass: Some(v), ..b }
    } else {
        b
    }
}

/// How a base springs, with one number set.
pub open spec fn spring_scalar(b: JiggleBaseSpring, key: Seq<char>, v: u32) -> JiggleBaseSpring {
    if key == "base_mass"@ {
        JiggleBaseSpring { base_mass: Some(v), ..b }
    } else if key == "base_stiffness"@ {
        JiggleBaseSpring { base_stiffness: Some(v), ..b }
    } else if key == "base_damping"@ {
        JiggleBaseSpring { base_damping: Some(v), ..b }
    } else if key == "base_left_friction"@ {
        JiggleBaseSpring { base_left_friction: Some(v), ..b }
    } else if key == "base_up_friction"@ {
        JiggleBaseSpring { base_up_friction: Some(v), ..b }
    } else if key == "base_forward_friction"@ {
        JiggleBaseSpring { base_forward_friction: Some(v), ..b }
    } else {
        b
    }
}

/// How a base springs, with one number set.
fn set_spring_scalar(b: JiggleBaseSpring, key: &str, v: u32) -> (r: JiggleBaseSpring)
    ensures
        r == spring_scalar(b, key@, v),
{
    if same(key, "base_mass") {
        JiggleBaseSpring { base_mass: Some(v), ..b }
    } else if same(key, "base_stiffness") {
        JiggleBaseSpring { base_stiffness: Some(v), ..b }
    } else if same(key, "base_damping") {
        JiggleBaseSpring { base_damping: Some(v), ..b }
    } else if same(key, "base_left_friction") {
        JiggleBaseSpring { base_left_friction: Some(v), ..b }
    } else if same(key, "base_up_friction") {
        JiggleBaseSpring { base_up_friction: Some(v), ..b }
    } else if same(key, "base_forward_friction") {
        JiggleBaseSpring { base_forward_friction: Some(v), ..b }
    } else {
        b
    }
}

/// Two angles in degrees, in radians.
pub open spec fn in_radians(v: Angles) -> Angles {
    Angles { min: radians(v.min), max: radians(v.max) }
}

/// Two angles in degrees, in radians.
fn turn(v: Angles) -> (r: Angles)
    ensures
        r == in_radians(v),
{
    Angles { min: to_radians(v.min), max: to_radians(v.max) }
}

/// How a bone bends, with two angles set.
pub open spec fn flexible_pair(f: JiggleFlexible, key: Seq<char>, v: Angles) -> JiggleFlexible {
    if key == "yaw_constraint"@ {
        JiggleFlexible { yaw_constraint: Some(in_radians(v)), ..f }
    } else if key == "pitch_constraint"@ {
        JiggleFlexible { pitch_constraint: Some(in_radians(v)), ..f }
    } else {
        f
    }
}

/// How a bone bends, with two angles set.
fn set_flexible_pair(f: JiggleFlexible, key: &str, v: Angles) -> (r: JiggleFlexible)
    ensures
        r == flexible_pair(f, key@, v),
{
    if same(key, "yaw_constraint") {
        JiggleFlexible { yaw_constraint: Some(turn(v)), ..f }
    } else if same(key, "pitch_constraint") {
        JiggleFlexible { pitch_constraint: Some(turn(v)), ..f }
    } else {
        f
    }
}

/// How a base springs, with two angles set.
pub open spec fn spring_pair(b: JiggleBaseSpring, key: Seq<char>, v: Angles) -> JiggleBaseSpring {
    if key == "base_left"@ {
        JiggleBaseSpring { base_left: Some(in_radians(v)), ..b }
    } else if key == "base_up"@ {
        JiggleBaseSpring { base_up: Some(in_radians(v)), ..b }
    } else if key == "base_forward"@ {
        JiggleBaseSpring { base_forward: Some(in_radians(v)), ..b }
    } else {
        b
    }
}

/// How a base springs, with two angles set.
fn set_spring_pair(b: JiggleBaseSpring, key: &str, v: Angles) -> (r: JiggleBaseSpring)
    ensures
        r == spring_pair(b, key@, v),
{
    if same(key, "base_left") {
        JiggleBaseSpring { base_left: Some(turn(v)), ..b }
    } else if same(key, "base_up") {
        JiggleBaseSpring { base_up: Some(turn(v)), ..b }
    } else if same(key, "base_forward") {
        JiggleBaseSpring { base_forward: Some(turn(v)), ..b }
    } else {
        b
    }
}

/// A bone that wobbles with one number set: how it bends or else how it swings, and how its base
/// springs.
pub open spec fn jiggle_scalar(jb: JiggleBoneView, key: Seq<char>, v: u32) -> JiggleBoneView {
    let is_flexible = match jb.is_flexible {
        Some(f) => Some(
            if key == "angle_constraint"@ {
                JiggleFlexible { angle_constraint: Some(radians(v)), ..f }
            } else {
                flexible_scalar(f, key, v)
            },
        ),
        None => None,
    };
    let is_rigid = match (jb.is_flexible, jb.is_rigid) {
        (None, Some(b)) => Some(
            if key == "angle_constraint"@ {
                JiggleRigid { angle_constraint: Some(radians(v)), ..b }
            } else {
                rigid_scalar(b, key, v)
            },
        ),
        (_, b) => b,
    };
    let has_base_spring = match jb.has_base_spring {
        Some(b) => Some(spring_scalar(b, key, v)),
        None => None,
    };
    JiggleBoneView { is_flexible, is_rigid, has_base_spring, ..jb }
}

/// Sets one number.
fn set_jiggle_scalar(jb: &mut JiggleBone, key: &str, v: u32)
    ensures
        final(jb)@ == jiggle_scalar(old(jb)@, key@, v),
{
    match (jb.is_flexible, jb.is_rigid) {
        (Some(f), _) => {
            jb.is_flexible = Some(
                if same(key, "angle_constraint") {
                    JiggleFlexible { angle_constraint: Some(to_radians(v)), ..f }
                } else {
                    set_flexible_scalar(f, key, v)
                },
            );
        },
        (None, Some(b)) => {
            jb.is_rigid = Some(
                if same(key, "angle_constraint") {
                    JiggleRigid { angle_constraint: Some(to_radians(v)), ..b }
                } else {
                    set_rigid_scalar(b, key, v)
                },
            );
        },
        _ => {},
    }
    if let Some(b) = jb.has_base_spring {
        jb.has_base_spring = Some(set_spring_scalar(b, key, v));
    }
}

/// A bone that wobbles with two angles set.
pub open spec fn jiggle_pair(jb: JiggleBoneView, key: Seq<char>, v: Angles) -> JiggleBoneView {
    let is_flexible = match jb.is_flexible {
        Some(f) => Some(flexible_pair(f, key, v)),
        None => None,
    };
    let has_base_spring = match jb.has_base_spring {
        Some(b) => Some(spring_pair(b, key, v)),
        None => None,
    };
    JiggleBoneView { is_flexible, has_base_spring, ..jb }
}

/// Sets two angles.
fn set_jiggle_pair(jb: &mut JiggleBone, key: &str, v: Angles)
    ensures
        final(jb)@ == jiggle_pair(old(jb)@, key@, v),
{
    if let Some(f) = jb.is_flexible {
        jb.is_flexible = Some(set_flexible_pair(f, key, v));
    }
    if let Some(b) = jb.has_base_spring {
        jb.has_base_spring = Some(set_spring_pair(b, key, v));
    }
}

/// Nothing set of how a bone bends.
pub open spec fn no_flexible() -> JiggleFlexible {
    JiggleFlexible {
        length: None,
        tip_mass: None,
        yaw_stiffness: None,
        yaw_damping: None,
        pitch_stiffness: None,
        pitch_damping: None,
        along_stiffness: None,
        along_damping: None,
        angle_constraint: None,
        yaw_constraint: None,
        yaw_friction: None,
        yaw_bounce: None,
        pitch_constraint: None,
        pitch_friction: None,
        pitch_bounce: None,
        allow_length_flex: false,
    }
}

/// Nothing set of how a bone swings.
pub open spec fn no_rigid() -> JiggleRigid {
    JiggleRigid { length: None, tip_mass: None, angle_constraint: None }
}

/// Nothing set of how a base springs.
pub open spec fn no_spring() -> JiggleBaseSpring {
    JiggleBaseSpring {
        base_mass: None,
        base_stiffness: None,
        base_damping: None,
        base_left: None,
        base_left_friction: None,
        base_up: None,
        base_up_friction: None,
        base_forward: None,
        base_forward_friction: None,
    }
}

/// A bone that wobbles, with a block started.
pub open spec fn jiggle_started(jb: JiggleBoneView, block: Seq<char>) -> JiggleBoneView {
    if block == "is_flexible"@ {
        JiggleBoneView { is_flexible: Some(no_flexible()), ..jb }
    } else if block == "is_rigid"@ {
        JiggleBoneView { is_rigid: Some(no_rigid()), ..jb }
    } else if block == "has_base_spring"@ {
        JiggleBoneView { has_base_spring: Some(no_spring()), ..jb }
    } else {
        jb
    }
}

/// Starts a block.
fn start_block(jb: &mut JiggleBone, block: &str)
    ensures
        final(jb)@ == jiggle_started(old(jb)@, block@),
{
    if same(block, "is_flexible") {
        jb.is_flexible = Some(
            JiggleFlexible {
                length: None,
                tip_mass: None,
                yaw_stiffness: None,
                yaw_damping: None,
                pitch_stiffness: None,
                pitch_damping: None,
                along_stiffness: None,
                along_damping: None,
                angle_constraint: None,
                yaw_constraint: None,
                yaw_friction: None,
                yaw_bounce: None,
                pitch_constraint: None,
                pitch_friction: None,
                pitch_bounce: None,
                allow_length_flex: false,
            },
        );
    } else if same(block, "is_rigid") {
        jb.is_rigid = Some(JiggleRigid { length: None, tip_mass: None, angle_constraint: None });
    } else if same(block, "has_base_spring") {
        jb.has_base_spring = Some(
            JiggleBaseSpring {
                base_mass: None,
                base_stiffness: None,
                base_damping: None,
                base_left: None,
                base_left_friction: None,
                base_up: None,
                base_up_friction: None,
                base_forward: None,
                base_forward_friction: None,
            },
        );
    }
}

/// One option in a block of a bone that wobbles.
pub open spec fn jiggle_option(jb: JiggleBoneView, low: Seq<char>, s: At) -> (JiggleBoneView, At) {
    if is_scalar(low) {
        let (v, s) = num(s);
        (jiggle_scalar(jb, low, v), s)
    } else if is_pair(low) {
        let (min, s) = num(s);
        let (max, s) = num(s);
        (jiggle_pair(jb, low, Angles { min, max }), s)
    } else if low == "allow_length_flex"@ {
        (
            JiggleBoneView {
                is_flexible: match jb.is_flexible {
                    Some(f) => Some(JiggleFlexible { allow_length_flex: true, ..f }),
                    None => None,
                },
                ..jb
            },
            s,
        )
    } else {
        (jb, s)
    }
}

/// Reads one option in a block of a bone that wobbles.
fn read_jiggle_option(lex: &mut Lexer, d: &mut JiggleBone, low: &str) -> (r: Result<(), QcError>)
    requires
        old(lex).wf(),
    ensures
        final(lex).wf(),
        obeyed(r, final(lex)@, final(d)@, jiggle_option(old(d)@, low@, Ok(old(lex)@))),
        left(final(lex)@) <= left(old(lex)@),
{
    if scalar_key(low) {
        let v: u32 = match f(lex) {
            Ok(v) => v,
            Err(e) => {
                return Err(e);
            },
        };
        set_jiggle_scalar(d, low, v);
    } else if pair_key(low) {
        let min: u32 = match f(lex) {
            Ok(v) => v,
            Err(e) => {
                return Err(e);
            },
        };
        let max: u32 = match f(lex) {
            Ok(v) => v,
            Err(e) => {
                return Err(e);
            },
        };
        set_jiggle_pair(d, low, Angles { min, max });
    } else if same(low, "allow_length_flex") {
        if let Some(f) = d.is_flexible {
            d.is_flexible = Some(JiggleFlexible { allow_length_flex: true, ..f });
        }
    }
    Ok(())
}

/// The options in a block of a bone that wobbles, from the given depth on.
pub open spec fn jiggle_options(jb: JiggleBoneView, depth: int, s: At) -> (
    JiggleBoneView,
    int,
    At,
)
    decreases left_at(s),
{
    if depth <= 1 {
        (jb, depth, s)
    } else {
        let (t, n) = any_token(s);
        match t {
            None => (jb, depth, n),
            Some(t) => {
                let inner = if t.text == "{"@ {
                    deeper(depth)
                } else if t.text == "}"@ {
                    shallower(depth)
                } else {
                    depth
                };
                let (jb, n) = if t.text == "{"@ || t.text == "}"@ {
                    (jb, n)
                } else {
                    jiggle_option(jb, lower(t.text), n)
                };
                if went_on(n, s) {
                    jiggle_options(jb, inner, n)
                } else {
                    (jb, inner, n)
                }
            },
        }
    }
}

/// Reads the options in a block of a bone that wobbles; the depth behind it is returned.
fn parse_jiggle_sub(lex: &mut Lexer, jb: &mut JiggleBone, start: i32) -> (r: Result<i32, QcError>)
    requires
        old(lex).wf(),
    ensures
        final(lex).wf(),
        ({
            let (b, depth, s) = jiggle_options(old(jb)@, start as int, Ok(old(lex)@));
            match r {
                Ok(x) => final(jb)@ == b && x == depth && s == Ok::<LexState, ErrorView>(
                    final(lex)@,
                ),
                Err(e) => s == Err::<LexState, ErrorView>(e@),
            }
        }),
        left(final(lex)@) <= left(old(lex)@),
{
    let mut depth: i32 = start;
    while depth > 1
        invariant
            lex.wf(),
            left(lex@) <= left(old(lex)@),
            jiggle_options(jb@, depth as int, Ok(lex@)) == jiggle_options(
                old(jb)@,
                start as int,
                Ok(old(lex)@),
            ),
        decreases left(lex@),
    {
        let next: Option<Token> = match lex.next_token(true) {
            Ok(v) => v,
            Err(e) => {
                return Err(e);
            },
        };
        let t: Token = match next {
            Some(t) => t,
            None => {
                return Ok(depth);
            },
        };
        proof {
            reveal_strlit("{");
            reveal_strlit("}");
            assert("{"@[0] != "}"@[0]);
        }
        if same(t.text.as_str(), "{") {
            depth = into(depth);
        } else if same(t.text.as_str(), "}") {
            depth = out_of(depth);
        } else {
            let low: String = lowered(t.text.as_str());
            match read_jiggle_option(lex, jb, low.as_str()) {
                Ok(_) => {},
                Err(e) => {
                    return Err(e);
                },
            }
        }
    }
    Ok(depth)
}

/// The block of a bone that wobbles, from the given depth on. The name before a bracket says what
/// the bracket starts.
pub open spec fn jiggle_block(d: ScriptView, jb: JiggleBoneView, depth: int, s: At) -> (
    ScriptView,
    JiggleBoneView,
    At,
)
    decreases left_at(s),
{
    if depth <= 0 {
        (d, jb, s)
    } else {
        let (t, n) = any_token(s);
        match t {
            None => (d, jb, n),
            Some(t) => if t.text == "{"@ {
                let name = match d.last_block_name {
                    Some(b) => b,
                    None => Seq::empty(),
                };
                let (jb, inner, n) = jiggle_options(jiggle_started(jb, name), deeper(depth), n);
                if went_on(n, s) {
                    jiggle_block(d, jb, inner, n)
                } else {
                    (d, jb, n)
                }
            } else if t.text == "}"@ {
                if went_on(n, s) {
                    jiggle_block(d, jb, shallower(depth), n)
                } else {
                    (d, jb, n)
                }
            } else {
                let d = ScriptView { last_block_name: Some(lower(t.text)), ..d };
                if went_on(n, s) {
                    jiggle_block(d, jb, depth, n)
                } else {
                    (d, jb, n)
                }
            },
        }
    }
}

/// Whether a bracket opens before one closes.
pub open spec fn opened(s: At) -> (bool, At)
    decreases left_at(s),
{
    let (t, n) = token(s, true);
    if t.text == "{"@ {
        (true, n)
    } else if t.text == "}"@ {
        (false, n)
    } else if went_on(n, s) {
        opened(n)
    } else {
        (false, n)
    }
}

/// A bone that wobbles added.
pub open spec fn with_jiggle(d: ScriptView, jb: JiggleBoneView) -> ScriptView {
    ScriptView {
        desc: ModelDescView { jiggle_bones: d.desc.jiggle_bones.push(jb), ..d.desc },
        ..d
    }
}

/// A bone that wobbles.
pub open spec fn jigglebone(d: ScriptView, s: At) -> (ScriptView, At) {
    let (bone, s) = word(s);
    let jb = JiggleBoneView { bone, is_flexible: None, is_rigid: None, has_base_spring: None };
    let (open, s) = opened(s);
    if !open {
        (with_jiggle(d, jb), s)
    } else {
        let (d, jb, s) = jiggle_block(d, jb, 1, s);
        (with_jiggle(d, jb), s)
    }
}

/// Reads until a bracket opens or closes.
fn read_opened(lex: &mut Lexer) -> (r: Result<bool, QcError>)
    requires
        old(lex).wf(),
    ensures
        final(lex).wf(),
        ({
            let (v, s) = opened(Ok(old(lex)@));
            super::read::gave_value(r, final(lex)@, v, s)
        }),
        left(final(lex)@) <= left(old(lex)@),
{
    loop
        invariant
            lex.wf(),
            left(lex@) <= left(old(lex)@),
            opened(Ok(lex@)) == opened(Ok(old(lex)@)),
        decreases left(lex@),
    {
        let t: Token = match tok(lex, true) {
            Ok(v) => v,
            Err(e) => {
                return Err(e);
            },
        };
        if same(t.text.as_str(), "{") {
            return Ok(true);
        }
        if same(t.text.as_str(), "}") {
            return Ok(false);
        }
    }
}

/// Reads the block of a bone that wobbles.
fn read_jiggle_block(lex: &mut Lexer, d: &mut Script, jb: &mut JiggleBone) -> (r: Result<
    (),
    QcError,
>)
    requires
        old(lex).wf(),
    ensures
        final(lex).wf(),
        ({
            let (e, b, s) = jiggle_block(old(d)@, old(jb)@, 1, Ok(old(lex)@));
            obeyed(r, final(lex)@, (final(d)@, final(jb)@), ((e, b), s))
        }),
        left(final(lex)@) <= left(old(lex)@),
{
    let mut depth: i32 = 1;
    while depth > 0
        invariant
            lex.wf(),
            left(lex@) <= left(old(lex)@),
            jiggle_block(d@, jb@, depth as int, Ok(lex@)) == jiggle_block(
                old(d)@,
                old(jb)@,
                1,
                Ok(old(lex)@),
            ),
        decreases left(lex@),
    {
        let next: Option<Token> = match lex.next_token(true) {
            Ok(v) => v,
            Err(e) => {
                return Err(e);
            },
        };
        let t: Token = match next {
            Some(t) => t,
            None => {
                return Ok(());
            },
        };
        if same(t.text.as_str(), "{") {
            match &d.last_block_name {
                Some(b) => {
                    start_block(jb, b.as_str());
                },
                None => {
                    let none: String = String::new();
                    assert(none@ =~= Seq::empty());
                    start_block(jb, none.as_str());
                },
            }
            depth = match parse_jiggle_sub(lex, jb, into(depth)) {
                Ok(v) => v,
                Err(e) => {
                    return Err(e);
                },
            };
        } else if same(t.text.as_str(), "}") {
            depth = out_of(depth);
        } else {
            d.last_block_name = Some(lowered(t.text.as_str()));
        }
    }
    Ok(())
}

/// Adds a bone that wobbles.
pub fn cmd_jigglebone(lex: &mut Lexer, d: &mut Script) -> (r: Result<(), QcError>)
    requires
        old(lex).wf(),
    ensures
        final(lex).wf(),
        obeyed(r, final(lex)@, final(d)@, jigglebone(old(d)@, Ok(old(lex)@))),
        left(final(lex)@) <= left(old(lex)@),
{
    let bone: String = match read_word(lex) {
        Ok(v) => v,
        Err(e) => {
            return Err(e);
        },
    };
    let mut jb: JiggleBone = JiggleBone {
        bone,
        is_flexible: None,
        is_rigid: None,
        has_base_spring: None,
    };
    let open: bool = match read_opened(lex) {
        Ok(v) => v,
        Err(e) => {
            return Err(e);
        },
    };
    if open {
        match read_jiggle_block(lex, d, &mut jb) {
            Ok(_) => {},
            Err(e) => {
                return Err(e);
            },
        }
    }
    d.desc.jiggle_bones.push(jb);
    Ok(())
}

} // verus!
