//! What the numbers of a jiggle bone mean: each key sets its own number and nothing else.
use vstd::prelude::*;

use super::error::ErrorView;
use super::jiggle::{jiggle_option, jiggle_started};
use super::lexer::LexState;
use super::lines::{line_is, n, numbers, read_to_end, read_word};
use super::model::{Angles, JiggleBaseSpring, JiggleBoneView, JiggleFlexible, JiggleRigid};
use crate::arith::radians;

verus! {

/// How the keys of jiggle bones are spelled.
proof fn spelled_for_jiggles()
    ensures
        "length"@.len() == 6,
        "tip_mass"@.len() == 8 && "tip_mass"@[0] == 't',
        "yaw_stiffness"@.len() == 13 && "yaw_stiffness"@[0] == 'y',
        "yaw_damping"@.len() == 11 && "yaw_damping"@[0] == 'y',
        "pitch_stiffness"@.len() == 15 && "pitch_stiffness"@[0] == 'p',
        "pitch_damping"@.len() == 13 && "pitch_damping"@[0] == 'p',
        "along_stiffness"@.len() == 15 && "along_stiffness"@[0] == 'a',
        "along_damping"@.len() == 13 && "along_damping"@[0] == 'a',
        "angle_constraint"@.len() == 16 && "angle_constraint"@[0] == 'a',
        "yaw_friction"@.len() == 12 && "yaw_friction"@[5] == 'r',
        "yaw_bounce"@.len() == 10,
        "pitch_friction"@.len() == 14 && "pitch_friction"@[0] == 'p',
        "pitch_bounce"@.len() == 12 && "pitch_bounce"@[5] == '_',
        "base_mass"@.len() == 9 && "base_mass"@[5] == 'm',
        "base_stiffness"@.len() == 14 && "base_stiffness"@[0] == 'b',
        "base_damping"@.len() == 12 && "base_damping"@[5] == 'd',
        "base_left_friction"@.len() == 18,
        "base_up_friction"@.len() == 16 && "base_up_friction"@[0] == 'b',
        "base_forward_friction"@.len() == 21,
        "yaw_constraint"@.len() == 14 && "yaw_constraint"@[0] == 'y',
        "pitch_constraint"@.len() == 16 && "pitch_constraint"@[0] == 'p',
        "base_left"@.len() == 9 && "base_left"@[5] == 'l',
        "base_up"@.len() == 7,
        "base_forward"@.len() == 12 && "base_forward"@[5] == 'f',
        "allow_length_flex"@.len() == 17,
        "is_flexible"@.len() == 11 && "is_flexible"@[0] == 'i',
        "is_rigid"@.len() == 8 && "is_rigid"@[0] == 'i',
        "has_base_spring"@.len() == 15 && "has_base_spring"@[0] == 'h',
{
    assert("length"@.len() == 6) by {
        reveal_strlit("length");
    }
    assert("tip_mass"@.len() == 8 && "tip_mass"@[0] == 't') by {
        reveal_strlit("tip_mass");
    }
    assert("yaw_stiffness"@.len() == 13 && "yaw_stiffness"@[0] == 'y') by {
        reveal_strlit("yaw_stiffness");
    }
    assert("yaw_damping"@.len() == 11 && "yaw_damping"@[0] == 'y') by {
        reveal_strlit("yaw_damping");
    }
    assert("pitch_stiffness"@.len() == 15 && "pitch_stiffness"@[0] == 'p') by {
        reveal_strlit("pitch_stiffness");
    }
    assert("pitch_damping"@.len() == 13 && "pitch_damping"@[0] == 'p') by {
        reveal_strlit("pitch_damping");
    }
    assert("along_stiffness"@.len() == 15 && "along_stiffness"@[0] == 'a') by {
        reveal_strlit("along_stiffness");
    }
    assert("along_damping"@.len() == 13 && "along_damping"@[0] == 'a') by {
        reveal_strlit("along_damping");
    }
    assert("angle_constraint"@.len() == 16 && "angle_constraint"@[0] == 'a') by {
        reveal_strlit("angle_constraint");
    }
    assert("yaw_friction"@.len() == 12 && "yaw_friction"@[5] == 'r') by {
        reveal_strlit("yaw_friction");
    }
    assert("yaw_bounce"@.len() == 10) by {
        reveal_strlit("yaw_bounce");
    }
    assert("pitch_friction"@.len() == 14 && "pitch_friction"@[0] == 'p') by {
        reveal_strlit("pitch_friction");
    }
    assert("pitch_bounce"@.len() == 12 && "pitch_bounce"@[5] == '_') by {
        reveal_strlit("pitch_bounce");
    }
    assert("base_mass"@.len() == 9 && "base_mass"@[5] == 'm') by {
        reveal_strlit("base_mass");
    }
    assert("base_stiffness"@.len() == 14 && "base_stiffness"@[0] == 'b') by {
        reveal_strlit("base_stiffness");
    }
    assert("base_damping"@.len() == 12 && "base_damping"@[5] == 'd') by {
        reveal_strlit("base_damping");
    }
    assert("base_left_friction"@.len() == 18) by {
        reveal_strlit("base_left_friction");
    }
    assert("base_up_friction"@.len() == 16 && "base_up_friction"@[0] == 'b') by {
        reveal_strlit("base_up_friction");
    }
    assert("base_forward_friction"@.len() == 21) by {
        reveal_strlit("base_forward_friction");
    }
    assert("yaw_constraint"@.len() == 14 && "yaw_constraint"@[0] == 'y') by {
        reveal_strlit("yaw_constraint");
    }
    assert("pitch_constraint"@.len() == 16 && "pitch_constraint"@[0] == 'p') by {
        reveal_strlit("pitch_constraint");
    }
    assert("base_left"@.len() == 9 && "base_left"@[5] == 'l') by {
        reveal_strlit("base_left");
    }
    assert("base_up"@.len() == 7) by {
        reveal_strlit("base_up");
    }
    assert("base_forward"@.len() == 12 && "base_forward"@[5] == 'f') by {
        reveal_strlit("base_forward");
    }
    assert("allow_length_flex"@.len() == 17) by {
        reveal_strlit("allow_length_flex");
    }
    assert("is_flexible"@.len() == 11 && "is_flexible"@[0] == 'i') by {
        reveal_strlit("is_flexible");
    }
    assert("is_rigid"@.len() == 8 && "is_rigid"@[0] == 'i') by {
        reveal_strlit("is_rigid");
    }
    assert("has_base_spring"@.len() == 15 && "has_base_spring"@[0] == 'h') by {
        reveal_strlit("has_base_spring");
    }
}

/// `length` of a flexible bone.
pub proof fn flexible_length(
    jb: JiggleBoneView,
    f: JiggleFlexible,
    st: LexState,
    w: Seq<Seq<char>>,
    end: LexState,
)
    requires
        jb.is_flexible == Some(f),
        jb.is_rigid is None,
        jb.has_base_spring is None,
        line_is(st, w, end),
        w.len() == 1,
        numbers(w, 0, 1),
    ensures
        jiggle_option(jb, "length"@, Ok(st)) == (
            JiggleBoneView {
                is_flexible: Some(JiggleFlexible { length: Some(n(w, 0)), ..f }),
                ..jb
            },
            Ok::<LexState, ErrorView>(end),
        ),
{
    spelled_for_jiggles();
    read_to_end(st, w, end);
    read_word(st, w, end, 0);
}

/// `tip_mass` of a flexible bone.
pub proof fn flexible_tip_mass(
    jb: JiggleBoneView,
    f: JiggleFlexible,
    st: LexState,
    w: Seq<Seq<char>>,
    end: LexState,
)
    requires
        jb.is_flexible == Some(f),
        jb.is_rigid is None,
        jb.has_base_spring is None,
        line_is(st, w, end),
        w.len() == 1,
        numbers(w, 0, 1),
    ensures
        jiggle_option(jb, "tip_mass"@, Ok(st)) == (
            JiggleBoneView {
                is_flexible: Some(JiggleFlexible { tip_mass: Some(n(w, 0)), ..f }),
                ..jb
            },
            Ok::<LexState, ErrorView>(end),
        ),
{
    spelled_for_jiggles();
    read_to_end(st, w, end);
    read_word(st, w, end, 0);
}

/// `yaw_stiffness` of a flexible bone.
pub proof fn flexible_yaw_stiffness(
    jb: JiggleBoneView,
    f: JiggleFlexible,
    st: LexState,
    w: Seq<Seq<char>>,
    end: LexState,
)
    requires
        jb.is_flexible == Some(f),
        jb.is_rigid is None,
        jb.has_base_spring is None,
        line_is(st, w, end),
        w.len() == 1,
        numbers(w, 0, 1),
    ensures
        jiggle_option(jb, "yaw_stiffness"@, Ok(st)) == (
            JiggleBoneView {
                is_flexible: Some(JiggleFlexible { yaw_stiffness: Some(n(w, 0)), ..f }),
                ..jb
            },
            Ok::<LexState, ErrorView>(end),
        ),
{
    spelled_for_jiggles();
    read_to_end(st, w, end);
    read_word(st, w, end, 0);
}

/// `yaw_damping` of a flexible bone.
pub proof fn flexible_yaw_damping(
    jb: JiggleBoneView,
    f: JiggleFlexible,
    st: LexState,
    w: Seq<Seq<char>>,
    end: LexState,
)
    requires
        jb.is_flexible == Some(f),
        jb.is_rigid is None,
        jb.has_base_spring is None,
        line_is(st, w, end),
        w.len() == 1,
        numbers(w, 0, 1),
    ensures
        jiggle_option(jb, "yaw_damping"@, Ok(st)) == (
            JiggleBoneView {
                is_flexible: Some(JiggleFlexible { yaw_damping: Some(n(w, 0)), ..f }),
                ..jb
            },
            Ok::<LexState, ErrorView>(end),
        ),
{
    spelled_for_jiggles();
    read_to_end(st, w, end);
    read_word(st, w, end, 0);
}

/// `pitch_stiffness` of a flexible bone.
pub proof fn flexible_pitch_stiffness(
    jb: JiggleBoneView,
    f: JiggleFlexible,
    st: LexState,
    w: Seq<Seq<char>>,
    end: LexState,
)
    requires
        jb.is_flexible == Some(f),
        jb.is_rigid is None,
        jb.has_base_spring is None,
        line_is(st, w, end),
        w.len() == 1,
        numbers(w, 0, 1),
    ensures
        jiggle_option(jb, "pitch_stiffness"@, Ok(st)) == (
            JiggleBoneView {
                is_flexible: Some(JiggleFlexible { pitch_stiffness: Some(n(w, 0)), ..f }),
                ..jb
            },
            Ok::<LexState, ErrorView>(end),
        ),
{
    spelled_for_jiggles();
    read_to_end(st, w, end);
    read_word(st, w, end, 0);
}

/// `pitch_damping` of a flexible bone.
pub proof fn flexible_pitch_damping(
    jb: JiggleBoneView,
    f: JiggleFlexible,
    st: LexState,
    w: Seq<Seq<char>>,
    end: LexState,
)
    requires
        jb.is_flexible == Some(f),
        jb.is_rigid is None,
        jb.has_base_spring is None,
        line_is(st, w, end),
        w.len() == 1,
        numbers(w, 0, 1),
    ensures
        jiggle_option(jb, "pitch_damping"@, Ok(st)) == (
            JiggleBoneView {
                is_flexible: Some(JiggleFlexible { pitch_damping: Some(n(w, 0)), ..f }),
                ..jb
            },
            Ok::<LexState, ErrorView>(end),
        ),
{
    spelled_for_jiggles();
    read_to_end(st, w, end);
    read_word(st, w, end, 0);
}

/// `along_stiffness` of a flexible bone.
pub proof fn flexible_along_stiffness(
    jb: JiggleBoneView,
    f: JiggleFlexible,
    st: LexState,
    w: Seq<Seq<char>>,
    end: LexState,
)
    requires
        jb.is_flexible == Some(f),
        jb.is_rigid is None,
        jb.has_base_spring is None,
        line_is(st, w, end),
        w.len() == 1,
        numbers(w, 0, 1),
    ensures
        jiggle_option(jb, "along_stiffness"@, Ok(st)) == (
            JiggleBoneView {
                is_flexible: Some(JiggleFlexible { along_stiffness: Some(n(w, 0)), ..f }),
                ..jb
            },
            Ok::<LexState, ErrorView>(end),
        ),
{
    spelled_for_jiggles();
    read_to_end(st, w, end);
    read_word(st, w, end, 0);
}

/// `along_damping` of a flexible bone.
pub proof fn flexible_along_damping(
    jb: JiggleBoneView,
    f: JiggleFlexible,
    st: LexState,
    w: Seq<Seq<char>>,
    end: LexState,
)
    requires
        jb.is_flexible == Some(f),
        jb.is_rigid is None,
        jb.has_base_spring is None,
        line_is(st, w, end),
        w.len() == 1,
        numbers(w, 0, 1),
    ensures
        jiggle_option(jb, "along_damping"@, Ok(st)) == (
            JiggleBoneView {
                is_flexible: Some(JiggleFlexible { along_damping: Some(n(w, 0)), ..f }),
                ..jb
            },
            Ok::<LexState, ErrorView>(end),
        ),
{
    spelled_for_jiggles();
    read_to_end(st, w, end);
    read_word(st, w, end, 0);
}

/// `angle_constraint` of a flexible bone, turned to radians.
pub proof fn flexible_angle_constraint(
    jb: JiggleBoneView,
    f: JiggleFlexible,
    st: LexState,
    w: Seq<Seq<char>>,
    end: LexState,
)
    requires
        jb.is_flexible == Some(f),
        jb.is_rigid is None,
        jb.has_base_spring is None,
        line_is(st, w, end),
        w.len() == 1,
        numbers(w, 0, 1),
    ensures
        jiggle_option(jb, "angle_constraint"@, Ok(st)) == (
            JiggleBoneView {
                is_flexible: Some(JiggleFlexible { angle_constraint: Some(radians(n(w, 0))), ..f }),
                ..jb
            },
            Ok::<LexState, ErrorView>(end),
        ),
{
    spelled_for_jiggles();
    read_to_end(st, w, end);
    read_word(st, w, end, 0);
}

/// `yaw_friction` of a flexible bone.
pub proof fn flexible_yaw_friction(
    jb: JiggleBoneView,
    f: JiggleFlexible,
    st: LexState,
    w: Seq<Seq<char>>,
    end: LexState,
)
    requires
        jb.is_flexible == Some(f),
        jb.is_rigid is None,
        jb.has_base_spring is None,
        line_is(st, w, end),
        w.len() == 1,
        numbers(w, 0, 1),
    ensures
        jiggle_option(jb, "yaw_friction"@, Ok(st)) == (
            JiggleBoneView {
                is_flexible: Some(JiggleFlexible { yaw_friction: Some(n(w, 0)), ..f }),
                ..jb
            },
            Ok::<LexState, ErrorView>(end),
        ),
{
    spelled_for_jiggles();
    read_to_end(st, w, end);
    read_word(st, w, end, 0);
}

/// `yaw_bounce` of a flexible bone.
pub proof fn flexible_yaw_bounce(
    jb: JiggleBoneView,
    f: JiggleFlexible,
    st: LexState,
    w: Seq<Seq<char>>,
    end: LexState,
)
    requires
        jb.is_flexible == Some(f),
        jb.is_rigid is None,
        jb.has_base_spring is None,
        line_is(st, w, end),
        w.len() == 1,
        numbers(w, 0, 1),
    ensures
        jiggle_option(jb, "yaw_bounce"@, Ok(st)) == (
            JiggleBoneView {
                is_flexible: Some(JiggleFlexible { yaw_bounce: Some(n(w, 0)), ..f }),
                ..jb
            },
            Ok::<LexState, ErrorView>(end),
        ),
{
    spelled_for_jiggles();
    read_to_end(st, w, end);
    read_word(st, w, end, 0);
}

/// `pitch_friction` of a flexible bone.
pub proof fn flexible_pitch_friction(
    jb: JiggleBoneView,
    f: JiggleFlexible,
    st: LexState,
    w: Seq<Seq<char>>,
    end: LexState,
)
    requires
        jb.is_flexible == Some(f),
        jb.is_rigid is None,
        jb.has_base_spring is None,
        line_is(st, w, end),
        w.len() == 1,
        numbers(w, 0, 1),
    ensures
        jiggle_option(jb, "pitch_friction"@, Ok(st)) == (
            JiggleBoneView {
                is_flexible: Some(JiggleFlexible { pitch_friction: Some(n(w, 0)), ..f }),
                ..jb
            },
            Ok::<LexState, ErrorView>(end),
        ),
{
    spelled_for_jiggles();
    read_to_end(st, w, end);
    read_word(st, w, end, 0);
}

/// `pitch_bounce` of a flexible bone.
pub proof fn flexible_pitch_bounce(
    jb: JiggleBoneView,
    f: JiggleFlexible,
    st: LexState,
    w: Seq<Seq<char>>,
    end: LexState,
)
    requires
        jb.is_flexible == Some(f),
        jb.is_rigid is None,
        jb.has_base_spring is None,
        line_is(st, w, end),
        w.len() == 1,
        numbers(w, 0, 1),
    ensures
        jiggle_option(jb, "pitch_bounce"@, Ok(st)) == (
            JiggleBoneView {
                is_flexible: Some(JiggleFlexible { pitch_bounce: Some(n(w, 0)), ..f }),
                ..jb
            },
            Ok::<LexState, ErrorView>(end),
        ),
{
    spelled_for_jiggles();
    read_to_end(st, w, end);
    read_word(st, w, end, 0);
}

/// `length` of a rigid bone.
pub proof fn rigid_length(
    jb: JiggleBoneView,
    f: JiggleRigid,
    st: LexState,
    w: Seq<Seq<char>>,
    end: LexState,
)
    requires
        jb.is_rigid == Some(f),
        jb.is_flexible is None,
        jb.has_base_spring is None,
        line_is(st, w, end),
        w.len() == 1,
        numbers(w, 0, 1),
    ensures
        jiggle_option(jb, "length"@, Ok(st)) == (
            JiggleBoneView { is_rigid: Some(JiggleRigid { length: Some(n(w, 0)), ..f }), ..jb },
            Ok::<LexState, ErrorView>(end),
        ),
{
    spelled_for_jiggles();
    read_to_end(st, w, end);
    read_word(st, w, end, 0);
}

/// `tip_mass` of a rigid bone.
pub proof fn rigid_tip_mass(
    jb: JiggleBoneView,
    f: JiggleRigid,
    st: LexState,
    w: Seq<Seq<char>>,
    end: LexState,
)
    requires
        jb.is_rigid == Some(f),
        jb.is_flexible is None,
        jb.has_base_spring is None,
        line_is(st, w, end),
        w.len() == 1,
        numbers(w, 0, 1),
    ensures
        jiggle_option(jb, "tip_mass"@, Ok(st)) == (
            JiggleBoneView { is_rigid: Some(JiggleRigid { tip_mass: Some(n(w, 0)), ..f }), ..jb },
            Ok::<LexState, ErrorView>(end),
        ),
{
    spelled_for_jiggles();
    read_to_end(st, w, end);
    read_word(st, w, end, 0);
}

/// `angle_constraint` of a rigid bone, turned to radians.
pub proof fn rigid_angle_constraint(
    jb: JiggleBoneView,
    f: JiggleRigid,
    st: LexState,
    w: Seq<Seq<char>>,
    end: LexState,
)
    requires
        jb.is_rigid == Some(f),
        jb.is_flexible is None,
        jb.has_base_spring is None,
        line_is(st, w, end),
        w.len() == 1,
        numbers(w, 0, 1),
    ensures
        jiggle_option(jb, "angle_constraint"@, Ok(st)) == (
            JiggleBoneView {
                is_rigid: Some(JiggleRigid { angle_constraint: Some(radians(n(w, 0))), ..f }),
                ..jb
            },
            Ok::<LexState, ErrorView>(end),
        ),
{
    spelled_for_jiggles();
    read_to_end(st, w, end);
    read_word(st, w, end, 0);
}

/// `base_mass` of the spring at the base.
pub proof fn spring_base_mass(
    jb: JiggleBoneView,
    f: JiggleBaseSpring,
    st: LexState,
    w: Seq<Seq<char>>,
    end: LexState,
)
    requires
        jb.has_base_spring == Some(f),
        jb.is_flexible is None,
        jb.is_rigid is None,
        line_is(st, w, end),
        w.len() == 1,
        numbers(w, 0, 1),
    ensures
        jiggle_option(jb, "base_mass"@, Ok(st)) == (
            JiggleBoneView {
                has_base_spring: Some(JiggleBaseSpring { base_mass: Some(n(w, 0)), ..f }),
                ..jb
            },
            Ok::<LexState, ErrorView>(end),
        ),
{
    spelled_for_jiggles();
    read_to_end(st, w, end);
    read_word(st, w, end, 0);
}

/// `base_stiffness` of the spring at the base.
pub proof fn spring_base_stiffness(
    jb: JiggleBoneView,
    f: JiggleBaseSpring,
    st: LexState,
    w: Seq<Seq<char>>,
    end: LexState,
)
    requires
        jb.has_base_spring == Some(f),
        jb.is_flexible is None,
        jb.is_rigid is None,
        line_is(st, w, end),
        w.len() == 1,
        numbers(w, 0, 1),
    ensures
        jiggle_option(jb, "base_stiffness"@, Ok(st)) == (
            JiggleBoneView {
                has_base_spring: Some(JiggleBaseSpring { base_stiffness: Some(n(w, 0)), ..f }),
                ..jb
            },
            Ok::<LexState, ErrorView>(end),
        ),
{
    spelled_for_jiggles();
    read_to_end(st, w, end);
    read_word(st, w, end, 0);
}

/// `base_damping` of the spring at the base.
pub proof fn spring_base_damping(
    jb: JiggleBoneView,
    f: JiggleBaseSpring,
    st: LexState,
    w: Seq<Seq<char>>,
    end: LexState,
)
    requires
        jb.has_base_spring == Some(f),
        jb.is_flexible is None,
        jb.is_rigid is None,
        line_is(st, w, end),
        w.len() == 1,
        numbers(w, 0, 1),
    ensures
        jiggle_option(jb, "base_damping"@, Ok(st)) == (
            JiggleBoneView {
                has_base_spring: Some(JiggleBaseSpring { base_damping: Some(n(w, 0)), ..f }),
                ..jb
            },
            Ok::<LexState, ErrorView>(end),
        ),
{
    spelled_for_jiggles();
    read_to_end(st, w, end);
    read_word(st, w, end, 0);
}

/// `base_left_friction` of the spring at the base.
pub proof fn spring_base_left_friction(
    jb: JiggleBoneView,
    f: JiggleBaseSpring,
    st: LexState,
    w: Seq<Seq<char>>,
    end: LexState,
)
    requires
        jb.has_base_spring == Some(f),
        jb.is_flexible is None,
        jb.is_rigid is None,
        line_is(st, w, end),
        w.len() == 1,
        numbers(w, 0, 1),
    ensures
        jiggle_option(jb, "base_left_friction"@, Ok(st)) == (
            JiggleBoneView {
                has_base_spring: Some(JiggleBaseSpring { base_left_friction: Some(n(w, 0)), ..f }),
                ..jb
            },
            Ok::<LexState, ErrorView>(end),
        ),
{
    spelled_for_jiggles();
    read_to_end(st, w, end);
    read_word(st, w, end, 0);
}

/// `base_up_friction` of the spring at the base.
pub proof fn spring_base_up_friction(
    jb: JiggleBoneView,
    f: JiggleBaseSpring,
    st: LexState,
    w: Seq<Seq<char>>,
    end: LexState,
)
    requires
        jb.has_base_spring == Some(f),
        jb.is_flexible is None,
        jb.is_rigid is None,
        line_is(st, w, end),
        w.len() == 1,
        numbers(w, 0, 1),
    ensures
        jiggle_option(jb, "base_up_friction"@, Ok(st)) == (
            JiggleBoneView {
                has_base_spring: Some(JiggleBaseSpring { base_up_friction: Some(n(w, 0)), ..f }),
                ..jb
            },
            Ok::<LexState, ErrorView>(end),
        ),
{
    spelled_for_jiggles();
    read_to_end(st, w, end);
    read_word(st, w, end, 0);
}

/// `base_forward_friction` of the spring at the base.
pub proof fn spring_base_forward_friction(
    jb: JiggleBoneView,
    f: JiggleBaseSpring,
    st: LexState,
    w: Seq<Seq<char>>,
    end: LexState,
)
    requires
        jb.has_base_spring == Some(f),
        jb.is_flexible is None,
        jb.is_rigid is None,
        line_is(st, w, end),
        w.len() == 1,
        numbers(w, 0, 1),
    ensures
        jiggle_option(jb, "base_forward_friction"@, Ok(st)) == (
            JiggleBoneView {
                has_base_spring: Some(
                    JiggleBaseSpring { base_forward_friction: Some(n(w, 0)), ..f },
                ),
                ..jb
            },
            Ok::<LexState, ErrorView>(end),
        ),
{
    spelled_for_jiggles();
    read_to_end(st, w, end);
    read_word(st, w, end, 0);
}

/// `yaw_constraint` of a flexible bone: the lower bound, then the upper one, turned to radians.
pub proof fn flexible_yaw_constraint(
    jb: JiggleBoneView,
    f: JiggleFlexible,
    st: LexState,
    w: Seq<Seq<char>>,
    end: LexState,
)
    requires
        jb.is_flexible == Some(f),
        jb.is_rigid is None,
        jb.has_base_spring is None,
        line_is(st, w, end),
        w.len() == 2,
        numbers(w, 0, 2),
    ensures
        jiggle_option(jb, "yaw_constraint"@, Ok(st)) == (
            JiggleBoneView {
                is_flexible: Some(
                    JiggleFlexible {
                        yaw_constraint: Some(
                            Angles { min: radians(n(w, 0)), max: radians(n(w, 1)) },
                        ),
                        ..f
                    },
                ),
                ..jb
            },
            Ok::<LexState, ErrorView>(end),
        ),
{
    spelled_for_jiggles();
    read_to_end(st, w, end);
    read_word(st, w, end, 0);
    read_word(st, w, end, 1);
}

/// `pitch_constraint` of a flexible bone: the lower bound, then the upper one, turned to radians.
pub proof fn flexible_pitch_constraint(
    jb: JiggleBoneView,
    f: JiggleFlexible,
    st: LexState,
    w: Seq<Seq<char>>,
    end: LexState,
)
    requires
        jb.is_flexible == Some(f),
        jb.is_rigid is None,
        jb.has_base_spring is None,
        line_is(st, w, end),
        w.len() == 2,
        numbers(w, 0, 2),
    ensures
        jiggle_option(jb, "pitch_constraint"@, Ok(st)) == (
            JiggleBoneView {
                is_flexible: Some(
                    JiggleFlexible {
                        pitch_constraint: Some(
                            Angles { min: radians(n(w, 0)), max: radians(n(w, 1)) },
                        ),
                        ..f
                    },
                ),
                ..jb
            },
            Ok::<LexState, ErrorView>(end),
        ),
{
    spelled_for_jiggles();
    read_to_end(st, w, end);
    read_word(st, w, end, 0);
    read_word(st, w, end, 1);
}

/// `base_left` of the spring at the base: the lower bound, then the upper one, turned to radians.
pub proof fn spring_base_left(
    jb: JiggleBoneView,
    f: JiggleBaseSpring,
    st: LexState,
    w: Seq<Seq<char>>,
    end: LexState,
)
    requires
        jb.has_base_spring == Some(f),
        jb.is_flexible is None,
        jb.is_rigid is None,
        line_is(st, w, end),
        w.len() == 2,
        numbers(w, 0, 2),
    ensures
        jiggle_option(jb, "base_left"@, Ok(st)) == (
            JiggleBoneView {
                has_base_spring: Some(
                    JiggleBaseSpring {
                        base_left: Some(Angles { min: radians(n(w, 0)), max: radians(n(w, 1)) }),
                        ..f
                    },
                ),
                ..jb
            },
            Ok::<LexState, ErrorView>(end),
        ),
{
    spelled_for_jiggles();
    read_to_end(st, w, end);
    read_word(st, w, end, 0);
    read_word(st, w, end, 1);
}

/// `base_up` of the spring at the base: the lower bound, then the upper one, turned to radians.
pub proof fn spring_base_up(
    jb: JiggleBoneView,
    f: JiggleBaseSpring,
    st: LexState,
    w: Seq<Seq<char>>,
    end: LexState,
)
    requires
        jb.has_base_spring == Some(f),
        jb.is_flexible is None,
        jb.is_rigid is None,
        line_is(st, w, end),
        w.len() == 2,
        numbers(w, 0, 2),
    ensures
        jiggle_option(jb, "base_up"@, Ok(st)) == (
            JiggleBoneView {
                has_base_spring: Some(
                    JiggleBaseSpring {
                        base_up: Some(Angles { min: radians(n(w, 0)), max: radians(n(w, 1)) }),
                        ..f
                    },
                ),
                ..jb
            },
            Ok::<LexState, ErrorView>(end),
        ),
{
    spelled_for_jiggles();
    read_to_end(st, w, end);
    read_word(st, w, end, 0);
    read_word(st, w, end, 1);
}

/// `base_forward` of the spring at the base: the lower bound, then the upper one, turned to radians.
pub proof fn spring_base_forward(
    jb: JiggleBoneView,
    f: JiggleBaseSpring,
    st: LexState,
    w: Seq<Seq<char>>,
    end: LexState,
)
    requires
        jb.has_base_spring == Some(f),
        jb.is_flexible is None,
        jb.is_rigid is None,
        line_is(st, w, end),
        w.len() == 2,
        numbers(w, 0, 2),
    ensures
        jiggle_option(jb, "base_forward"@, Ok(st)) == (
            JiggleBoneView {
                has_base_spring: Some(
                    JiggleBaseSpring {
                        base_forward: Some(Angles { min: radians(n(w, 0)), max: radians(n(w, 1)) }),
                        ..f
                    },
                ),
                ..jb
            },
            Ok::<LexState, ErrorView>(end),
        ),
{
    spelled_for_jiggles();
    read_to_end(st, w, end);
    read_word(st, w, end, 0);
    read_word(st, w, end, 1);
}

/// `allow_length_flex` lets the length of a flexible bone change.
pub proof fn flexible_allow_length_flex(
    jb: JiggleBoneView,
    f: JiggleFlexible,
    st: LexState,
    w: Seq<Seq<char>>,
    end: LexState,
)
    requires
        jb.is_flexible == Some(f),
        jb.is_rigid is None,
        jb.has_base_spring is None,
        line_is(st, w, end),
        w.len() == 0,
    ensures
        jiggle_option(jb, "allow_length_flex"@, Ok(st)) == (
            JiggleBoneView {
                is_flexible: Some(JiggleFlexible { allow_length_flex: true, ..f }),
                ..jb
            },
            Ok::<LexState, ErrorView>(end),
        ),
{
    spelled_for_jiggles();
    read_to_end(st, w, end);
}

/// Each block of a jiggle bone starts with nothing set, and leaves the other blocks alone.
pub proof fn blocks_start_with_nothing(jb: JiggleBoneView)
    ensures
        jiggle_started(jb, "is_flexible"@) == (JiggleBoneView {
            is_flexible: Some(
                JiggleFlexible {
                    length: None,
                    tip_mass: None,
                    yaw_stiffness: None,
                    yaw_damping: None,
                    pitch_stiffness: None,
                    pitch_damping: None,
                    along_stiffness: None,
                    along_damping: None,
                    angle_constraint: None,
                    yaw_constraint: None,
                    yaw_friction: None,
                    yaw_bounce: None,
                    pitch_constraint: None,
                    pitch_friction: None,
                    pitch_bounce: None,
                    allow_length_flex: false,
                },
            ),
            ..jb
        }),
        jiggle_started(jb, "is_rigid"@) == (JiggleBoneView {
            is_rigid: Some(JiggleRigid { length: None, tip_mass: None, angle_constraint: None }),
            ..jb
        }),
        jiggle_started(jb, "has_base_spring"@) == (JiggleBoneView {
            has_base_spring: Some(
                JiggleBaseSpring {
                    base_mass: None,
                    base_stiffness: None,
                    base_damping: None,
                    base_left: None,
                    base_left_friction: None,
                    base_up: None,
                    base_up_friction: None,
                    base_forward: None,
                    base_forward_friction: None,
                },
            ),
            ..jb
        }),
{
    spelled_for_jiggles();
}

} // verus!
