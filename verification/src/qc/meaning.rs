//! What the lines of a script mean: the command, the words behind it, and what they come to.
use vstd::prelude::*;

use super::dispatch::{command, FLAG_STATIC_PROP};
use super::error::ErrorView;
use super::lexer::{LexState, TokenView};
use super::lines::{goes_on, line_is, n, numbers, read_to_end, read_vector, read_word};
use super::model::{
    AnimatedFrictionSpec, AttachmentView, BoneView, FrameRange, HitboxView, IkAutoplayLockView,
    IkChainView, JointConstraintSpecView, ModelDescView, PairView, PhysicsView, PoseLoop,
    PoseParameterView, ScriptView, Vector,
};
use super::naming::{
    names_ambientboost, names_animatedfriction, names_animblocksize, names_attachment,
    names_automass, names_bbox, names_bonemerge, names_casttextureshadows, names_cbox, names_cd,
    names_concave, names_damping, names_declaresequence, names_definebone, names_donotcastshadows,
    names_drag, names_eyeposition, names_forcephonemecrossfade, names_hbox, names_hboxset,
    names_ikautoplaylock, names_ikchain, names_illumposition, names_inertia, names_jointcollide,
    names_jointconstrain, names_jointmerge, names_jointsurfaceprop, names_mass, names_masscenter,
    names_maxeyedeflection, names_modelname, names_mostlyopaque, names_noforcedfade,
    names_noselfcollisions, names_opaque, names_popd, names_poseparameter, names_pushd,
    names_realignbones, names_rootbone, names_rotdamping, names_scale, names_sectionframes,
    names_skipboneinbbox, names_staticprop, names_surfaceprop,
};
use super::read::integer_of;
use super::sequence::{bare_sequence, MAX_SEQUENCES};
use super::settings::{attachment_options, chain_options, find_chain, pose_loop};
use crate::text::lower;

verus! {

/// `$hbox <group> <bone> <min> <max>` adds a box: first the three lower bounds, then the upper
/// ones.
pub proof fn hbox_line(
    d: ScriptView,
    t: TokenView,
    st: LexState,
    w: Seq<Seq<char>>,
    end: LexState,
)
    requires
        lower(t.text) == "$hbox"@,
        line_is(st, w, end),
        w.len() == 8,
        numbers(w, 2, 8),
    ensures
        command(d, t, Ok(st)) == (
            ScriptView {
                desc: ModelDescView {
                    hitboxes: d.desc.hitboxes.push(
                        HitboxView {
                            bone: w[1],
                            group: integer_of(w[0]),
                            bbmin: Vector { x: n(w, 2), y: n(w, 3), z: n(w, 4) },
                            bbmax: Vector { x: n(w, 5), y: n(w, 6), z: n(w, 7) },
                            name: None,
                        },
                    ),
                    ..d.desc
                },
                ..d
            },
            Ok::<LexState, ErrorView>(end),
        ),
{
    names_hbox(d, t, Ok(st));
    read_to_end(st, w, end);
    read_word(st, w, end, 0);
    read_word(st, w, end, 1);
    read_vector(st, w, end, 2);
    read_word(st, w, end, 2);
    read_word(st, w, end, 3);
    read_word(st, w, end, 4);
    read_vector(st, w, end, 5);
    read_word(st, w, end, 5);
    read_word(st, w, end, 6);
    read_word(st, w, end, 7);
}

/// A box may have a name behind its bounds.
pub proof fn named_hbox_line(
    d: ScriptView,
    t: TokenView,
    st: LexState,
    w: Seq<Seq<char>>,
    end: LexState,
)
    requires
        lower(t.text) == "$hbox"@,
        line_is(st, w, end),
        w.len() == 9,
        numbers(w, 2, 8),
    ensures
        command(d, t, Ok(st)) == (
            ScriptView {
                desc: ModelDescView {
                    hitboxes: d.desc.hitboxes.push(
                        HitboxView {
                            bone: w[1],
                            group: integer_of(w[0]),
                            bbmin: Vector { x: n(w, 2), y: n(w, 3), z: n(w, 4) },
                            bbmax: Vector { x: n(w, 5), y: n(w, 6), z: n(w, 7) },
                            name: Some(w[8]),
                        },
                    ),
                    ..d.desc
                },
                ..d
            },
            Ok::<LexState, ErrorView>(end),
        ),
{
    names_hbox(d, t, Ok(st));
    read_to_end(st, w, end);
    read_word(st, w, end, 0);
    read_word(st, w, end, 1);
    read_vector(st, w, end, 2);
    read_word(st, w, end, 2);
    read_word(st, w, end, 3);
    read_word(st, w, end, 4);
    read_vector(st, w, end, 5);
    read_word(st, w, end, 5);
    read_word(st, w, end, 6);
    read_word(st, w, end, 7);
    read_word(st, w, end, 8);
}

/// `$hboxset <name>` names the boxes.
pub proof fn hboxset_line(
    d: ScriptView,
    t: TokenView,
    st: LexState,
    w: Seq<Seq<char>>,
    end: LexState,
)
    requires
        lower(t.text) == "$hboxset"@,
        line_is(st, w, end),
        w.len() == 1,
    ensures
        command(d, t, Ok(st)) == (
            ScriptView { desc: ModelDescView { hitbox_set: Some(w[0]), ..d.desc }, ..d },
            Ok::<LexState, ErrorView>(end),
        ),
{
    names_hboxset(d, t, Ok(st));
    read_to_end(st, w, end);
    read_word(st, w, end, 0);
}

/// `$attachment <name> <bone> <x> <y> <z>` adds a point on a bone.
pub proof fn attachment_line(
    d: ScriptView,
    t: TokenView,
    st: LexState,
    w: Seq<Seq<char>>,
    end: LexState,
)
    requires
        lower(t.text) == "$attachment"@,
        line_is(st, w, end),
        w.len() == 5,
        numbers(w, 2, 5),
    ensures
        command(d, t, Ok(st)) == (
            ScriptView {
                desc: ModelDescView {
                    attachments: d.desc.attachments.push(
                        AttachmentView {
                            name: w[0],
                            bone: w[1],
                            position: Vector { x: n(w, 2), y: n(w, 3), z: n(w, 4) },
                            rotation: Vector { x: 0, y: 0, z: 0 },
                            flags: 0,
                        },
                    ),
                    ..d.desc
                },
                attachment_absolute: d.attachment_absolute.push(false),
                ..d
            },
            Ok::<LexState, ErrorView>(end),
        ),
{
    names_attachment(d, t, Ok(st));
    read_to_end(st, w, end);
    read_word(st, w, end, 0);
    read_word(st, w, end, 1);
    read_vector(st, w, end, 2);
    read_word(st, w, end, 2);
    read_word(st, w, end, 3);
    read_word(st, w, end, 4);
}

/// An attachment may be `absolute`.
pub proof fn absolute_attachment_line(
    d: ScriptView,
    t: TokenView,
    st: LexState,
    w: Seq<Seq<char>>,
    end: LexState,
)
    requires
        lower(t.text) == "$attachment"@,
        line_is(st, w, end),
        w.len() == 6,
        numbers(w, 2, 5),
        lower(w[5]) == "absolute"@,
    ensures
        command(d, t, Ok(st)) == (
            ScriptView {
                desc: ModelDescView {
                    attachments: d.desc.attachments.push(
                        AttachmentView {
                            name: w[0],
                            bone: w[1],
                            position: Vector { x: n(w, 2), y: n(w, 3), z: n(w, 4) },
                            rotation: Vector { x: 0, y: 0, z: 0 },
                            flags: 1,
                        },
                    ),
                    ..d.desc
                },
                attachment_absolute: d.attachment_absolute.push(true),
                ..d
            },
            Ok::<LexState, ErrorView>(end),
        ),
{
    names_attachment(d, t, Ok(st));
    read_to_end(st, w, end);
    reveal_with_fuel(attachment_options, 2);
    assert(0i32 | 1 == 1) by (bit_vector);
    assert("absolute"@ != "rigid"@) by {
        reveal_strlit("absolute");
        reveal_strlit("rigid");
        assert("absolute"@.len() != "rigid"@.len());
    }
    assert("absolute"@ != "world_align"@) by {
        reveal_strlit("absolute");
        reveal_strlit("world_align");
        assert("absolute"@.len() != "world_align"@.len());
    }
    assert("absolute"@ != "rotate"@) by {
        reveal_strlit("absolute");
        reveal_strlit("rotate");
        assert("absolute"@.len() != "rotate"@.len());
    }
    assert("absolute"@ != "x_and_z_axes"@) by {
        reveal_strlit("absolute");
        reveal_strlit("x_and_z_axes");
        assert("absolute"@.len() != "x_and_z_axes"@.len());
    }
    read_word(st, w, end, 0);
    read_word(st, w, end, 1);
    read_vector(st, w, end, 2);
    read_word(st, w, end, 2);
    read_word(st, w, end, 3);
    read_word(st, w, end, 4);
    read_word(st, w, end, 5);
}

/// An attachment may be `rigid`.
pub proof fn rigid_attachment_line(
    d: ScriptView,
    t: TokenView,
    st: LexState,
    w: Seq<Seq<char>>,
    end: LexState,
)
    requires
        lower(t.text) == "$attachment"@,
        line_is(st, w, end),
        w.len() == 6,
        numbers(w, 2, 5),
        lower(w[5]) == "rigid"@,
    ensures
        command(d, t, Ok(st)) == (
            ScriptView {
                desc: ModelDescView {
                    attachments: d.desc.attachments.push(
                        AttachmentView {
                            name: w[0],
                            bone: w[1],
                            position: Vector { x: n(w, 2), y: n(w, 3), z: n(w, 4) },
                            rotation: Vector { x: 0, y: 0, z: 0 },
                            flags: 2,
                        },
                    ),
                    ..d.desc
                },
                attachment_absolute: d.attachment_absolute.push(false),
                ..d
            },
            Ok::<LexState, ErrorView>(end),
        ),
{
    names_attachment(d, t, Ok(st));
    read_to_end(st, w, end);
    reveal_with_fuel(attachment_options, 2);
    assert(0i32 | 2 == 2) by (bit_vector);
    assert("rigid"@ != "absolute"@) by {
        reveal_strlit("rigid");
        reveal_strlit("absolute");
        assert("rigid"@.len() != "absolute"@.len());
    }
    assert("rigid"@ != "world_align"@) by {
        reveal_strlit("rigid");
        reveal_strlit("world_align");
        assert("rigid"@.len() != "world_align"@.len());
    }
    assert("rigid"@ != "rotate"@) by {
        reveal_strlit("rigid");
        reveal_strlit("rotate");
        assert("rigid"@.len() != "rotate"@.len());
    }
    assert("rigid"@ != "x_and_z_axes"@) by {
        reveal_strlit("rigid");
        reveal_strlit("x_and_z_axes");
        assert("rigid"@.len() != "x_and_z_axes"@.len());
    }
    read_word(st, w, end, 0);
    read_word(st, w, end, 1);
    read_vector(st, w, end, 2);
    read_word(st, w, end, 2);
    read_word(st, w, end, 3);
    read_word(st, w, end, 4);
    read_word(st, w, end, 5);
}

/// An attachment may be `world_align`.
pub proof fn world_align_attachment_line(
    d: ScriptView,
    t: TokenView,
    st: LexState,
    w: Seq<Seq<char>>,
    end: LexState,
)
    requires
        lower(t.text) == "$attachment"@,
        line_is(st, w, end),
        w.len() == 6,
        numbers(w, 2, 5),
        lower(w[5]) == "world_align"@,
    ensures
        command(d, t, Ok(st)) == (
            ScriptView {
                desc: ModelDescView {
                    attachments: d.desc.attachments.push(
                        AttachmentView {
                            name: w[0],
                            bone: w[1],
                            position: Vector { x: n(w, 2), y: n(w, 3), z: n(w, 4) },
                            rotation: Vector { x: 0, y: 0, z: 0 },
                            flags: 4,
                        },
                    ),
                    ..d.desc
                },
                attachment_absolute: d.attachment_absolute.push(false),
                ..d
            },
            Ok::<LexState, ErrorView>(end),
        ),
{
    names_attachment(d, t, Ok(st));
    read_to_end(st, w, end);
    reveal_with_fuel(attachment_options, 2);
    assert(0i32 | 4 == 4) by (bit_vector);
    assert("world_align"@ != "absolute"@) by {
        reveal_strlit("world_align");
        reveal_strlit("absolute");
        assert("world_align"@.len() != "absolute"@.len());
    }
    assert("world_align"@ != "rigid"@) by {
        reveal_strlit("world_align");
        reveal_strlit("rigid");
        assert("world_align"@.len() != "rigid"@.len());
    }
    assert("world_align"@ != "rotate"@) by {
        reveal_strlit("world_align");
        reveal_strlit("rotate");
        assert("world_align"@.len() != "rotate"@.len());
    }
    assert("world_align"@ != "x_and_z_axes"@) by {
        reveal_strlit("world_align");
        reveal_strlit("x_and_z_axes");
        assert("world_align"@.len() != "x_and_z_axes"@.len());
    }
    read_word(st, w, end, 0);
    read_word(st, w, end, 1);
    read_vector(st, w, end, 2);
    read_word(st, w, end, 2);
    read_word(st, w, end, 3);
    read_word(st, w, end, 4);
    read_word(st, w, end, 5);
}

/// An attachment may be turned: `rotate <x> <y> <z>`.
pub proof fn turned_attachment_line(
    d: ScriptView,
    t: TokenView,
    st: LexState,
    w: Seq<Seq<char>>,
    end: LexState,
)
    requires
        lower(t.text) == "$attachment"@,
        line_is(st, w, end),
        w.len() == 9,
        numbers(w, 2, 5),
        numbers(w, 6, 9),
        lower(w[5]) == "rotate"@,
    ensures
        command(d, t, Ok(st)) == (
            ScriptView {
                desc: ModelDescView {
                    attachments: d.desc.attachments.push(
                        AttachmentView {
                            name: w[0],
                            bone: w[1],
                            position: Vector { x: n(w, 2), y: n(w, 3), z: n(w, 4) },
                            rotation: Vector { x: n(w, 6), y: n(w, 7), z: n(w, 8) },
                            flags: 0,
                        },
                    ),
                    ..d.desc
                },
                attachment_absolute: d.attachment_absolute.push(false),
                ..d
            },
            Ok::<LexState, ErrorView>(end),
        ),
{
    names_attachment(d, t, Ok(st));
    read_to_end(st, w, end);
    reveal_with_fuel(attachment_options, 2);
    goes_on(st, w, end, 5, 9);
    assert("rotate"@ != "absolute"@) by {
        reveal_strlit("rotate");
        reveal_strlit("absolute");
        assert("rotate"@.len() != "absolute"@.len());
    }
    assert("rotate"@ != "rigid"@) by {
        reveal_strlit("rotate");
        reveal_strlit("rigid");
        assert("rotate"@.len() != "rigid"@.len());
    }
    assert("rotate"@ != "world_align"@) by {
        reveal_strlit("rotate");
        reveal_strlit("world_align");
        assert("rotate"@.len() != "world_align"@.len());
    }
    assert("rotate"@ != "x_and_z_axes"@) by {
        reveal_strlit("rotate");
        reveal_strlit("x_and_z_axes");
        assert("rotate"@.len() != "x_and_z_axes"@.len());
    }
    read_word(st, w, end, 0);
    read_word(st, w, end, 1);
    read_vector(st, w, end, 2);
    read_word(st, w, end, 2);
    read_word(st, w, end, 3);
    read_word(st, w, end, 4);
    read_word(st, w, end, 5);
    read_vector(st, w, end, 6);
    read_word(st, w, end, 6);
    read_word(st, w, end, 7);
    read_word(st, w, end, 8);
}

/// `$definebone <name> <parent> <position> <rotation>` adds a bone.
pub proof fn definebone_line(
    d: ScriptView,
    t: TokenView,
    st: LexState,
    w: Seq<Seq<char>>,
    end: LexState,
)
    requires
        lower(t.text) == "$definebone"@,
        line_is(st, w, end),
        w.len() == 8,
        numbers(w, 2, 8),
    ensures
        command(d, t, Ok(st)) == (
            ScriptView {
                import_bones: d.import_bones.push(
                    BoneView {
                        name: w[0],
                        parent: if w[1].len() == 0 { None } else { Some(w[1]) },
                        position: Some(Vector { x: n(w, 2), y: n(w, 3), z: n(w, 4) }),
                        rotation: Some(Vector { x: n(w, 5), y: n(w, 6), z: n(w, 7) }),
                        surface_prop: None,
                        bonemerge: false,
                        pre_aligned: Some(false),
                        realign_position: None,
                        realign_rotation: None,
                    },
                ),
                ..d
            },
            Ok::<LexState, ErrorView>(end),
        ),
{
    names_definebone(d, t, Ok(st));
    read_to_end(st, w, end);
    read_word(st, w, end, 0);
    read_word(st, w, end, 1);
    read_vector(st, w, end, 2);
    read_word(st, w, end, 2);
    read_word(st, w, end, 3);
    read_word(st, w, end, 4);
    read_vector(st, w, end, 5);
    read_word(st, w, end, 5);
    read_word(st, w, end, 6);
    read_word(st, w, end, 7);
}

/// A bone may be realigned: another position and rotation stand behind its own.
pub proof fn realigned_definebone_line(
    d: ScriptView,
    t: TokenView,
    st: LexState,
    w: Seq<Seq<char>>,
    end: LexState,
)
    requires
        lower(t.text) == "$definebone"@,
        line_is(st, w, end),
        w.len() == 14,
        numbers(w, 2, 14),
    ensures
        command(d, t, Ok(st)) == (
            ScriptView {
                import_bones: d.import_bones.push(
                    BoneView {
                        name: w[0],
                        parent: if w[1].len() == 0 { None } else { Some(w[1]) },
                        position: Some(Vector { x: n(w, 2), y: n(w, 3), z: n(w, 4) }),
                        rotation: Some(Vector { x: n(w, 5), y: n(w, 6), z: n(w, 7) }),
                        surface_prop: None,
                        bonemerge: false,
                        pre_aligned: Some(true),
                        realign_position: Some(Vector { x: n(w, 8), y: n(w, 9), z: n(w, 10) }),
                        realign_rotation: Some(Vector { x: n(w, 11), y: n(w, 12), z: n(w, 13) }),
                    },
                ),
                ..d
            },
            Ok::<LexState, ErrorView>(end),
        ),
{
    names_definebone(d, t, Ok(st));
    read_to_end(st, w, end);
    read_word(st, w, end, 0);
    read_word(st, w, end, 1);
    read_vector(st, w, end, 2);
    read_word(st, w, end, 2);
    read_word(st, w, end, 3);
    read_word(st, w, end, 4);
    read_vector(st, w, end, 5);
    read_word(st, w, end, 5);
    read_word(st, w, end, 6);
    read_word(st, w, end, 7);
    read_vector(st, w, end, 8);
    read_word(st, w, end, 8);
    read_word(st, w, end, 9);
    read_word(st, w, end, 10);
    read_vector(st, w, end, 11);
    read_word(st, w, end, 11);
    read_word(st, w, end, 12);
    read_word(st, w, end, 13);
}

/// `$eyeposition <x> <y> <z>` says where the eyes are.
pub proof fn eyeposition_line(
    d: ScriptView,
    t: TokenView,
    st: LexState,
    w: Seq<Seq<char>>,
    end: LexState,
)
    requires
        lower(t.text) == "$eyeposition"@,
        line_is(st, w, end),
        w.len() == 3,
        numbers(w, 0, 3),
    ensures
        command(d, t, Ok(st)) == (
            ScriptView {
                desc: ModelDescView {
                    eye_position: Some(Vector { x: n(w, 0), y: n(w, 1), z: n(w, 2) }),
                    ..d.desc
                },
                ..d
            },
            Ok::<LexState, ErrorView>(end),
        ),
{
    names_eyeposition(d, t, Ok(st));
    read_to_end(st, w, end);
    read_vector(st, w, end, 0);
    read_word(st, w, end, 0);
    read_word(st, w, end, 1);
    read_word(st, w, end, 2);
}

/// `$illumposition <x> <y> <z>` says where light is taken.
pub proof fn illumposition_line(
    d: ScriptView,
    t: TokenView,
    st: LexState,
    w: Seq<Seq<char>>,
    end: LexState,
)
    requires
        lower(t.text) == "$illumposition"@,
        line_is(st, w, end),
        w.len() == 3,
        numbers(w, 0, 3),
    ensures
        command(d, t, Ok(st)) == (
            ScriptView {
                desc: ModelDescView {
                    illum_position: Some(Vector { x: n(w, 0), y: n(w, 1), z: n(w, 2) }),
                    ..d.desc
                },
                ..d
            },
            Ok::<LexState, ErrorView>(end),
        ),
{
    names_illumposition(d, t, Ok(st));
    read_to_end(st, w, end);
    read_vector(st, w, end, 0);
    read_word(st, w, end, 0);
    read_word(st, w, end, 1);
    read_word(st, w, end, 2);
}

/// `$bbox <min> <max>` gives the box of the model: first the lower bounds, then the upper ones.
pub proof fn bbox_line(
    d: ScriptView,
    t: TokenView,
    st: LexState,
    w: Seq<Seq<char>>,
    end: LexState,
)
    requires
        lower(t.text) == "$bbox"@,
        line_is(st, w, end),
        w.len() == 6,
        numbers(w, 0, 6),
    ensures
        command(d, t, Ok(st)) == (
            ScriptView {
                desc: ModelDescView {
                    hull_min: Some(Vector { x: n(w, 0), y: n(w, 1), z: n(w, 2) }),
                    hull_max: Some(Vector { x: n(w, 3), y: n(w, 4), z: n(w, 5) }),
                    ..d.desc
                },
                ..d
            },
            Ok::<LexState, ErrorView>(end),
        ),
{
    names_bbox(d, t, Ok(st));
    read_to_end(st, w, end);
    read_vector(st, w, end, 0);
    read_word(st, w, end, 0);
    read_word(st, w, end, 1);
    read_word(st, w, end, 2);
    read_vector(st, w, end, 3);
    read_word(st, w, end, 3);
    read_word(st, w, end, 4);
    read_word(st, w, end, 5);
}

/// `$cbox` changes nothing.
pub proof fn cbox_line(
    d: ScriptView,
    t: TokenView,
    st: LexState,
    w: Seq<Seq<char>>,
    end: LexState,
)
    requires
        lower(t.text) == "$cbox"@,
        line_is(st, w, end),
        w.len() == 6,
        numbers(w, 0, 6),
    ensures
        command(d, t, Ok(st)) == (
            d,
            Ok::<LexState, ErrorView>(end),
        ),
{
    names_cbox(d, t, Ok(st));
    read_to_end(st, w, end);
    read_vector(st, w, end, 0);
    read_word(st, w, end, 0);
    read_word(st, w, end, 1);
    read_word(st, w, end, 2);
    read_vector(st, w, end, 3);
    read_word(st, w, end, 3);
    read_word(st, w, end, 4);
    read_word(st, w, end, 5);
}

/// `$surfaceprop <name>` says what the model is made of.
pub proof fn surfaceprop_line(
    d: ScriptView,
    t: TokenView,
    st: LexState,
    w: Seq<Seq<char>>,
    end: LexState,
)
    requires
        lower(t.text) == "$surfaceprop"@,
        line_is(st, w, end),
        w.len() == 1,
    ensures
        command(d, t, Ok(st)) == (
            ScriptView { desc: ModelDescView { surface_prop: Some(w[0]), ..d.desc }, ..d },
            Ok::<LexState, ErrorView>(end),
        ),
{
    names_surfaceprop(d, t, Ok(st));
    read_to_end(st, w, end);
    read_word(st, w, end, 0);
}

/// `$scale <number>` sets the scale.
pub proof fn scale_line(
    d: ScriptView,
    t: TokenView,
    st: LexState,
    w: Seq<Seq<char>>,
    end: LexState,
)
    requires
        lower(t.text) == "$scale"@,
        line_is(st, w, end),
        w.len() == 1,
        numbers(w, 0, 1),
    ensures
        command(d, t, Ok(st)) == (
            ScriptView { scale: n(w, 0), ..d },
            Ok::<LexState, ErrorView>(end),
        ),
{
    names_scale(d, t, Ok(st));
    read_to_end(st, w, end);
    read_word(st, w, end, 0);
}

/// `$maxeyedeflection <number>` limits the eyes.
pub proof fn maxeyedeflection_line(
    d: ScriptView,
    t: TokenView,
    st: LexState,
    w: Seq<Seq<char>>,
    end: LexState,
)
    requires
        lower(t.text) == "$maxeyedeflection"@,
        line_is(st, w, end),
        w.len() == 1,
        numbers(w, 0, 1),
    ensures
        command(d, t, Ok(st)) == (
            ScriptView { desc: ModelDescView { max_eye_deflection: Some(n(w, 0)), ..d.desc }, ..d },
            Ok::<LexState, ErrorView>(end),
        ),
{
    names_maxeyedeflection(d, t, Ok(st));
    read_to_end(st, w, end);
    read_word(st, w, end, 0);
}

/// `$animblocksize <number>` sets the size of blocks.
pub proof fn animblocksize_line(
    d: ScriptView,
    t: TokenView,
    st: LexState,
    w: Seq<Seq<char>>,
    end: LexState,
)
    requires
        lower(t.text) == "$animblocksize"@,
        line_is(st, w, end),
        w.len() == 1,
    ensures
        command(d, t, Ok(st)) == (
            ScriptView {
                desc: ModelDescView { anim_block_size: Some(integer_of(w[0])), ..d.desc },
                ..d
            },
            Ok::<LexState, ErrorView>(end),
        ),
{
    names_animblocksize(d, t, Ok(st));
    read_to_end(st, w, end);
    read_word(st, w, end, 0);
}

/// `$staticprop` marks a model that does not move.
pub proof fn staticprop_line(
    d: ScriptView,
    t: TokenView,
    st: LexState,
    w: Seq<Seq<char>>,
    end: LexState,
)
    requires
        lower(t.text) == "$staticprop"@,
        line_is(st, w, end),
        w.len() == 0,
    ensures
        command(d, t, Ok(st)) == (
            ScriptView {
                desc: ModelDescView { static_prop: true, ..d.desc },
                gflags: d.gflags | FLAG_STATIC_PROP,
                ..d
            },
            Ok::<LexState, ErrorView>(end),
        ),
{
    names_staticprop(d, t, Ok(st));
    read_to_end(st, w, end);
}

/// `$realignbones` realigns the bones.
pub proof fn realignbones_line(
    d: ScriptView,
    t: TokenView,
    st: LexState,
    w: Seq<Seq<char>>,
    end: LexState,
)
    requires
        lower(t.text) == "$realignbones"@,
        line_is(st, w, end),
        w.len() == 0,
    ensures
        command(d, t, Ok(st)) == (
            ScriptView { desc: ModelDescView { realign_bones: true, ..d.desc }, ..d },
            Ok::<LexState, ErrorView>(end),
        ),
{
    names_realignbones(d, t, Ok(st));
    read_to_end(st, w, end);
}

/// `$skipboneinbbox` leaves bones out of the box.
pub proof fn skipboneinbbox_line(
    d: ScriptView,
    t: TokenView,
    st: LexState,
    w: Seq<Seq<char>>,
    end: LexState,
)
    requires
        lower(t.text) == "$skipboneinbbox"@,
        line_is(st, w, end),
        w.len() == 0,
    ensures
        command(d, t, Ok(st)) == (
            ScriptView { desc: ModelDescView { skip_bone_in_bbox: true, ..d.desc }, ..d },
            Ok::<LexState, ErrorView>(end),
        ),
{
    names_skipboneinbbox(d, t, Ok(st));
    read_to_end(st, w, end);
}

/// `$modelname <path>` names the model.
pub proof fn modelname_line(
    d: ScriptView,
    t: TokenView,
    st: LexState,
    w: Seq<Seq<char>>,
    end: LexState,
)
    requires
        lower(t.text) == "$modelname"@,
        line_is(st, w, end),
        w.len() == 1,
        w[0].len() > 0 && w[0][0] != '/' && w[0][0] != '\\',
    ensures
        command(d, t, Ok(st)) == (
            ScriptView { desc: ModelDescView { name: w[0], ..d.desc }, ..d },
            Ok::<LexState, ErrorView>(end),
        ),
{
    names_modelname(d, t, Ok(st));
    read_to_end(st, w, end);
    read_word(st, w, end, 0);
}

/// A slash before the name of the model does not belong to it.
pub proof fn rooted_modelname_line(
    d: ScriptView,
    t: TokenView,
    st: LexState,
    w: Seq<Seq<char>>,
    end: LexState,
)
    requires
        lower(t.text) == "$modelname"@,
        line_is(st, w, end),
        w.len() == 1,
        w[0].len() > 0 && (w[0][0] == '/' || w[0][0] == '\\'),
    ensures
        command(d, t, Ok(st)) == (
            ScriptView { desc: ModelDescView { name: w[0].skip(1), ..d.desc }, ..d },
            Ok::<LexState, ErrorView>(end),
        ),
{
    names_modelname(d, t, Ok(st));
    read_to_end(st, w, end);
    read_word(st, w, end, 0);
}

/// `$sectionframes <length> <from>` cuts long sequences.
pub proof fn sectionframes_line(
    d: ScriptView,
    t: TokenView,
    st: LexState,
    w: Seq<Seq<char>>,
    end: LexState,
)
    requires
        lower(t.text) == "$sectionframes"@,
        line_is(st, w, end),
        w.len() == 2,
    ensures
        command(d, t, Ok(st)) == (
            ScriptView {
                section_frames: Some(
                    FrameRange { first: integer_of(w[0]), last: integer_of(w[1]) },
                ),
                ..d
            },
            Ok::<LexState, ErrorView>(end),
        ),
{
    names_sectionframes(d, t, Ok(st));
    read_to_end(st, w, end);
    read_word(st, w, end, 0);
    read_word(st, w, end, 1);
}

/// Sequences are cut from 120 frames on where nothing is said.
pub proof fn short_sectionframes_line(
    d: ScriptView,
    t: TokenView,
    st: LexState,
    w: Seq<Seq<char>>,
    end: LexState,
)
    requires
        lower(t.text) == "$sectionframes"@,
        line_is(st, w, end),
        w.len() == 1,
    ensures
        command(d, t, Ok(st)) == (
            ScriptView {
                section_frames: Some(FrameRange { first: integer_of(w[0]), last: 120i32 }),
                ..d
            },
            Ok::<LexState, ErrorView>(end),
        ),
{
    names_sectionframes(d, t, Ok(st));
    read_to_end(st, w, end);
    read_word(st, w, end, 0);
}

/// `$poseparameter <name> <start> <end>` adds a parameter.
pub proof fn poseparameter_line(
    d: ScriptView,
    t: TokenView,
    st: LexState,
    w: Seq<Seq<char>>,
    end: LexState,
)
    requires
        lower(t.text) == "$poseparameter"@,
        line_is(st, w, end),
        w.len() == 3,
        numbers(w, 1, 3),
    ensures
        command(d, t, Ok(st)) == (
            ScriptView {
                desc: ModelDescView {
                    pose_parameters: d.desc.pose_parameters.push(
                        PoseParameterView {
                            name: w[0],
                            start: n(w, 1),
                            end: n(w, 2),
                            loop_mode: None,
                        },
                    ),
                    ..d.desc
                },
                ..d
            },
            Ok::<LexState, ErrorView>(end),
        ),
{
    names_poseparameter(d, t, Ok(st));
    read_to_end(st, w, end);
    reveal_with_fuel(pose_loop, 2);
    read_word(st, w, end, 0);
    read_word(st, w, end, 1);
    read_word(st, w, end, 2);
}

/// A parameter may wrap.
pub proof fn wrapped_poseparameter_line(
    d: ScriptView,
    t: TokenView,
    st: LexState,
    w: Seq<Seq<char>>,
    end: LexState,
)
    requires
        lower(t.text) == "$poseparameter"@,
        line_is(st, w, end),
        w.len() == 4,
        numbers(w, 1, 3),
        lower(w[3]) == "wrap"@,
    ensures
        command(d, t, Ok(st)) == (
            ScriptView {
                desc: ModelDescView {
                    pose_parameters: d.desc.pose_parameters.push(
                        PoseParameterView {
                            name: w[0],
                            start: n(w, 1),
                            end: n(w, 2),
                            loop_mode: Some(PoseLoop::Wrap),
                        },
                    ),
                    ..d.desc
                },
                ..d
            },
            Ok::<LexState, ErrorView>(end),
        ),
{
    names_poseparameter(d, t, Ok(st));
    read_to_end(st, w, end);
    reveal_with_fuel(pose_loop, 3);
    reveal_strlit("wrap"); reveal_strlit("loop");
    read_word(st, w, end, 0);
    read_word(st, w, end, 1);
    read_word(st, w, end, 2);
    read_word(st, w, end, 3);
}

/// A parameter may loop over a range.
pub proof fn looped_poseparameter_line(
    d: ScriptView,
    t: TokenView,
    st: LexState,
    w: Seq<Seq<char>>,
    end: LexState,
)
    requires
        lower(t.text) == "$poseparameter"@,
        line_is(st, w, end),
        w.len() == 5,
        numbers(w, 1, 3),
        numbers(w, 4, 5),
        lower(w[3]) == "loop"@,
    ensures
        command(d, t, Ok(st)) == (
            ScriptView {
                desc: ModelDescView {
                    pose_parameters: d.desc.pose_parameters.push(
                        PoseParameterView {
                            name: w[0],
                            start: n(w, 1),
                            end: n(w, 2),
                            loop_mode: Some(PoseLoop::Explicit(n(w, 4))),
                        },
                    ),
                    ..d.desc
                },
                ..d
            },
            Ok::<LexState, ErrorView>(end),
        ),
{
    names_poseparameter(d, t, Ok(st));
    read_to_end(st, w, end);
    reveal_with_fuel(pose_loop, 3);
    goes_on(st, w, end, 3, 5);
    assert("loop"@ != "wrap"@) by {
        reveal_strlit("loop");
        reveal_strlit("wrap");
        assert("loop"@[0] != "wrap"@[0]);
    }
    read_word(st, w, end, 0);
    read_word(st, w, end, 1);
    read_word(st, w, end, 2);
    read_word(st, w, end, 3);
    read_word(st, w, end, 4);
}

/// `$bonemerge <bone>` lets a bone follow that of another model.
pub proof fn bonemerge_line(
    d: ScriptView,
    t: TokenView,
    st: LexState,
    w: Seq<Seq<char>>,
    end: LexState,
)
    requires
        lower(t.text) == "$bonemerge"@,
        line_is(st, w, end),
        w.len() == 1,
    ensures
        command(d, t, Ok(st)) == (
            ScriptView { bonemerge_names: d.bonemerge_names.push(w[0]), ..d },
            Ok::<LexState, ErrorView>(end),
        ),
{
    names_bonemerge(d, t, Ok(st));
    read_to_end(st, w, end);
    read_word(st, w, end, 0);
}

/// `$ikchain <name> <bone>` adds a chain, unless there is one of that name.
pub proof fn ikchain_line(
    d: ScriptView,
    t: TokenView,
    st: LexState,
    w: Seq<Seq<char>>,
    end: LexState,
)
    requires
        lower(t.text) == "$ikchain"@,
        line_is(st, w, end),
        w.len() == 2,
        find_chain(d.desc.ikchains, w[0], 0) is None,
    ensures
        command(d, t, Ok(st)) == (
            ScriptView {
                desc: ModelDescView {
                    ikchains: d.desc.ikchains.push(
                        IkChainView { name: w[0], bone: w[1], knee_dir: None },
                    ),
                    ..d.desc
                },
                ..d
            },
            Ok::<LexState, ErrorView>(end),
        ),
{
    names_ikchain(d, t, Ok(st));
    read_to_end(st, w, end);
    reveal_with_fuel(chain_options, 2);
    read_word(st, w, end, 0);
    read_word(st, w, end, 1);
}

/// A chain may say where its knee points: `knee <x> <y> <z>`.
pub proof fn knee_ikchain_line(
    d: ScriptView,
    t: TokenView,
    st: LexState,
    w: Seq<Seq<char>>,
    end: LexState,
)
    requires
        lower(t.text) == "$ikchain"@,
        line_is(st, w, end),
        w.len() == 6,
        numbers(w, 3, 6),
        find_chain(d.desc.ikchains, w[0], 0) is None,
        lower(w[2]) == "knee"@,
    ensures
        command(d, t, Ok(st)) == (
            ScriptView {
                desc: ModelDescView {
                    ikchains: d.desc.ikchains.push(
                        IkChainView {
                            name: w[0],
                            bone: w[1],
                            knee_dir: Some(Vector { x: n(w, 3), y: n(w, 4), z: n(w, 5) }),
                        },
                    ),
                    ..d.desc
                },
                ..d
            },
            Ok::<LexState, ErrorView>(end),
        ),
{
    names_ikchain(d, t, Ok(st));
    read_to_end(st, w, end);
    reveal_with_fuel(chain_options, 3);
    reveal_strlit("knee");
    read_word(st, w, end, 0);
    read_word(st, w, end, 1);
    read_word(st, w, end, 2);
    read_vector(st, w, end, 3);
    read_word(st, w, end, 3);
    read_word(st, w, end, 4);
    read_word(st, w, end, 5);
}

/// `$ikautoplaylock <chain> <position> <rotation>` adds a lock with its two weights.
pub proof fn ikautoplaylock_line(
    d: ScriptView,
    t: TokenView,
    st: LexState,
    w: Seq<Seq<char>>,
    end: LexState,
)
    requires
        lower(t.text) == "$ikautoplaylock"@,
        line_is(st, w, end),
        w.len() == 3,
        numbers(w, 1, 3),
    ensures
        command(d, t, Ok(st)) == (
            ScriptView {
                desc: ModelDescView {
                    ik_autoplay_locks: d.desc.ik_autoplay_locks.push(
                        IkAutoplayLockView {
                            chain: w[0],
                            pos_weight: n(w, 1),
                            local_q_weight: n(w, 2),
                        },
                    ),
                    ..d.desc
                },
                ..d
            },
            Ok::<LexState, ErrorView>(end),
        ),
{
    names_ikautoplaylock(d, t, Ok(st));
    read_to_end(st, w, end);
    read_word(st, w, end, 0);
    read_word(st, w, end, 1);
    read_word(st, w, end, 2);
}

/// `$jointsurfaceprop <bone> <name>` says what a bone is made of.
pub proof fn jointsurfaceprop_line(
    d: ScriptView,
    t: TokenView,
    st: LexState,
    w: Seq<Seq<char>>,
    end: LexState,
)
    requires
        lower(t.text) == "$jointsurfaceprop"@,
        line_is(st, w, end),
        w.len() == 2,
    ensures
        command(d, t, Ok(st)) == (
            ScriptView {
                joint_surface_props: d.joint_surface_props.push(PairView { a: w[0], b: w[1] }),
                ..d
            },
            Ok::<LexState, ErrorView>(end),
        ),
{
    names_jointsurfaceprop(d, t, Ok(st));
    read_to_end(st, w, end);
    read_word(st, w, end, 0);
    read_word(st, w, end, 1);
}

/// `$jointconstrain <bone> <axis> <kind> <min> <max> <friction>` limits a joint.
pub proof fn jointconstrain_line(
    d: ScriptView,
    t: TokenView,
    st: LexState,
    w: Seq<Seq<char>>,
    end: LexState,
)
    requires
        lower(t.text) == "$jointconstrain"@,
        line_is(st, w, end),
        w.len() == 6,
        numbers(w, 3, 6),
    ensures
        command(d, t, Ok(st)) == (
            ScriptView {
                desc: ModelDescView {
                    physics: PhysicsView {
                        constraints: d.desc.physics.constraints.push(
                            JointConstraintSpecView {
                                bone: w[0],
                                axis: w[1],
                                kind: w[2],
                                min: n(w, 3),
                                max: n(w, 4),
                                friction: n(w, 5),
                            },
                        ),
                        ..d.desc.physics
                    },
                    ..d.desc
                },
                ..d
            },
            Ok::<LexState, ErrorView>(end),
        ),
{
    names_jointconstrain(d, t, Ok(st));
    read_to_end(st, w, end);
    read_word(st, w, end, 0);
    read_word(st, w, end, 1);
    read_word(st, w, end, 2);
    read_word(st, w, end, 3);
    read_word(st, w, end, 4);
    read_word(st, w, end, 5);
}

/// A joint has no friction where nothing is said.
pub proof fn short_jointconstrain_line(
    d: ScriptView,
    t: TokenView,
    st: LexState,
    w: Seq<Seq<char>>,
    end: LexState,
)
    requires
        lower(t.text) == "$jointconstrain"@,
        line_is(st, w, end),
        w.len() == 5,
        numbers(w, 3, 5),
    ensures
        command(d, t, Ok(st)) == (
            ScriptView {
                desc: ModelDescView {
                    physics: PhysicsView {
                        constraints: d.desc.physics.constraints.push(
                            JointConstraintSpecView {
                                bone: w[0],
                                axis: w[1],
                                kind: w[2],
                                min: n(w, 3),
                                max: n(w, 4),
                                friction: 0,
                            },
                        ),
                        ..d.desc.physics
                    },
                    ..d.desc
                },
                ..d
            },
            Ok::<LexState, ErrorView>(end),
        ),
{
    names_jointconstrain(d, t, Ok(st));
    read_to_end(st, w, end);
    read_word(st, w, end, 0);
    read_word(st, w, end, 1);
    read_word(st, w, end, 2);
    read_word(st, w, end, 3);
    read_word(st, w, end, 4);
}

/// `$animatedfriction <min> <max> <in> <hold> <out>` gives friction under animation.
pub proof fn animatedfriction_line(
    d: ScriptView,
    t: TokenView,
    st: LexState,
    w: Seq<Seq<char>>,
    end: LexState,
)
    requires
        lower(t.text) == "$animatedfriction"@,
        line_is(st, w, end),
        w.len() == 5,
        numbers(w, 2, 5),
    ensures
        command(d, t, Ok(st)) == (
            ScriptView {
                desc: ModelDescView {
                    physics: PhysicsView {
                        animated_friction: Some(
                            AnimatedFrictionSpec {
                                min: integer_of(w[0]),
                                max: integer_of(w[1]),
                                time_in: n(w, 2),
                                time_out: n(w, 4),
                                time_hold: n(w, 3),
                            },
                        ),
                        ..d.desc.physics
                    },
                    ..d.desc
                },
                ..d
            },
            Ok::<LexState, ErrorView>(end),
        ),
{
    names_animatedfriction(d, t, Ok(st));
    read_to_end(st, w, end);
    read_word(st, w, end, 0);
    read_word(st, w, end, 1);
    read_word(st, w, end, 2);
    read_word(st, w, end, 3);
    read_word(st, w, end, 4);
}

/// `$jointcollide <bone> <bone>` lets two solids collide.
pub proof fn jointcollide_line(
    d: ScriptView,
    t: TokenView,
    st: LexState,
    w: Seq<Seq<char>>,
    end: LexState,
)
    requires
        lower(t.text) == "$jointcollide"@,
        line_is(st, w, end),
        w.len() == 2,
    ensures
        command(d, t, Ok(st)) == (
            ScriptView {
                desc: ModelDescView {
                    physics: PhysicsView {
                        collision_pairs: d.desc.physics.collision_pairs.push(
                            PairView { a: w[0], b: w[1] },
                        ),
                        ..d.desc.physics
                    },
                    ..d.desc
                },
                ..d
            },
            Ok::<LexState, ErrorView>(end),
        ),
{
    names_jointcollide(d, t, Ok(st));
    read_to_end(st, w, end);
    read_word(st, w, end, 0);
    read_word(st, w, end, 1);
}

/// `$jointmerge <parent> <child>` merges the second bone into the first.
pub proof fn jointmerge_line(
    d: ScriptView,
    t: TokenView,
    st: LexState,
    w: Seq<Seq<char>>,
    end: LexState,
)
    requires
        lower(t.text) == "$jointmerge"@,
        line_is(st, w, end),
        w.len() == 2,
    ensures
        command(d, t, Ok(st)) == (
            ScriptView {
                desc: ModelDescView {
                    physics: PhysicsView {
                        merge: d.desc.physics.merge.push(PairView { a: w[0], b: w[1] }),
                        ..d.desc.physics
                    },
                    ..d.desc
                },
                ..d
            },
            Ok::<LexState, ErrorView>(end),
        ),
{
    names_jointmerge(d, t, Ok(st));
    read_to_end(st, w, end);
    read_word(st, w, end, 0);
    read_word(st, w, end, 1);
}

/// `$noselfcollisions` keeps solids from colliding.
pub proof fn noselfcollisions_line(
    d: ScriptView,
    t: TokenView,
    st: LexState,
    w: Seq<Seq<char>>,
    end: LexState,
)
    requires
        lower(t.text) == "$noselfcollisions"@,
        line_is(st, w, end),
        w.len() == 0,
    ensures
        command(d, t, Ok(st)) == (
            ScriptView {
                desc: ModelDescView {
                    physics: PhysicsView { no_self_collisions: true, ..d.desc.physics },
                    ..d.desc
                },
                ..d
            },
            Ok::<LexState, ErrorView>(end),
        ),
{
    names_noselfcollisions(d, t, Ok(st));
    read_to_end(st, w, end);
}

/// `$mass <number>` sets that number of the collision model.
pub proof fn mass_line(
    d: ScriptView,
    t: TokenView,
    st: LexState,
    w: Seq<Seq<char>>,
    end: LexState,
)
    requires
        lower(t.text) == "$mass"@,
        line_is(st, w, end),
        w.len() == 1,
        numbers(w, 0, 1),
    ensures
        command(d, t, Ok(st)) == (
            ScriptView {
                desc: ModelDescView {
                    physics: PhysicsView { mass: Some(n(w, 0)), ..d.desc.physics },
                    ..d.desc
                },
                ..d
            },
            Ok::<LexState, ErrorView>(end),
        ),
{
    names_mass(d, t, Ok(st));
    read_to_end(st, w, end);
    read_word(st, w, end, 0);
}

/// `$damping <number>` sets that number of the collision model.
pub proof fn damping_line(
    d: ScriptView,
    t: TokenView,
    st: LexState,
    w: Seq<Seq<char>>,
    end: LexState,
)
    requires
        lower(t.text) == "$damping"@,
        line_is(st, w, end),
        w.len() == 1,
        numbers(w, 0, 1),
    ensures
        command(d, t, Ok(st)) == (
            ScriptView {
                desc: ModelDescView {
                    physics: PhysicsView { damping: Some(n(w, 0)), ..d.desc.physics },
                    ..d.desc
                },
                ..d
            },
            Ok::<LexState, ErrorView>(end),
        ),
{
    names_damping(d, t, Ok(st));
    read_to_end(st, w, end);
    read_word(st, w, end, 0);
}

/// `$rotdamping <number>` sets that number of the collision model.
pub proof fn rotdamping_line(
    d: ScriptView,
    t: TokenView,
    st: LexState,
    w: Seq<Seq<char>>,
    end: LexState,
)
    requires
        lower(t.text) == "$rotdamping"@,
        line_is(st, w, end),
        w.len() == 1,
        numbers(w, 0, 1),
    ensures
        command(d, t, Ok(st)) == (
            ScriptView {
                desc: ModelDescView {
                    physics: PhysicsView { rot_damping: Some(n(w, 0)), ..d.desc.physics },
                    ..d.desc
                },
                ..d
            },
            Ok::<LexState, ErrorView>(end),
        ),
{
    names_rotdamping(d, t, Ok(st));
    read_to_end(st, w, end);
    read_word(st, w, end, 0);
}

/// `$inertia <number>` sets that number of the collision model.
pub proof fn inertia_line(
    d: ScriptView,
    t: TokenView,
    st: LexState,
    w: Seq<Seq<char>>,
    end: LexState,
)
    requires
        lower(t.text) == "$inertia"@,
        line_is(st, w, end),
        w.len() == 1,
        numbers(w, 0, 1),
    ensures
        command(d, t, Ok(st)) == (
            ScriptView {
                desc: ModelDescView {
                    physics: PhysicsView { inertia: Some(n(w, 0)), ..d.desc.physics },
                    ..d.desc
                },
                ..d
            },
            Ok::<LexState, ErrorView>(end),
        ),
{
    names_inertia(d, t, Ok(st));
    read_to_end(st, w, end);
    read_word(st, w, end, 0);
}

/// `$drag <number>` sets that number of the collision model.
pub proof fn drag_line(
    d: ScriptView,
    t: TokenView,
    st: LexState,
    w: Seq<Seq<char>>,
    end: LexState,
)
    requires
        lower(t.text) == "$drag"@,
        line_is(st, w, end),
        w.len() == 1,
        numbers(w, 0, 1),
    ensures
        command(d, t, Ok(st)) == (
            ScriptView {
                desc: ModelDescView {
                    physics: PhysicsView { drag: Some(n(w, 0)), ..d.desc.physics },
                    ..d.desc
                },
                ..d
            },
            Ok::<LexState, ErrorView>(end),
        ),
{
    names_drag(d, t, Ok(st));
    read_to_end(st, w, end);
    read_word(st, w, end, 0);
}

/// `$rootbone <bone>` names the root.
pub proof fn rootbone_line(
    d: ScriptView,
    t: TokenView,
    st: LexState,
    w: Seq<Seq<char>>,
    end: LexState,
)
    requires
        lower(t.text) == "$rootbone"@,
        line_is(st, w, end),
        w.len() == 1,
    ensures
        command(d, t, Ok(st)) == (
            ScriptView {
                desc: ModelDescView {
                    physics: PhysicsView { root_bone: Some(w[0]), ..d.desc.physics },
                    ..d.desc
                },
                ..d
            },
            Ok::<LexState, ErrorView>(end),
        ),
{
    names_rootbone(d, t, Ok(st));
    read_to_end(st, w, end);
    read_word(st, w, end, 0);
}

/// `$masscenter <x> <y> <z>` gives the centre of mass.
pub proof fn masscenter_line(
    d: ScriptView,
    t: TokenView,
    st: LexState,
    w: Seq<Seq<char>>,
    end: LexState,
)
    requires
        lower(t.text) == "$masscenter"@,
        line_is(st, w, end),
        w.len() == 3,
        numbers(w, 0, 3),
    ensures
        command(d, t, Ok(st)) == (
            ScriptView {
                desc: ModelDescView {
                    physics: PhysicsView {
                        mass_center: Some(Vector { x: n(w, 0), y: n(w, 1), z: n(w, 2) }),
                        ..d.desc.physics
                    },
                    ..d.desc
                },
                ..d
            },
            Ok::<LexState, ErrorView>(end),
        ),
{
    names_masscenter(d, t, Ok(st));
    read_to_end(st, w, end);
    read_vector(st, w, end, 0);
    read_word(st, w, end, 0);
    read_word(st, w, end, 1);
    read_word(st, w, end, 2);
}

/// `$concave` takes a concave mesh apart.
pub proof fn concave_line(
    d: ScriptView,
    t: TokenView,
    st: LexState,
    w: Seq<Seq<char>>,
    end: LexState,
)
    requires
        lower(t.text) == "$concave"@,
        line_is(st, w, end),
        w.len() == 0,
    ensures
        command(d, t, Ok(st)) == (
            ScriptView {
                desc: ModelDescView {
                    physics: PhysicsView { concave: true, ..d.desc.physics },
                    ..d.desc
                },
                ..d
            },
            Ok::<LexState, ErrorView>(end),
        ),
{
    names_concave(d, t, Ok(st));
    read_to_end(st, w, end);
}

/// `$automass` takes the mass from the volume.
pub proof fn automass_line(
    d: ScriptView,
    t: TokenView,
    st: LexState,
    w: Seq<Seq<char>>,
    end: LexState,
)
    requires
        lower(t.text) == "$automass"@,
        line_is(st, w, end),
        w.len() == 0,
    ensures
        command(d, t, Ok(st)) == (
            ScriptView {
                desc: ModelDescView {
                    physics: PhysicsView { auto_mass: true, ..d.desc.physics },
                    ..d.desc
                },
                ..d
            },
            Ok::<LexState, ErrorView>(end),
        ),
{
    names_automass(d, t, Ok(st));
    read_to_end(st, w, end);
}

/// `$declaresequence <name>` adds a sequence that is defined elsewhere.
pub proof fn declaresequence_line(
    d: ScriptView,
    t: TokenView,
    st: LexState,
    w: Seq<Seq<char>>,
    end: LexState,
)
    requires
        lower(t.text) == "$declaresequence"@,
        line_is(st, w, end),
        w.len() == 1,
        d.desc.sequences.len() < MAX_SEQUENCES,
    ensures
        command(d, t, Ok(st)) == (
            ScriptView {
                desc: ModelDescView {
                    sequences: d.desc.sequences.push(bare_sequence(w[0], 0, true)),
                    ..d.desc
                },
                ..d
            },
            Ok::<LexState, ErrorView>(end),
        ),
{
    names_declaresequence(d, t, Ok(st));
    read_to_end(st, w, end);
    read_word(st, w, end, 0);
}

/// `$pushd <path>` enters a directory.
pub proof fn pushd_line(
    d: ScriptView,
    t: TokenView,
    st: LexState,
    w: Seq<Seq<char>>,
    end: LexState,
)
    requires
        lower(t.text) == "$pushd"@,
        line_is(st, w, end),
        w.len() == 1,
        w[0].len() > 0 && w[0].last() != '/' && w[0].last() != '\\',
    ensures
        command(d, t, Ok(st)) == (
            ScriptView {
                cddir: d.cddir.push(
                    (if d.cddir.len() == 0 { Seq::empty() } else { d.cddir.last() }) + w[0] + "/"@,
                ),
                ..d
            },
            Ok::<LexState, ErrorView>(end),
        ),
{
    names_pushd(d, t, Ok(st));
    read_to_end(st, w, end);
    reveal_strlit("/");
    read_word(st, w, end, 0);
}

/// `$cd <path>` goes to a directory.
pub proof fn cd_line(
    d: ScriptView,
    t: TokenView,
    st: LexState,
    w: Seq<Seq<char>>,
    end: LexState,
)
    requires
        lower(t.text) == "$cd"@,
        line_is(st, w, end),
        w.len() == 1,
        w[0].len() > 0 && w[0].last() != '/' && w[0].last() != '\\',
    ensures
        command(d, t, Ok(st)) == (
            ScriptView { cddir: seq![w[0] + "/"@], ..d },
            Ok::<LexState, ErrorView>(end),
        ),
{
    names_cd(d, t, Ok(st));
    read_to_end(st, w, end);
    reveal_strlit("/");
    read_word(st, w, end, 0);
}

/// `$popd` leaves a directory, but not the first one.
pub proof fn popd_line(
    d: ScriptView,
    t: TokenView,
    st: LexState,
    w: Seq<Seq<char>>,
    end: LexState,
)
    requires
        lower(t.text) == "$popd"@,
        line_is(st, w, end),
        w.len() == 0,
    ensures
        command(d, t, Ok(st)) == (
            if d.cddir.len() > 1 { ScriptView { cddir: d.cddir.drop_last(), ..d } } else { d },
            Ok::<LexState, ErrorView>(end),
        ),
{
    names_popd(d, t, Ok(st));
    read_to_end(st, w, end);
}

/// `$opaque` sets its flag and no other.
pub proof fn opaque_line(
    d: ScriptView,
    t: TokenView,
    st: LexState,
    w: Seq<Seq<char>>,
    end: LexState,
)
    requires
        lower(t.text) == "$opaque"@,
        line_is(st, w, end),
        w.len() == 0,
    ensures
        command(d, t, Ok(st)) == (
            ScriptView { gflags: d.gflags | 0x4, ..d },
            Ok::<LexState, ErrorView>(end),
        ),
{
    names_opaque(d, t, Ok(st));
    read_to_end(st, w, end);
}

/// `$mostlyopaque` sets its flag and no other.
pub proof fn mostlyopaque_line(
    d: ScriptView,
    t: TokenView,
    st: LexState,
    w: Seq<Seq<char>>,
    end: LexState,
)
    requires
        lower(t.text) == "$mostlyopaque"@,
        line_is(st, w, end),
        w.len() == 0,
    ensures
        command(d, t, Ok(st)) == (
            ScriptView { gflags: d.gflags | 0x8, ..d },
            Ok::<LexState, ErrorView>(end),
        ),
{
    names_mostlyopaque(d, t, Ok(st));
    read_to_end(st, w, end);
}

/// `$noforcedfade` sets its flag and no other.
pub proof fn noforcedfade_line(
    d: ScriptView,
    t: TokenView,
    st: LexState,
    w: Seq<Seq<char>>,
    end: LexState,
)
    requires
        lower(t.text) == "$noforcedfade"@,
        line_is(st, w, end),
        w.len() == 0,
    ensures
        command(d, t, Ok(st)) == (
            ScriptView { gflags: d.gflags | 0x800, ..d },
            Ok::<LexState, ErrorView>(end),
        ),
{
    names_noforcedfade(d, t, Ok(st));
    read_to_end(st, w, end);
}

/// `$casttextureshadows` sets its flag and no other.
pub proof fn casttextureshadows_line(
    d: ScriptView,
    t: TokenView,
    st: LexState,
    w: Seq<Seq<char>>,
    end: LexState,
)
    requires
        lower(t.text) == "$casttextureshadows"@,
        line_is(st, w, end),
        w.len() == 0,
    ensures
        command(d, t, Ok(st)) == (
            ScriptView { gflags: d.gflags | 0x40000, ..d },
            Ok::<LexState, ErrorView>(end),
        ),
{
    names_casttextureshadows(d, t, Ok(st));
    read_to_end(st, w, end);
}

/// `$ambientboost` sets its flag and no other.
pub proof fn ambientboost_line(
    d: ScriptView,
    t: TokenView,
    st: LexState,
    w: Seq<Seq<char>>,
    end: LexState,
)
    requires
        lower(t.text) == "$ambientboost"@,
        line_is(st, w, end),
        w.len() == 0,
    ensures
        command(d, t, Ok(st)) == (
            ScriptView { gflags: d.gflags | 0x10000, ..d },
            Ok::<LexState, ErrorView>(end),
        ),
{
    names_ambientboost(d, t, Ok(st));
    read_to_end(st, w, end);
}

/// `$donotcastshadows` sets its flag and no other.
pub proof fn donotcastshadows_line(
    d: ScriptView,
    t: TokenView,
    st: LexState,
    w: Seq<Seq<char>>,
    end: LexState,
)
    requires
        lower(t.text) == "$donotcastshadows"@,
        line_is(st, w, end),
        w.len() == 0,
    ensures
        command(d, t, Ok(st)) == (
            ScriptView { gflags: d.gflags | 0x20000, ..d },
            Ok::<LexState, ErrorView>(end),
        ),
{
    names_donotcastshadows(d, t, Ok(st));
    read_to_end(st, w, end);
}

/// `$forcephonemecrossfade` sets its flag and no other.
pub proof fn forcephonemecrossfade_line(
    d: ScriptView,
    t: TokenView,
    st: LexState,
    w: Seq<Seq<char>>,
    end: LexState,
)
    requires
        lower(t.text) == "$forcephonemecrossfade"@,
        line_is(st, w, end),
        w.len() == 0,
    ensures
        command(d, t, Ok(st)) == (
            ScriptView { gflags: d.gflags | 0x1000, ..d },
            Ok::<LexState, ErrorView>(end),
        ),
{
    names_forcephonemecrossfade(d, t, Ok(st));
    read_to_end(st, w, end);
}

} // verus!
