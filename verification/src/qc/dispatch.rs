//! The commands of a script.
use vstd::prelude::*;

use super::body::{body, bodygroup, cmd_body, cmd_bodygroup, cmd_model, model};
use super::collision::{
    animatedfriction, cmd_animatedfriction, cmd_collision_pair, cmd_collisionmodel,
    cmd_jointconstrain, cmd_physics_kv, collision_pair, collisionmodel, is_plain_key,
    jointconstrain, physics_kv, plain_key,
};
use super::error::{ErrorView, QcError};
use super::jiggle::{cmd_jigglebone, jigglebone};
use super::lexer::{left, LexState, Lexer, Token, TokenView};
use super::lods::{cmd_lod, lod};
use super::model::{MaterialsView, ModelDescView, PhysicsView, Script, ScriptView, Vector};
use super::procedural::{cmd_proceduralbones, proceduralbones};
use super::read::{
    around, f, fail_here, i, int_on, line_skipped, num, obeyed, put_around, read_word,
    skip_rest_of_line, v3, vector, word, At,
};
use super::sequence::{
    animation, cmd_animation, cmd_declaresequence, cmd_sequence, declaresequence, sequence,
};
use super::settings::{
    attachment, bonemerge, cd, cdmaterials, cmd_attachment, cmd_bonemerge, cmd_cd,
    cmd_cdmaterials, cmd_contents, cmd_definebone, cmd_hbox, cmd_hboxset, cmd_ikautoplaylock,
    cmd_ikchain, cmd_includemodel, cmd_jointsurfaceprop, cmd_modelname, cmd_popd,
    cmd_poseparameter, cmd_pushd, cmd_sectionframes_top, cmd_texturegroup, contents, definebone,
    hbox, hboxset, ikautoplaylock, ikchain, joined_model, jointsurfaceprop, keyvalues, modelname,
    named_block_skipped, option_keyvalues, popd, poseparameter, pushd, sectionframes,
    skip_block_with_name, texturegroup,
};
use super::weights::{cmd_weightlist, weightlist};
use crate::seqs::viewing;
use crate::text::{cut_first, first_is, lower, lowered, same};

verus! {

broadcast use viewing;

/// The mark of a model that never moves.
pub const FLAG_STATIC_PROP: i32 = 0x10;

/// A command was tried and came to `want`, if it is one.
pub open spec fn tried(
    r: Result<bool, QcError>,
    lex: LexState,
    d: ScriptView,
    old_lex: LexState,
    old_d: ScriptView,
    want: Option<(ScriptView, At)>,
) -> bool {
    match (r, want) {
        (Ok(true), Some((e, s))) => d == e && s == Ok::<LexState, ErrorView>(lex),
        (Ok(false), None) => d == old_d && lex == old_lex,
        (Err(e), Some((_, s))) => s == Err::<LexState, ErrorView>(e@),
        _ => false,
    }
}

/// A command that adds to a list or enters a directory. `None` where the word is no such command.
pub open spec fn list_command(d: ScriptView, low: Seq<char>, s: At) -> Option<(ScriptView, At)> {
    if low == "$modelname"@ {
        Some(modelname(d, s))
    } else if low == "$cd"@ {
        Some(cd(d, s))
    } else if low == "$pushd"@ {
        Some(pushd(d, s))
    } else if low == "$cdmaterials"@ {
        Some({
            let (paths, s) = cdmaterials(d.desc.materials.search_paths, s);
            (
                ScriptView {
                    desc: ModelDescView {
                        materials: MaterialsView { search_paths: paths, ..d.desc.materials },
                        ..d.desc
                    },
                    ..d
                },
                s,
            )
        })
    } else if low == "$contents"@ {
        Some(contents(d, s))
    } else if low == "$sectionframes"@ {
        Some(sectionframes(d, s))
    } else if low == "$poseparameter"@ {
        Some(poseparameter(d, s))
    } else if low == "$texturegroup"@ {
        Some(texturegroup(d, s))
    } else if low == "$definebone"@ {
        Some(definebone(d, s))
    } else if low == "$bonemerge"@ {
        Some(bonemerge(d, s))
    } else if low == "$attachment"@ {
        Some(attachment(d, s))
    } else if low == "$hboxset"@ {
        Some(hboxset(d, s))
    } else if low == "$hbox"@ {
        Some(hbox(d, s))
    } else if low == "$ikchain"@ {
        Some(ikchain(d, s))
    } else if low == "$ikautoplaylock"@ {
        Some(ikautoplaylock(d, s))
    } else if low == "$includemodel"@ {
        Some(joined_model(d, s))
    } else if low == "$jointsurfaceprop"@ {
        Some(jointsurfaceprop(d, s))
    } else {
        None
    }
}

/// A command that adds to a list or enters a directory. The result tells whether the word is such a command.
fn try_list(lex: &mut Lexer, d: &mut Script, low: &str) -> (r: Result<bool, QcError>)
    requires
        old(lex).wf(),
    ensures
        final(lex).wf(),
        tried(
            r,
            final(lex)@,
            final(d)@,
            old(lex)@,
            old(d)@,
            list_command(old(d)@, low@, Ok(old(lex)@)),
        ),
        left(final(lex)@) <= left(old(lex)@),
{
    if same(low, "$modelname") {
        match cmd_modelname(lex, d) {
            Ok(_) => {},
            Err(e) => {
                return Err(e);
            },
        }
    } else if same(low, "$cd") {
        match cmd_cd(lex, d) {
            Ok(_) => {},
            Err(e) => {
                return Err(e);
            },
        }
    } else if same(low, "$pushd") {
        match cmd_pushd(lex, d) {
            Ok(_) => {},
            Err(e) => {
                return Err(e);
            },
        }
    } else if same(low, "$cdmaterials") {
        match cmd_cdmaterials(lex, d) {
            Ok(_) => {},
            Err(e) => {
                return Err(e);
            },
        }
    } else if same(low, "$contents") {
        match cmd_contents(lex, d) {
            Ok(_) => {},
            Err(e) => {
                return Err(e);
            },
        }
    } else if same(low, "$sectionframes") {
        match cmd_sectionframes_top(lex, d) {
            Ok(_) => {},
            Err(e) => {
                return Err(e);
            },
        }
    } else if same(low, "$poseparameter") {
        match cmd_poseparameter(lex, d) {
            Ok(_) => {},
            Err(e) => {
                return Err(e);
            },
        }
    } else if same(low, "$texturegroup") {
        match cmd_texturegroup(lex, d) {
            Ok(_) => {},
            Err(e) => {
                return Err(e);
            },
        }
    } else if same(low, "$definebone") {
        match cmd_definebone(lex, d) {
            Ok(_) => {},
            Err(e) => {
                return Err(e);
            },
        }
    } else if same(low, "$bonemerge") {
        match cmd_bonemerge(lex, d) {
            Ok(_) => {},
            Err(e) => {
                return Err(e);
            },
        }
    } else if same(low, "$attachment") {
        match cmd_attachment(lex, d) {
            Ok(_) => {},
            Err(e) => {
                return Err(e);
            },
        }
    } else if same(low, "$hboxset") {
        match cmd_hboxset(lex, d) {
            Ok(_) => {},
            Err(e) => {
                return Err(e);
            },
        }
    } else if same(low, "$hbox") {
        match cmd_hbox(lex, d) {
            Ok(_) => {},
            Err(e) => {
                return Err(e);
            },
        }
    } else if same(low, "$ikchain") {
        match cmd_ikchain(lex, d) {
            Ok(_) => {},
            Err(e) => {
                return Err(e);
            },
        }
    } else if same(low, "$ikautoplaylock") {
        match cmd_ikautoplaylock(lex, d) {
            Ok(_) => {},
            Err(e) => {
                return Err(e);
            },
        }
    } else if same(low, "$includemodel") {
        match cmd_includemodel(lex, d) {
            Ok(_) => {},
            Err(e) => {
                return Err(e);
            },
        }
    } else if same(low, "$jointsurfaceprop") {
        match cmd_jointsurfaceprop(lex, d) {
            Ok(_) => {},
            Err(e) => {
                return Err(e);
            },
        }
    } else {
        return Ok(false);
    }
    Ok(true)
}

/// A command that may have a block. `None` where the word is no such command.
pub open spec fn block_command(d: ScriptView, low: Seq<char>, s: At) -> Option<(ScriptView, At)> {
    if low == "$body"@ {
        Some(body(d, s))
    } else if low == "$bodygroup"@ {
        Some(bodygroup(d, s))
    } else if low == "$model"@ {
        Some(model(d, s))
    } else if low == "$sequence"@ {
        Some(sequence(d, s))
    } else if low == "$animation"@ {
        Some(animation(d, s))
    } else if low == "$declaresequence"@ {
        Some(declaresequence(d, s))
    } else if low == "$lod"@ {
        Some(lod(d, None, s))
    } else if low == "$shadowlod"@ {
        Some(lod(d, Some(0u32), s))
    } else if low == "$jigglebone"@ {
        Some(jigglebone(d, s))
    } else if low == "$proceduralbones"@ {
        Some(proceduralbones(d, s))
    } else if low == "$collisionmodel"@ {
        Some(collisionmodel(d, false, s))
    } else if low == "$collisionjoints"@ {
        Some(collisionmodel(d, true, s))
    } else if low == "$weightlist"@ {
        Some(weightlist(d, s))
    } else {
        None
    }
}

/// A command that may have a block. The result tells whether the word is such a command.
fn try_block(lex: &mut Lexer, d: &mut Script, low: &str) -> (r: Result<bool, QcError>)
    requires
        old(lex).wf(),
    ensures
        final(lex).wf(),
        tried(
            r,
            final(lex)@,
            final(d)@,
            old(lex)@,
            old(d)@,
            block_command(old(d)@, low@, Ok(old(lex)@)),
        ),
        left(final(lex)@) <= left(old(lex)@),
{
    if same(low, "$body") {
        match cmd_body(lex, d) {
            Ok(_) => {},
            Err(e) => {
                return Err(e);
            },
        }
    } else if same(low, "$bodygroup") {
        match cmd_bodygroup(lex, d) {
            Ok(_) => {},
            Err(e) => {
                return Err(e);
            },
        }
    } else if same(low, "$model") {
        match cmd_model(lex, d) {
            Ok(_) => {},
            Err(e) => {
                return Err(e);
            },
        }
    } else if same(low, "$sequence") {
        match cmd_sequence(lex, d) {
            Ok(_) => {},
            Err(e) => {
                return Err(e);
            },
        }
    } else if same(low, "$animation") {
        match cmd_animation(lex, d) {
            Ok(_) => {},
            Err(e) => {
                return Err(e);
            },
        }
    } else if same(low, "$declaresequence") {
        match cmd_declaresequence(lex, d) {
            Ok(_) => {},
            Err(e) => {
                return Err(e);
            },
        }
    } else if same(low, "$lod") {
        match cmd_lod(lex, d, None) {
            Ok(_) => {},
            Err(e) => {
                return Err(e);
            },
        }
    } else if same(low, "$shadowlod") {
        match cmd_lod(lex, d, Some(0)) {
            Ok(_) => {},
            Err(e) => {
                return Err(e);
            },
        }
    } else if same(low, "$jigglebone") {
        match cmd_jigglebone(lex, d) {
            Ok(_) => {},
            Err(e) => {
                return Err(e);
            },
        }
    } else if same(low, "$proceduralbones") {
        match cmd_proceduralbones(lex, d) {
            Ok(_) => {},
            Err(e) => {
                return Err(e);
            },
        }
    } else if same(low, "$collisionmodel") {
        match cmd_collisionmodel(lex, d, false) {
            Ok(_) => {},
            Err(e) => {
                return Err(e);
            },
        }
    } else if same(low, "$collisionjoints") {
        match cmd_collisionmodel(lex, d, true) {
            Ok(_) => {},
            Err(e) => {
                return Err(e);
            },
        }
    } else if same(low, "$weightlist") {
        match cmd_weightlist(lex, d) {
            Ok(_) => {},
            Err(e) => {
                return Err(e);
            },
        }
    } else {
        return Ok(false);
    }
    Ok(true)
}

/// The mark that a command sets.
pub open spec fn flag_of(low: Seq<char>) -> Option<i32> {
    if low == "$opaque"@ {
        Some(0x4i32)
    } else if low == "$mostlyopaque"@ {
        Some(0x8i32)
    } else if low == "$noforcedfade"@ {
        Some(0x800i32)
    } else if low == "$casttextureshadows"@ {
        Some(0x40000i32)
    } else if low == "$ambientboost"@ {
        Some(0x10000i32)
    } else if low == "$donotcastshadows"@ {
        Some(0x20000i32)
    } else if low == "$forcephonemecrossfade"@ {
        Some(0x1000i32)
    } else if low == "$constantdirectionallight"@ {
        Some(0x2000i32)
    } else {
        None
    }
}

/// The mark that a command sets.
fn find_flag(low: &str) -> (r: Option<i32>)
    ensures
        r == flag_of(low@),
{
    if same(low, "$opaque") {
        Some(0x4)
    } else if same(low, "$mostlyopaque") {
        Some(0x8)
    } else if same(low, "$noforcedfade") {
        Some(0x800)
    } else if same(low, "$casttextureshadows") {
        Some(0x40000)
    } else if same(low, "$ambientboost") {
        Some(0x10000)
    } else if same(low, "$donotcastshadows") {
        Some(0x20000)
    } else if same(low, "$forcephonemecrossfade") {
        Some(0x1000)
    } else if same(low, "$constantdirectionallight") {
        Some(0x2000)
    } else {
        None
    }
}

/// Whether a command is left out, with the rest of its line.
pub open spec fn is_ignored(low: Seq<char>) -> bool {
    low == "$autocenter"@
        || low == "$zbrush"@
        || low == "$cliptotextures"@
        || low == "$externaltextures"@
        || low == "$obsolete"@
        || low == "$minlod"@
        || low == "$allowrootlods"@
        || low == "$skinnedlods"@
        || low == "$fakevta "@
        || low == "$motionrollback"@
        || low == "$subd"@
        || low == "$lcaseallsequences"@
        || low == "$addsearchdir"@
        || low == "$centerbonesonverts"@
        || low == "$gamma"@
        || low == "$hgroup"@
        || low == "$decal"@
        || low == "$ignorez"@
        || low == "$vertexcolor"@
        || low == "$unlockdefinebones"@
        || low == "$lockbonelengths"@
        || low == "$jigglebonerealign"@
        || low == "$bonesaveframe"@
        || low == "$declareanimation"@
        || low == "$calctransitions"@
        || low == "$skiptransition"@
        || low == "$forcerealign"@
        || low == "$collapsebones"@
        || low == "$collapsebonesaggressive"@
        || low == "$alwayscollapse"@
        || low == "$screenalign"@
        || low == "$renamematerial"@
        || low == "$renamebone"@
        || low == "$hierarchy"@
        || low == "$heirarchy"@
        || low == "$insertbone"@
        || low == "$limitrotation"@
        || low == "$controller"@
        || low == "$root"@
        || low == "$upaxis"@
        || low == "$origin"@
        || low == "$maxverts"@
        || low == "$maxbones"@
        || low == "$filebuffersize"@
}

/// Tells whether a command is left out, with the rest of its line.
fn ignored(low: &str) -> (r: bool)
    ensures
        r == is_ignored(low@),
{
    same(low, "$autocenter")
        || same(low, "$zbrush")
        || same(low, "$cliptotextures")
        || same(low, "$externaltextures")
        || same(low, "$obsolete")
        || same(low, "$minlod")
        || same(low, "$allowrootlods")
        || same(low, "$skinnedlods")
        || same(low, "$fakevta ")
        || same(low, "$motionrollback")
        || same(low, "$subd")
        || same(low, "$lcaseallsequences")
        || same(low, "$addsearchdir")
        || same(low, "$centerbonesonverts")
        || same(low, "$gamma")
        || same(low, "$hgroup")
        || same(low, "$decal")
        || same(low, "$ignorez")
        || same(low, "$vertexcolor")
        || same(low, "$unlockdefinebones")
        || same(low, "$lockbonelengths")
        || same(low, "$jigglebonerealign")
        || same(low, "$bonesaveframe")
        || same(low, "$declareanimation")
        || same(low, "$calctransitions")
        || same(low, "$skiptransition")
        || same(low, "$forcerealign")
        || same(low, "$collapsebones")
        || same(low, "$collapsebonesaggressive")
        || same(low, "$alwayscollapse")
        || same(low, "$screenalign")
        || same(low, "$renamematerial")
        || same(low, "$renamebone")
        || same(low, "$hierarchy")
        || same(low, "$heirarchy")
        || same(low, "$insertbone")
        || same(low, "$limitrotation")
        || same(low, "$controller")
        || same(low, "$root")
        || same(low, "$upaxis")
        || same(low, "$origin")
        || same(low, "$maxverts")
        || same(low, "$maxbones")
        || same(low, "$filebuffersize")
}

/// A script with other physics.
pub open spec fn with_physics(d: ScriptView, p: PhysicsView) -> ScriptView {
    ScriptView { desc: ModelDescView { physics: p, ..d.desc }, ..d }
}

/// A command that sets one thing. `None` where the word is no such command.
pub open spec fn setting(d: ScriptView, low: Seq<char>, s: At) -> Option<(ScriptView, At)> {
    if low == "$popd"@ {
        Some((popd(d), s))
    } else if low == "$scale"@ {
        let (v, s) = num(s);
        Some((ScriptView { scale: v, ..d }, s))
    } else if low == "$surfaceprop"@ {
        let (v, s) = word(s);
        Some((ScriptView { desc: ModelDescView { surface_prop: Some(v), ..d.desc }, ..d }, s))
    } else if low == "$eyeposition"@ {
        let (v, s) = vector(s);
        Some((ScriptView { desc: ModelDescView { eye_position: Some(v), ..d.desc }, ..d }, s))
    } else if low == "$illumposition"@ {
        let (v, s) = vector(s);
        Some((ScriptView { desc: ModelDescView { illum_position: Some(v), ..d.desc }, ..d }, s))
    } else if low == "$maxeyedeflection"@ {
        let (v, s) = num(s);
        Some(
            (ScriptView { desc: ModelDescView { max_eye_deflection: Some(v), ..d.desc }, ..d }, s),
        )
    } else if low == "$bbox"@ {
        let (min, s) = vector(s);
        let (max, s) = vector(s);
        Some(
            (
                ScriptView {
                    desc: ModelDescView { hull_min: Some(min), hull_max: Some(max), ..d.desc },
                    ..d
                },
                s,
            ),
        )
    } else if low == "$cbox"@ {
        Some((d, vector(vector(s).1).1))
    } else if low == "$staticprop"@ {
        Some(
            (
                ScriptView {
                    desc: ModelDescView { static_prop: true, ..d.desc },
                    gflags: d.gflags | FLAG_STATIC_PROP,
                    ..d
                },
                s,
            ),
        )
    } else if low == "$realignbones"@ {
        Some((ScriptView { desc: ModelDescView { realign_bones: true, ..d.desc }, ..d }, s))
    } else if low == "$skipboneinbbox"@ {
        Some((ScriptView { desc: ModelDescView { skip_bone_in_bbox: true, ..d.desc }, ..d }, s))
    } else if low == "$animblocksize"@ {
        let (v, s) = int_on(s);
        Some((ScriptView { desc: ModelDescView { anim_block_size: Some(v), ..d.desc }, ..d }, s))
    } else if low == "$keyvalues"@ {
        let (v, s) = keyvalues(s);
        Some((ScriptView { desc: ModelDescView { key_values: Some(v), ..d.desc }, ..d }, s))
    } else {
        None
    }
}

/// A command that sets one thing. The result tells whether the word is such a command.
fn try_setting(lex: &mut Lexer, d: &mut Script, low: &str) -> (r: Result<bool, QcError>)
    requires
        old(lex).wf(),
    ensures
        final(lex).wf(),
        tried(
            r,
            final(lex)@,
            final(d)@,
            old(lex)@,
            old(d)@,
            setting(old(d)@, low@, Ok(old(lex)@)),
        ),
        left(final(lex)@) <= left(old(lex)@),
{
    if same(low, "$popd") {
        cmd_popd(d);
    } else if same(low, "$scale") {
        d.scale = match f(lex) {
            Ok(v) => v,
            Err(e) => {
                return Err(e);
            },
        };
    } else if same(low, "$surfaceprop") {
        d.desc.surface_prop = match read_word(lex) {
            Ok(v) => Some(v),
            Err(e) => {
                return Err(e);
            },
        };
    } else if same(low, "$eyeposition") {
        d.desc.eye_position = match v3(lex) {
            Ok(v) => Some(v),
            Err(e) => {
                return Err(e);
            },
        };
    } else if same(low, "$illumposition") {
        d.desc.illum_position = match v3(lex) {
            Ok(v) => Some(v),
            Err(e) => {
                return Err(e);
            },
        };
    } else if same(low, "$maxeyedeflection") {
        d.desc.max_eye_deflection = match f(lex) {
            Ok(v) => Some(v),
            Err(e) => {
                return Err(e);
            },
        };
    } else if same(low, "$bbox") {
        let min: Vector = match v3(lex) {
            Ok(v) => v,
            Err(e) => {
                return Err(e);
            },
        };
        let max: Vector = match v3(lex) {
            Ok(v) => v,
            Err(e) => {
                return Err(e);
            },
        };
        d.desc.hull_min = Some(min);
        d.desc.hull_max = Some(max);
    } else if same(low, "$cbox") {
        match v3(lex) {
            Ok(_) => {},
            Err(e) => {
                return Err(e);
            },
        }
        match v3(lex) {
            Ok(_) => {},
            Err(e) => {
                return Err(e);
            },
        }
    } else if same(low, "$staticprop") {
        d.desc.static_prop = true;
        d.gflags = d.gflags | FLAG_STATIC_PROP;
    } else if same(low, "$realignbones") {
        d.desc.realign_bones = true;
    } else if same(low, "$skipboneinbbox") {
        d.desc.skip_bone_in_bbox = true;
    } else if same(low, "$animblocksize") {
        d.desc.anim_block_size = match i(lex) {
            Ok(v) => Some(v),
            Err(e) => {
                return Err(e);
            },
        };
    } else if same(low, "$keyvalues") {
        d.desc.key_values = match option_keyvalues(lex) {
            Ok(v) => Some(v),
            Err(e) => {
                return Err(e);
            },
        };
    } else {
        return Ok(false);
    }
    Ok(true)
}

/// A command that says how the model collides. `None` where the word is no such command.
pub open spec fn physics_command(d: ScriptView, low: Seq<char>, s: At) -> Option<
    (ScriptView, At),
> {
    let p = d.desc.physics;
    if low == "$jointconstrain"@ {
        let (p, s) = jointconstrain(p, s);
        Some((with_physics(d, p), s))
    } else if low == "$animatedfriction"@ {
        let (p, s) = animatedfriction(p, s);
        Some((with_physics(d, p), s))
    } else if low == "$noselfcollisions"@ {
        Some((with_physics(d, PhysicsView { no_self_collisions: true, ..p }), s))
    } else if low == "$jointcollide"@ {
        let (p, s) = collision_pair(p, false, s);
        Some((with_physics(d, p), s))
    } else if low == "$jointmerge"@ {
        let (p, s) = collision_pair(p, true, s);
        Some((with_physics(d, p), s))
    } else if low.len() > 0 && low[0] == '$' && is_plain_key(low.skip(1)) {
        let (p, s) = physics_kv(p, low.skip(1), s);
        Some((with_physics(d, p), s))
    } else {
        None
    }
}

/// A command that says how the model collides. The result tells whether the word is such a
/// command.
fn try_physics(lex: &mut Lexer, d: &mut Script, low: &str) -> (r: Result<bool, QcError>)
    requires
        old(lex).wf(),
    ensures
        final(lex).wf(),
        tried(
            r,
            final(lex)@,
            final(d)@,
            old(lex)@,
            old(d)@,
            physics_command(old(d)@, low@, Ok(old(lex)@)),
        ),
        left(final(lex)@) <= left(old(lex)@),
{
    if same(low, "$jointconstrain") {
        match cmd_jointconstrain(lex, &mut d.desc.physics) {
            Ok(_) => {},
            Err(e) => {
                return Err(e);
            },
        }
    } else if same(low, "$animatedfriction") {
        match cmd_animatedfriction(lex, &mut d.desc.physics) {
            Ok(_) => {},
            Err(e) => {
                return Err(e);
            },
        }
    } else if same(low, "$noselfcollisions") {
        d.desc.physics.no_self_collisions = true;
    } else if same(low, "$jointcollide") {
        match cmd_collision_pair(lex, &mut d.desc.physics, false) {
            Ok(_) => {},
            Err(e) => {
                return Err(e);
            },
        }
    } else if same(low, "$jointmerge") {
        match cmd_collision_pair(lex, &mut d.desc.physics, true) {
            Ok(_) => {},
            Err(e) => {
                return Err(e);
            },
        }
    } else if first_is(low, '$') {
        let key: String = cut_first(low);
        if !plain_key(key.as_str()) {
            return Ok(false);
        }
        match cmd_physics_kv(lex, &mut d.desc.physics, key.as_str()) {
            Ok(_) => {},
            Err(e) => {
                return Err(e);
            },
        }
    } else {
        return Ok(false);
    }
    Ok(true)
}

/// What is wrong with a list that would change what counts everywhere.
pub open spec fn no_default_list() -> Seq<char> {
    "$defaultweightlist 尚未支持 —— 它会覆盖**所有**未显式指定 weightlist 的序列的权重，静默忽略会产出语义错误的模型。语料里该命令出现 0 次（$weightlist 出现 9 次）。若你有用到它的 QC，请改用 `$weightlist \"<名>\"` 并在序列上显式引用。"@
}

/// A command that is refused, left out, or marks the model.
pub open spec fn other_command(d: ScriptView, low: Seq<char>, s: At) -> (ScriptView, At) {
    if low == "$defaultweightlist"@ {
        (d, fail_here(s, no_default_list()))
    } else if low == "$definevariable"@ || low == "$redefinevariable"@ {
        (d, s)
    } else if low == "$fakevta"@ {
        (d, named_block_skipped(s))
    } else if low == "$nekomodel"@ {
        (
            d,
            fail_here(
                s,
                "$nekomodel 指向 DMX 源，mdlc 不实现 DMX（官方也委托 dmxconvert.exe）"@,
            ),
        )
    } else if let Some(bit) = flag_of(low) {
        (
            ScriptView { gflags: d.gflags | bit, ..d },
            if low == "$constantdirectionallight"@ {
                num(s).1
            } else {
                s
            },
        )
    } else if is_ignored(low) {
        (d, line_skipped(s))
    } else {
        (d, fail_here(s, around("未知的 QC 命令 "@, low, "（官方是 bad command）"@)))
    }
}

/// What a command comes to.
pub open spec fn command(d: ScriptView, t: TokenView, s: At) -> (ScriptView, At) {
    let low = lower(t.text);
    if let Some(r) = list_command(d, low, s) {
        r
    } else if let Some(r) = block_command(d, low, s) {
        r
    } else if let Some(r) = setting(d, low, s) {
        r
    } else if let Some(r) = physics_command(d, low, s) {
        r
    } else {
        other_command(d, low, s)
    }
}

/// Obeys a command that is refused, left out, or marks the model.
fn obey_other(lex: &mut Lexer, d: &mut Script, low: &str) -> (r: Result<(), QcError>)
    requires
        old(lex).wf(),
    ensures
        final(lex).wf(),
        obeyed(r, final(lex)@, final(d)@, other_command(old(d)@, low@, Ok(old(lex)@))),
        left(final(lex)@) <= left(old(lex)@),
{
    if same(low, "$defaultweightlist") {
        return Err(
            lex.error(
                "$defaultweightlist 尚未支持 —— 它会覆盖**所有**未显式指定 weightlist 的序列的权重，静默忽略会产出语义错误的模型。语料里该命令出现 0 次（$weightlist 出现 9 次）。若你有用到它的 QC，请改用 `$weightlist \"<名>\"` 并在序列上显式引用。".to_owned(),
            ),
        );
    }
    if same(low, "$definevariable") || same(low, "$redefinevariable") {
        return Ok(());
    }
    if same(low, "$fakevta") {
        return skip_block_with_name(lex);
    }
    if same(low, "$nekomodel") {
        return Err(
            lex.error(
                "$nekomodel 指向 DMX 源，mdlc 不实现 DMX（官方也委托 dmxconvert.exe）".to_owned(),
            ),
        );
    }
    if let Some(bit) = find_flag(low) {
        d.gflags = d.gflags | bit;
        if same(low, "$constantdirectionallight") {
            match f(lex) {
                Ok(_) => {},
                Err(e) => {
                    return Err(e);
                },
            }
        }
        return Ok(());
    }
    if ignored(low) {
        skip_rest_of_line(lex);
        return Ok(());
    }
    Err(lex.error(put_around("未知的 QC 命令 ", low, "（官方是 bad command）")))
}

/// Obeys a command.
pub fn dispatch(lex: &mut Lexer, d: &mut Script, t: &Token) -> (r: Result<(), QcError>)
    requires
        old(lex).wf(),
    ensures
        final(lex).wf(),
        obeyed(r, final(lex)@, final(d)@, command(old(d)@, t@, Ok(old(lex)@))),
        left(final(lex)@) <= left(old(lex)@),
{
    let low: String = lowered(t.text.as_str());
    let list: bool = match try_list(lex, d, low.as_str()) {
        Ok(v) => v,
        Err(e) => {
            return Err(e);
        },
    };
    if list {
        return Ok(());
    }
    let block: bool = match try_block(lex, d, low.as_str()) {
        Ok(v) => v,
        Err(e) => {
            return Err(e);
        },
    };
    if block {
        return Ok(());
    }
    let one: bool = match try_setting(lex, d, low.as_str()) {
        Ok(v) => v,
        Err(e) => {
            return Err(e);
        },
    };
    if one {
        return Ok(());
    }
    let physics: bool = match try_physics(lex, d, low.as_str()) {
        Ok(v) => v,
        Err(e) => {
            return Err(e);
        },
    };
    if physics {
        return Ok(());
    }
    obey_other(lex, d, low.as_str())
}

} // verus!
