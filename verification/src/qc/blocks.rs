//! What the commands with options and blocks mean.
use vstd::prelude::*;

use super::body::{eyelid, find_eyeball, holds, model_option, with_lid, with_lids, words_on_line};
use super::dispatch::command;
use super::error::ErrorView;
use super::lexer::{LexState, TokenView};
use super::lines::{after, goes_on, line_is, n, numbers, read_to_end, read_word};
use super::lods::{replacemodel, with_lod};
use super::model::{
    AnimationView, BodyModelView, EyeballLidView, EyeballView, FlexView, IkRuleType, LidEntryView,
    LodModelView, ModelDescView, PhysicsView, PoseParameterView, QuatInterpBoneView,
    QuatInterpTrigger, ScriptView, SequenceView, Vector, WeightEntryView,
};
use super::naming::{
    names_animation, names_body, names_collisionjoints, names_collisionmodel, names_includemodel,
    names_model, names_sequence,
};
use super::procedural::{numbers_from, with_line, Following};
use super::read::{integer_of, more};
use super::sequence::{find_pose, ikrule, rule_options, sequence_options, widened};
use super::settings::{cdmaterials, resolved};
use super::weights::{posweight, with_weight};
use crate::arith::at_most;
use crate::single::{is_nan, reading, ONE};
use crate::text::{begins, ends, forward, lower};
use crate::words::{slashes_at, words};

verus! {

/// The name of a mesh file that no option has.
pub open spec fn is_mesh_file(x: Seq<char>) -> bool {
    &&& x.len() >= 5
    &&& x.skip(x.len() - 4) == ".smd"@
    &&& !begins(lower(x), "act_"@)
}

/// No option of a sequence ends like the name of a file.
proof fn files_are_no_options(x: Seq<char>)
    requires
        is_mesh_file(x),
    ensures
        lower(x) != "blend"@ && lower(x) != "fps"@ && lower(x) != "loop"@ && lower(x) != "delta"@,
        lower(x) != "predelta"@ && lower(x) != "noautoik"@ && lower(x) != "autoik"@,
        lower(x) != "snap"@ && lower(x) != "autoplay"@ && lower(x) != "post"@,
        lower(x) != "realtime"@ && lower(x) != "hidden"@ && lower(x) != "worldspace"@,
        lower(x) != "fadein"@ && lower(x) != "fadeout"@ && lower(x) != "activity"@,
        lower(x) != "blendwidth"@ && lower(x) != "addlayer"@ && lower(x) != "event"@,
        lower(x) != "ikrule"@ && lower(x) != "iklock"@ && lower(x) != "weightlist"@,
        lower(x) != "sectionframes"@ && lower(x) != "keyvalues"@ && lower(x) != "frames"@,
        lower(x) != "subtract"@ && x != "{"@ && x != "}"@,
        ends(x, ".smd"@),
{
    let k = x.len() - 4;
    assert(".smd"@.len() == 4 && ".smd"@[0] == '.') by {
        reveal_strlit(".smd");
    }
    assert(x.skip(k)[0] == x[k]);
    assert(lower(x)[k] == '.');
    assert("{"@.len() == 1 && "}"@.len() == 1) by {
        reveal_strlit("{");
        reveal_strlit("}");
    }
    assert("fps"@.len() == 3) by {
        reveal_strlit("fps");
    }
    assert("blend"@.len() == 5 && "blend"@[1] != '.') by {
        reveal_strlit("blend");
    }
    assert("loop"@.len() == 4 && "loop"@[0] != '.') by {
        reveal_strlit("loop");
    }
    assert("delta"@.len() == 5 && "delta"@[1] != '.') by {
        reveal_strlit("delta");
    }
    assert("predelta"@.len() == 8 && "predelta"@[4] != '.') by {
        reveal_strlit("predelta");
    }
    assert("noautoik"@.len() == 8 && "noautoik"@[4] != '.') by {
        reveal_strlit("noautoik");
    }
    assert("autoik"@.len() == 6 && "autoik"@[2] != '.') by {
        reveal_strlit("autoik");
    }
    assert("snap"@.len() == 4 && "snap"@[0] != '.') by {
        reveal_strlit("snap");
    }
    assert("autoplay"@.len() == 8 && "autoplay"@[4] != '.') by {
        reveal_strlit("autoplay");
    }
    assert("post"@.len() == 4 && "post"@[0] != '.') by {
        reveal_strlit("post");
    }
    assert("realtime"@.len() == 8 && "realtime"@[4] != '.') by {
        reveal_strlit("realtime");
    }
    assert("hidden"@.len() == 6 && "hidden"@[2] != '.') by {
        reveal_strlit("hidden");
    }
    assert("worldspace"@.len() == 10 && "worldspace"@[6] != '.') by {
        reveal_strlit("worldspace");
    }
    assert("fadein"@.len() == 6 && "fadein"@[2] != '.') by {
        reveal_strlit("fadein");
    }
    assert("fadeout"@.len() == 7 && "fadeout"@[3] != '.') by {
        reveal_strlit("fadeout");
    }
    assert("activity"@.len() == 8 && "activity"@[4] != '.') by {
        reveal_strlit("activity");
    }
    assert("blendwidth"@.len() == 10 && "blendwidth"@[6] != '.') by {
        reveal_strlit("blendwidth");
    }
    assert("addlayer"@.len() == 8 && "addlayer"@[4] != '.') by {
        reveal_strlit("addlayer");
    }
    assert("event"@.len() == 5 && "event"@[1] != '.') by {
        reveal_strlit("event");
    }
    assert("ikrule"@.len() == 6 && "ikrule"@[2] != '.') by {
        reveal_strlit("ikrule");
    }
    assert("iklock"@.len() == 6 && "iklock"@[2] != '.') by {
        reveal_strlit("iklock");
    }
    assert("weightlist"@.len() == 10 && "weightlist"@[6] != '.') by {
        reveal_strlit("weightlist");
    }
    assert("sectionframes"@.len() == 13 && "sectionframes"@[9] != '.') by {
        reveal_strlit("sectionframes");
    }
    assert("keyvalues"@.len() == 9 && "keyvalues"@[5] != '.') by {
        reveal_strlit("keyvalues");
    }
    assert("frames"@.len() == 6 && "frames"@[2] != '.') by {
        reveal_strlit("frames");
    }
    assert("subtract"@.len() == 8 && "subtract"@[4] != '.') by {
        reveal_strlit("subtract");
    }
}

/// The options that the laws below name.
proof fn spelled_here()
    ensures
        "fps"@.len() == 3 && "fps"@[0] == 'f',
        "loop"@.len() == 4 && "loop"@[0] == 'l' && "loop"@[0] == 'l',
        "blend"@.len() == 5 && "blend"@[3] == 'n',
        "origin"@.len() == 6 && "origin"@[0] == 'o' && "origin"@[1] == 'r',
        "angles"@.len() == 6 && "angles"@[0] == 'a' && "angles"@[1] == 'n',
        "rotate"@.len() == 6 && "rotate"@[0] == 'r' && "rotate"@[1] == 'o',
        "scale"@.len() == 5 && "scale"@[3] == 'l',
        "frame"@.len() == 5 && "frame"@[3] == 'm',
        "frames"@.len() == 6 && "frames"@[0] == 'f' && "frames"@[1] == 'r',
        "subtract"@.len() == 8 && "subtract"@[7] == 't',
        "noautoik"@.len() == 8 && "noautoik"@[7] == 'k',
        "autoik"@.len() == 6 && "autoik"@[0] == 'a' && "autoik"@[1] == 'u',
        "weightlist"@.len() == 10 && "weightlist"@[4] == 'h',
        "ikrule"@.len() == 6 && "ikrule"@[0] == 'i' && "ikrule"@[1] == 'k',
        "fudgeloop"@.len() == 9 && "fudgeloop"@[0] == 'f' && "fudgeloop"@[0] == 'f',
        "snap"@.len() == 4 && "snap"@[0] == 's' && "snap"@[0] == 's',
        "startloop"@.len() == 9 && "startloop"@[0] == 's' && "startloop"@[0] == 's',
        "{"@.len() == 1 && "{"@[0] == '{',
        "}"@.len() == 1 && "}"@[0] == '}',
        "flexfile"@.len() == 8 && "flexfile"@[7] == 'e',
        "flex"@.len() == 4 && "flex"@[0] == 'f',
        "flexpair"@.len() == 8 && "flexpair"@[7] == 'r',
        "defaultflex"@.len() == 11 && "defaultflex"@[0] == 'd',
        "position"@.len() == 8 && "position"@[7] == 'n',
        "split"@.len() == 5 && "split"@[3] == 'i',
        "decay"@.len() == 5 && "decay"@[3] == 'a',
        "touch"@.len() == 5 && "touch"@[3] == 'c',
        "footstep"@.len() == 8 && "footstep"@[7] == 'p',
        "attachment"@.len() == 10 && "attachment"@[4] == 'c',
        "release"@.len() == 7 && "release"@[0] == 'r',
        "unlatch"@.len() == 7 && "unlatch"@[0] == 'u',
        "usesource"@.len() == 9 && "usesource"@[0] == 'u',
        "usesequence"@.len() == 11 && "usesequence"@[0] == 'u',
        "fakeorigin"@.len() == 10 && "fakeorigin"@[4] == 'o',
        "fakerotate"@.len() == 10 && "fakerotate"@[4] == 'r',
        "floor"@.len() == 5 && "floor"@[3] == 'o',
        "height"@.len() == 6 && "height"@[0] == 'h' && "height"@[1] == 'e',
        "radius"@.len() == 6 && "radius"@[0] == 'r' && "radius"@[1] == 'a',
        "pad"@.len() == 3 && "pad"@[0] == 'p',
        "target"@.len() == 6 && "target"@[0] == 't' && "target"@[1] == 'a',
        "contact"@.len() == 7 && "contact"@[0] == 'c',
        "range"@.len() == 5 && "range"@[3] == 'g',
        "bone"@.len() == 4 && "bone"@[0] == 'b',
        "basepos"@.len() == 7 && "basepos"@[0] == 'b',
        "base_pos"@.len() == 8 && "base_pos"@[7] == 's',
        "trigger"@.len() == 7 && "trigger"@[0] == 't',
{
    assert("fps"@.len() == 3 && "fps"@[0] == 'f') by {
        reveal_strlit("fps");
    }
    assert("loop"@.len() == 4 && "loop"@[0] == 'l' && "loop"@[0] == 'l') by {
        reveal_strlit("loop");
    }
    assert("blend"@.len() == 5 && "blend"@[3] == 'n') by {
        reveal_strlit("blend");
    }
    assert("origin"@.len() == 6 && "origin"@[0] == 'o' && "origin"@[1] == 'r') by {
        reveal_strlit("origin");
    }
    assert("angles"@.len() == 6 && "angles"@[0] == 'a' && "angles"@[1] == 'n') by {
        reveal_strlit("angles");
    }
    assert("rotate"@.len() == 6 && "rotate"@[0] == 'r' && "rotate"@[1] == 'o') by {
        reveal_strlit("rotate");
    }
    assert("scale"@.len() == 5 && "scale"@[3] == 'l') by {
        reveal_strlit("scale");
    }
    assert("frame"@.len() == 5 && "frame"@[3] == 'm') by {
        reveal_strlit("frame");
    }
    assert("frames"@.len() == 6 && "frames"@[0] == 'f' && "frames"@[1] == 'r') by {
        reveal_strlit("frames");
    }
    assert("subtract"@.len() == 8 && "subtract"@[7] == 't') by {
        reveal_strlit("subtract");
    }
    assert("noautoik"@.len() == 8 && "noautoik"@[7] == 'k') by {
        reveal_strlit("noautoik");
    }
    assert("autoik"@.len() == 6 && "autoik"@[0] == 'a' && "autoik"@[1] == 'u') by {
        reveal_strlit("autoik");
    }
    assert("weightlist"@.len() == 10 && "weightlist"@[4] == 'h') by {
        reveal_strlit("weightlist");
    }
    assert("ikrule"@.len() == 6 && "ikrule"@[0] == 'i' && "ikrule"@[1] == 'k') by {
        reveal_strlit("ikrule");
    }
    assert("fudgeloop"@.len() == 9 && "fudgeloop"@[0] == 'f' && "fudgeloop"@[0] == 'f') by {
        reveal_strlit("fudgeloop");
    }
    assert("snap"@.len() == 4 && "snap"@[0] == 's' && "snap"@[0] == 's') by {
        reveal_strlit("snap");
    }
    assert("startloop"@.len() == 9 && "startloop"@[0] == 's' && "startloop"@[0] == 's') by {
        reveal_strlit("startloop");
    }
    assert("{"@.len() == 1 && "{"@[0] == '{') by {
        reveal_strlit("{");
    }
    assert("}"@.len() == 1 && "}"@[0] == '}') by {
        reveal_strlit("}");
    }
    assert("flexfile"@.len() == 8 && "flexfile"@[7] == 'e') by {
        reveal_strlit("flexfile");
    }
    assert("flex"@.len() == 4 && "flex"@[0] == 'f') by {
        reveal_strlit("flex");
    }
    assert("flexpair"@.len() == 8 && "flexpair"@[7] == 'r') by {
        reveal_strlit("flexpair");
    }
    assert("defaultflex"@.len() == 11 && "defaultflex"@[0] == 'd') by {
        reveal_strlit("defaultflex");
    }
    assert("position"@.len() == 8 && "position"@[7] == 'n') by {
        reveal_strlit("position");
    }
    assert("split"@.len() == 5 && "split"@[3] == 'i') by {
        reveal_strlit("split");
    }
    assert("decay"@.len() == 5 && "decay"@[3] == 'a') by {
        reveal_strlit("decay");
    }
    assert("touch"@.len() == 5 && "touch"@[3] == 'c') by {
        reveal_strlit("touch");
    }
    assert("footstep"@.len() == 8 && "footstep"@[7] == 'p') by {
        reveal_strlit("footstep");
    }
    assert("attachment"@.len() == 10 && "attachment"@[4] == 'c') by {
        reveal_strlit("attachment");
    }
    assert("release"@.len() == 7 && "release"@[0] == 'r') by {
        reveal_strlit("release");
    }
    assert("unlatch"@.len() == 7 && "unlatch"@[0] == 'u') by {
        reveal_strlit("unlatch");
    }
    assert("usesource"@.len() == 9 && "usesource"@[0] == 'u') by {
        reveal_strlit("usesource");
    }
    assert("usesequence"@.len() == 11 && "usesequence"@[0] == 'u') by {
        reveal_strlit("usesequence");
    }
    assert("fakeorigin"@.len() == 10 && "fakeorigin"@[4] == 'o') by {
        reveal_strlit("fakeorigin");
    }
    assert("fakerotate"@.len() == 10 && "fakerotate"@[4] == 'r') by {
        reveal_strlit("fakerotate");
    }
    assert("floor"@.len() == 5 && "floor"@[3] == 'o') by {
        reveal_strlit("floor");
    }
    assert("height"@.len() == 6 && "height"@[0] == 'h' && "height"@[1] == 'e') by {
        reveal_strlit("height");
    }
    assert("radius"@.len() == 6 && "radius"@[0] == 'r' && "radius"@[1] == 'a') by {
        reveal_strlit("radius");
    }
    assert("pad"@.len() == 3 && "pad"@[0] == 'p') by {
        reveal_strlit("pad");
    }
    assert("target"@.len() == 6 && "target"@[0] == 't' && "target"@[1] == 'a') by {
        reveal_strlit("target");
    }
    assert("contact"@.len() == 7 && "contact"@[0] == 'c') by {
        reveal_strlit("contact");
    }
    assert("range"@.len() == 5 && "range"@[3] == 'g') by {
        reveal_strlit("range");
    }
    assert("bone"@.len() == 4 && "bone"@[0] == 'b') by {
        reveal_strlit("bone");
    }
    assert("basepos"@.len() == 7 && "basepos"@[0] == 'b') by {
        reveal_strlit("basepos");
    }
    assert("base_pos"@.len() == 8 && "base_pos"@[7] == 's') by {
        reveal_strlit("base_pos");
    }
    assert("trigger"@.len() == 7 && "trigger"@[0] == 't') by {
        reveal_strlit("trigger");
    }
}

/// `$sequence <name> <file>` adds a sequence of that file, behind those before it.
#[verifier::spinoff_prover]
pub proof fn sequence_line(
    d: ScriptView,
    t: TokenView,
    st: LexState,
    w: Seq<Seq<char>>,
    end: LexState,
)
    requires
        lower(t.text) == "$sequence"@,
        line_is(st, w, end),
        w.len() == 2,
        is_mesh_file(w[1]),
        !d.sequence_names.contains(lower(w[0])),
    ensures
        ({
            let (e, s) = command(d, t, Ok(st));
            let file = resolved(d, w[1]);
            &&& s == Ok::<LexState, ErrorView>(end)
            &&& e.desc.sequences.len() == d.desc.sequences.len() + 1
            &&& e.desc.sequences.drop_last() == d.desc.sequences
            &&& e.desc.sequences.last() == (SequenceView {
                name: w[0],
                smd: file,
                fps: None,
                looping: false,
                delta: false,
                activity: None,
                activity_weight: 0,
                events: Seq::empty(),
                fade_in: 0x3E4C_CCCD,
                fade_out: 0x3E4C_CCCD,
                forward_declared: false,
                no_auto_ik: false,
                ik_rules: Seq::empty(),
                iklocks: Seq::empty(),
                blends: Seq::empty(),
                blend_width: None,
                blend_params: Seq::empty(),
                auto_layers: Seq::empty(),
                section_frames: None,
                section_threshold: None,
                extra_flags: None,
                weight_list: None,
            })
            &&& e.referenced_files == d.referenced_files.push(file)
            &&& e.sequence_names == d.sequence_names.push(lower(w[0]))
        }),
{
    names_sequence(d, t, Ok(st));
    files_are_no_options(w[1]);
    read_to_end(st, w, end);
    read_word(st, w, end, 0);
    read_word(st, w, end, 1);
    reveal_with_fuel(sequence_options, 3);
    let e = command(d, t, Ok(st)).0;
    assert(resolved(d, w[1]).len() >= w[1].len());
    assert(e.desc.sequences.drop_last() =~= d.desc.sequences);
}

/// The options of a sequence are obeyed one behind another.
#[verifier::spinoff_prover]
pub proof fn sequence_options_line(
    d: ScriptView,
    t: TokenView,
    st: LexState,
    w: Seq<Seq<char>>,
    end: LexState,
)
    requires
        lower(t.text) == "$sequence"@,
        line_is(st, w, end),
        w.len() == 5,
        is_mesh_file(w[1]),
        lower(w[2]) == "loop"@,
        lower(w[3]) == "fps"@,
        numbers(w, 4, 5),
        !d.sequence_names.contains(lower(w[0])),
    ensures
        ({
            let (e, s) = command(d, t, Ok(st));
            let q = e.desc.sequences.last();
            &&& s == Ok::<LexState, ErrorView>(end)
            &&& e.desc.sequences.len() == d.desc.sequences.len() + 1
            &&& e.desc.sequences.drop_last() == d.desc.sequences
            &&& q.name == w[0]
            &&& q.smd == resolved(d, w[1])
            &&& q.looping
            &&& q.fps == Some(n(w, 4))
        }),
{
    names_sequence(d, t, Ok(st));
    files_are_no_options(w[1]);
    spelled_here();
    read_to_end(st, w, end);
    read_word(st, w, end, 0);
    read_word(st, w, end, 1);
    read_word(st, w, end, 2);
    read_word(st, w, end, 3);
    read_word(st, w, end, 4);
    goes_on(st, w, end, 3, 5);
    assert(lower(w[2]).len() == w[2].len() && lower(w[3]).len() == w[3].len());
    reveal_with_fuel(sequence_options, 5);
    let e = command(d, t, Ok(st)).0;
    assert(resolved(d, w[1]).len() >= w[1].len());
    assert(e.desc.sequences.drop_last() =~= d.desc.sequences);
}

/// `$animation <name> <file>` adds an animation of that file, behind those before it.
pub proof fn animation_line(
    d: ScriptView,
    t: TokenView,
    st: LexState,
    w: Seq<Seq<char>>,
    end: LexState,
)
    requires
        lower(t.text) == "$animation"@,
        line_is(st, w, end),
        w.len() == 2,
        !d.animation_names.contains(lower(w[0])),
    ensures
        ({
            let (e, s) = command(d, t, Ok(st));
            let file = resolved(d, w[1]);
            &&& s == Ok::<LexState, ErrorView>(end)
            &&& e.desc.animations == d.desc.animations.push(
                AnimationView {
                    name: w[0],
                    smd: file,
                    fps: None,
                    looping: false,
                    frames: None,
                    subtract: None,
                    subtract_frame: None,
                    ik_rules: Seq::empty(),
                    no_auto_ik: false,
                    weight_list: None,
                },
            )
            &&& e.referenced_files == d.referenced_files.push(file)
            &&& e.animation_names == d.animation_names.push(lower(w[0]))
        }),
{
    names_animation(d, t, Ok(st));
    read_to_end(st, w, end);
    read_word(st, w, end, 0);
    read_word(st, w, end, 1);
}

/// The options of an animation are obeyed one behind another.
#[verifier::spinoff_prover]
pub proof fn animation_options_line(
    d: ScriptView,
    t: TokenView,
    st: LexState,
    w: Seq<Seq<char>>,
    end: LexState,
)
    requires
        lower(t.text) == "$animation"@,
        line_is(st, w, end),
        w.len() == 5,
        lower(w[2]) == "fudgeloop"@,
        lower(w[3]) == "fps"@,
        numbers(w, 4, 5),
        !d.animation_names.contains(lower(w[0])),
    ensures
        ({
            let (e, s) = command(d, t, Ok(st));
            let a = e.desc.animations.last();
            &&& s == Ok::<LexState, ErrorView>(end)
            &&& e.desc.animations.len() == d.desc.animations.len() + 1
            &&& a.name == w[0]
            &&& a.smd == resolved(d, w[1])
            &&& a.looping
            &&& a.fps == Some(n(w, 4))
        }),
{
    names_animation(d, t, Ok(st));
    spelled_here();
    read_to_end(st, w, end);
    read_word(st, w, end, 0);
    read_word(st, w, end, 1);
    read_word(st, w, end, 2);
    read_word(st, w, end, 3);
    read_word(st, w, end, 4);
    goes_on(st, w, end, 3, 5);
    assert(lower(w[2]).len() == w[2].len() && lower(w[3]).len() == w[3].len());
    assert(!begins(lower(w[2]), "loop"@) && !begins(lower(w[2]), "snap"@) && !begins(
        lower(w[2]),
        "startloop"@,
    )) by {
        assert(lower(w[2]).take(4)[0] == 'f');
        assert(lower(w[2]).take(9)[0] == 'f');
    }
    reveal_with_fuel(super::sequence::animation_options, 4);
}

/// `$body <name> <file>` adds a body part with that file as its one model. The first part counts by
/// ones; each further one counts by as many as the parts before it have choices.
pub proof fn body_line(
    d: ScriptView,
    t: TokenView,
    st: LexState,
    w: Seq<Seq<char>>,
    end: LexState,
)
    requires
        lower(t.text) == "$body"@,
        line_is(st, w, end),
        w.len() == 2,
    ensures
        ({
            let (e, s) = command(d, t, Ok(st));
            let file = resolved(d, w[1]);
            let parts = d.desc.bodyparts;
            let part = e.desc.bodyparts.last();
            &&& s == Ok::<LexState, ErrorView>(end)
            &&& e.desc.bodyparts == parts.push(part)
            &&& part.name == w[0]
            &&& part.models == seq![
                BodyModelView {
                    smd: file,
                    name: None,
                    lods: Seq::empty(),
                    eyeballs: Seq::empty(),
                    flexes: Seq::empty(),
                },
            ]
            &&& e.referenced_files == d.referenced_files.push(file)
            &&& parts.len() == 0 ==> part.base == 1
            &&& parts.len() > 0 && 1 <= parts.last().models.len() && i32::MIN <= parts.last().base
                * parts.last().models.len() <= i32::MAX && parts.last().models.len() <= i32::MAX
                ==> part.base == parts.last().base * parts.last().models.len()
        }),
{
    names_body(d, t, Ok(st));
    read_to_end(st, w, end);
    read_word(st, w, end, 0);
    read_word(st, w, end, 1);
}

/// `$model <name> <file>` adds a body part with that file as its one model, under the name.
pub proof fn model_line(
    d: ScriptView,
    t: TokenView,
    st: LexState,
    w: Seq<Seq<char>>,
    end: LexState,
)
    requires
        lower(t.text) == "$model"@,
        line_is(st, w, end),
        w.len() == 2,
    ensures
        ({
            let (e, s) = command(d, t, Ok(st));
            let file = resolved(d, w[1]);
            let part = e.desc.bodyparts.last();
            &&& s == Ok::<LexState, ErrorView>(end)
            &&& e.desc.bodyparts == d.desc.bodyparts.push(part)
            &&& part.name == w[0]
            &&& part.models == seq![
                BodyModelView {
                    smd: file,
                    name: Some(w[0]),
                    lods: Seq::empty(),
                    eyeballs: Seq::empty(),
                    flexes: Seq::empty(),
                },
            ]
            &&& e.referenced_files == d.referenced_files.push(file)
        }),
{
    names_model(d, t, Ok(st));
    read_to_end(st, w, end);
    read_word(st, w, end, 0);
    read_word(st, w, end, 1);
}

/// `$collisionmodel <file>` names the file of a single solid, `$collisionjoints <file>` that of one
/// solid for each bone.
pub proof fn collision_lines(
    d: ScriptView,
    t: TokenView,
    st: LexState,
    w: Seq<Seq<char>>,
    end: LexState,
)
    requires
        lower(t.text) == "$collisionmodel"@ || lower(t.text) == "$collisionjoints"@,
        line_is(st, w, end),
        w.len() == 1,
    ensures
        command(d, t, Ok(st)) == (
            ScriptView {
                desc: ModelDescView {
                    physics: PhysicsView {
                        smd: Some(resolved(d, w[0])),
                        joints: lower(t.text) == "$collisionjoints"@,
                        ..d.desc.physics
                    },
                    ..d.desc
                },
                referenced_files: d.referenced_files.push(resolved(d, w[0])),
                ..d
            },
            Ok::<LexState, ErrorView>(end),
        ),
{
    assert("$collisionmodel"@[10] == 'm' && "$collisionjoints"@[10] == 'j') by {
        reveal_strlit("$collisionmodel");
        reveal_strlit("$collisionjoints");
    }
    if lower(t.text) == "$collisionmodel"@ {
        names_collisionmodel(d, t, Ok(st));
    } else {
        names_collisionjoints(d, t, Ok(st));
    }
    read_to_end(st, w, end);
    read_word(st, w, end, 0);
}

/// `$cdmaterials` adds each path of the line, in order, with a slash behind it.
pub proof fn material_paths_are_listed(
    paths: Seq<Seq<char>>,
    st: LexState,
    w: Seq<Seq<char>>,
    end: LexState,
    i: nat,
)
    requires
        line_is(st, w, end),
        i <= w.len(),
        forall|j: int|
            0 <= j < w.len() ==> (#[trigger] w[j]).len() > 0 && !w[j].contains('\\')
                && w[j].last() != '/',
    ensures
        cdmaterials(paths, Ok::<LexState, ErrorView>(after(st, i))) == (
            paths + Seq::new((w.len() - i) as nat, |j: int| w[i + j] + "/"@),
            Ok::<LexState, ErrorView>(end),
        ),
    decreases w.len() - i,
{
    let rest = Seq::new((w.len() - i) as nat, |j: int| w[i + j] + "/"@);
    read_to_end(st, w, end);
    if i < w.len() {
        read_word(st, w, end, i);
        let x = w[i as int];
        assert forall|j: int| 0 <= j < x.len() implies #[trigger] x[j] != '\\' by {
            assert(x.contains(x[j]));
        }
        assert(forward(x) =~= x);
        assert(x.last() == x[x.len() - 1]);
        material_paths_are_listed(paths.push(x + "/"@), st, w, end, i + 1);
        let more = Seq::new((w.len() - (i + 1)) as nat, |j: int| w[i + 1 + j] + "/"@);
        assert(paths + rest =~= paths.push(x + "/"@) + more);
    } else {
        assert(paths + rest =~= paths);
    }
}

/// `$includemodel <path>` joins a model, below the directory of models.
pub proof fn joined_model_line(
    d: ScriptView,
    t: TokenView,
    st: LexState,
    w: Seq<Seq<char>>,
    end: LexState,
)
    requires
        lower(t.text) == "$includemodel"@,
        line_is(st, w, end),
        w.len() == 1,
        !w[0].contains('\\'),
    ensures
        ({
            let (e, s) = command(d, t, Ok(st));
            &&& s == Ok::<LexState, ErrorView>(end)
            &&& begins(w[0], "models/"@) ==> e.desc.joined_models == d.desc.joined_models.push(w[0])
            &&& !begins(w[0], "models/"@) ==> e.desc.joined_models == d.desc.joined_models.push(
                "models/"@ + w[0],
            )
        }),
{
    names_includemodel(d, t, Ok(st));
    read_to_end(st, w, end);
    read_word(st, w, end, 0);
    let x = w[0];
    assert forall|j: int| 0 <= j < x.len() implies #[trigger] x[j] != '\\' by {
        assert(x.contains(x[j]));
    }
    assert(forward(x) =~= x);
}

/// A bone of a weight list and its weight are listed, behind those before it.
pub proof fn weights_are_listed(
    name: Seq<char>,
    bones: Seq<WeightEntryView>,
    t: TokenView,
    st: LexState,
    w: Seq<Seq<char>>,
    end: LexState,
)
    requires
        line_is(st, w, end),
        w.len() == 1,
        numbers(w, 0, 1),
        bones.len() < 128,
    ensures
        with_weight(name, bones, t, Ok(st)) == (
            bones.push(WeightEntryView { bone: t.text, weight: n(w, 0), pos_weight: None }),
            Ok::<LexState, ErrorView>(end),
        ),
{
    read_to_end(st, w, end);
    read_word(st, w, end, 0);
}

/// A weight for places goes to the last bone of the list, and changes no other.
pub proof fn place_weights_go_to_the_last_bone(
    name: Seq<char>,
    bones: Seq<WeightEntryView>,
    b: WeightEntryView,
    t: TokenView,
    st: LexState,
    w: Seq<Seq<char>>,
    end: LexState,
)
    requires
        line_is(st, w, end),
        w.len() == 1,
        numbers(w, 0, 1),
        b.weight % 0x8000_0000 != 0,
    ensures
        posweight(name, bones.push(b), t, Ok(st)) == (
            bones.push(
                WeightEntryView { bone: b.bone, weight: b.weight, pos_weight: Some(n(w, 0)) },
            ),
            Ok::<LexState, ErrorView>(end),
        ),
{
    read_to_end(st, w, end);
    read_word(st, w, end, 0);
    let all = bones.push(b);
    let c = WeightEntryView { bone: b.bone, weight: b.weight, pos_weight: Some(n(w, 0)) };
    assert(all.update(all.len() - 1, c) =~= bones.push(c));
}

/// A distance goes to each model of the last part, behind those before it, and to no other part;
/// before the first part it waits.
pub proof fn distances_go_to_the_last_part(d: ScriptView, l: LodModelView)
    ensures
        ({
            let e = with_lod(d, l);
            let parts = d.desc.bodyparts;
            let now = e.desc.bodyparts;
            &&& parts.len() == 0 ==> e == (ScriptView {
                pending_lods: d.pending_lods.push(l),
                ..d
            })
            &&& parts.len() > 0 ==> e.pending_lods == d.pending_lods && now.len() == parts.len()
                && now.drop_last() == parts.drop_last() && now.last().name == parts.last().name
                && now.last().base == parts.last().base && now.last().models.len()
                == parts.last().models.len()
            &&& parts.len() > 0 ==> forall|i: int|
                0 <= i < parts.last().models.len() ==> (#[trigger] now.last().models[i]) == (
                BodyModelView {
                    lods: parts.last().models[i].lods.push(l),
                    ..parts.last().models[i]
                })
        }),
{
    let e = with_lod(d, l);
    let parts = d.desc.bodyparts;
    if parts.len() > 0 {
        assert(e.desc.bodyparts.drop_last() =~= parts.drop_last());
    }
}

/// `replacemodel <file> <file>` puts the second file in place of the first, as a mesh file.
pub proof fn replaced_model_of_a_distance(
    d: ScriptView,
    l: LodModelView,
    st: LexState,
    w: Seq<Seq<char>>,
    end: LexState,
)
    requires
        line_is(st, w, end),
        w.len() == 2,
        !w[1].contains('.'),
    ensures
        ({
            let file = resolved(d, w[1] + ".smd"@);
            replacemodel(d, l, Ok(st)) == (
                ScriptView { referenced_files: d.referenced_files.push(file), ..d },
                LodModelView { smd: Some(file), ..l },
                Ok::<LexState, ErrorView>(end),
            )
        }),
{
    read_to_end(st, w, end);
    read_word(st, w, end, 0);
    read_word(st, w, end, 1);
    let x = lower(w[1]);
    assert(".smd"@.len() == 4 && ".smd"@[0] == '.') by {
        reveal_strlit(".smd");
    }
    assert(".dmx"@.len() == 4 && ".dmx"@[0] == '.') by {
        reveal_strlit(".dmx");
    }
    assert(".vrm"@.len() == 4 && ".vrm"@[0] == '.') by {
        reveal_strlit(".vrm");
    }
    if x.len() >= 4 {
        let k = x.len() - 4;
        assert(w[1].contains(w[1][k]));
        assert(x[k] == crate::text::lower_char(w[1][k]));
        assert(x[k] != '.');
        assert(x.skip(k)[0] == x[k]);
    }
}

/// `flex <name> frame <number>` adds a flex of the file named before, behind those before it.
pub proof fn flex_of_a_model(
    d: ScriptView,
    m: BodyModelView,
    t: TokenView,
    st: LexState,
    w: Seq<Seq<char>>,
    end: LexState,
    vta: Seq<char>,
    depth: int,
)
    requires
        lower(t.text) == "flex"@,
        depth > 0,
        d.pending_vta == Some(vta),
        line_is(st, w, end),
        w.len() == 3,
        lower(w[1]) == "frame"@,
    ensures
        model_option(d, m, depth, t, Ok(st)) == (
            d,
            BodyModelView {
                flexes: m.flexes.push(
                    FlexView {
                        vta,
                        name: w[0],
                        frame: integer_of(w[2]),
                        pair: false,
                        split: 0,
                        position: ONE,
                        decay: ONE,
                    },
                ),
                ..m
            },
            Ok::<LexState, ErrorView>(end),
        ),
{
    spelled_here();
    read_to_end(st, w, end);
    read_word(st, w, end, 0);
    read_word(st, w, end, 1);
    read_word(st, w, end, 2);
    goes_on(st, w, end, 1, 3);
    reveal_with_fuel(super::body::flex_opts, 3);
}

/// `flexpair <name> <split> frame <number> position <number> decay <number>` adds a flex with two
/// sides.
#[verifier::spinoff_prover]
pub proof fn flexpair_of_a_model(
    d: ScriptView,
    m: BodyModelView,
    t: TokenView,
    st: LexState,
    w: Seq<Seq<char>>,
    end: LexState,
    vta: Seq<char>,
    depth: int,
)
    requires
        lower(t.text) == "flexpair"@,
        depth > 0,
        d.pending_vta == Some(vta),
        line_is(st, w, end),
        w.len() == 8,
        numbers(w, 1, 2),
        lower(w[2]) == "frame"@,
        lower(w[4]) == "position"@,
        numbers(w, 5, 6),
        lower(w[6]) == "decay"@,
        numbers(w, 7, 8),
    ensures
        model_option(d, m, depth, t, Ok(st)) == (
            d,
            BodyModelView {
                flexes: m.flexes.push(
                    FlexView {
                        vta,
                        name: w[0],
                        frame: integer_of(w[3]),
                        pair: true,
                        split: n(w, 1),
                        position: n(w, 5),
                        decay: n(w, 7),
                    },
                ),
                ..m
            },
            Ok::<LexState, ErrorView>(end),
        ),
{
    spelled_here();
    read_to_end(st, w, end);
    read_word(st, w, end, 0);
    read_word(st, w, end, 1);
    read_word(st, w, end, 2);
    read_word(st, w, end, 3);
    read_word(st, w, end, 4);
    read_word(st, w, end, 5);
    read_word(st, w, end, 6);
    read_word(st, w, end, 7);
    goes_on(st, w, end, 2, 4);
    goes_on(st, w, end, 4, 6);
    goes_on(st, w, end, 6, 8);
    reveal_with_fuel(super::body::flex_opts, 5);
}

/// `eyelid <name> lowerer.. neutral.. raiser.. <eye>` gives the lid to the eye, the upper one where
/// the name says so.
#[verifier::spinoff_prover]
pub proof fn eyelid_of_a_model(
    m: BodyModelView,
    e: EyeballView,
    st: LexState,
    w: Seq<Seq<char>>,
    end: LexState,
)
    requires
        m.eyeballs == seq![e],
        line_is(st, w, end),
        w.len() == 8,
        numbers(w, 2, 3),
        numbers(w, 4, 5),
        numbers(w, 6, 7),
        e.name matches Some(name) && lower(name) == lower(w[7]),
    ensures
        ({
            let lid = EyeballLidView {
                lid_flexdesc: w[0],
                lowerer: LidEntryView { flexdesc: w[1], target: n(w, 2) },
                neutral: LidEntryView { flexdesc: w[3], target: n(w, 4) },
                raiser: LidEntryView { flexdesc: w[5], target: n(w, 6) },
            };
            let upper = holds(lower(w[0]), "upper"@);
            eyelid(m, Ok(st)) == (
                BodyModelView {
                    eyeballs: seq![
                        EyeballView {
                            upper_lid: if upper {
                                Some(lid)
                            } else {
                                e.upper_lid
                            },
                            lower_lid: if upper {
                                e.lower_lid
                            } else {
                                Some(lid)
                            },
                            ..e
                        },
                    ],
                    ..m
                },
                Ok::<LexState, ErrorView>(end),
            )
        }),
{
    read_to_end(st, w, end);
    read_word(st, w, end, 0);
    read_word(st, w, end, 1);
    read_word(st, w, end, 2);
    read_word(st, w, end, 3);
    read_word(st, w, end, 4);
    read_word(st, w, end, 5);
    read_word(st, w, end, 6);
    read_word(st, w, end, 7);
    reveal_with_fuel(words_on_line, 3);
    reveal_with_fuel(with_lids, 3);
    reveal_with_fuel(find_eyeball, 2);
    let (b, s) = eyelid(m, Ok(st));
    assert(Seq::<Seq<char>>::empty().push(w[7])[0] == w[7]);
    let lid = EyeballLidView {
        lid_flexdesc: w[0],
        lowerer: LidEntryView { flexdesc: w[1], target: n(w, 2) },
        neutral: LidEntryView { flexdesc: w[3], target: n(w, 4) },
        raiser: LidEntryView { flexdesc: w[5], target: n(w, 6) },
    };
    let upper = holds(lower(w[0]), "upper"@);
    assert(seq![e].update(0, with_lid(e, lid, upper)) =~= seq![with_lid(e, lid, upper)]);
}

/// A rule for a limb tells its chain, its kind and what the kind needs.
pub proof fn kinds_of_rules(st: LexState, w: Seq<Seq<char>>, end: LexState)
    requires
        line_is(st, w, end),
        w.len() == 3,
    ensures
        ({
            let (r, s) = ikrule(Ok(st));
            &&& lower(w[1]) == "touch"@ && w[2].len() > 0 ==> s == Ok::<LexState, ErrorView>(end)
                && r.chain == w[0] && r.kind == IkRuleType::Touch && r.bone == Some(w[2])
                && r.attachment is None
            &&& lower(w[1]) == "attachment"@ ==> s == Ok::<LexState, ErrorView>(end) && r.chain
                == w[0] && r.kind == IkRuleType::Attachment && r.attachment == Some(w[2]) && r.bone
                is None
            &&& lower(w[1]) == "footstep"@ && lower(w[2]) == "usesource"@ ==> s == Ok::<
                LexState,
                ErrorView,
            >(end) && r.chain == w[0] && r.kind == IkRuleType::Footstep && r.bone is None
                && r.attachment is None && r.use_source
            &&& lower(w[1]) == "release"@ && lower(w[2]) == "usesource"@ ==> s == Ok::<
                LexState,
                ErrorView,
            >(end) && r.chain == w[0] && r.kind == IkRuleType::Release && r.use_source
            &&& lower(w[1]) == "unlatch"@ && lower(w[2]) == "usesource"@ ==> s == Ok::<
                LexState,
                ErrorView,
            >(end) && r.chain == w[0] && r.kind == IkRuleType::Unlatch && r.use_source
        }),
{
    spelled_here();
    read_to_end(st, w, end);
    read_word(st, w, end, 0);
    read_word(st, w, end, 1);
    read_word(st, w, end, 2);
    reveal_with_fuel(rule_options, 3);
}

proof fn pose_found(list: Seq<PoseParameterView>, name: Seq<char>, k: int, i: int)
    requires
        0 <= k <= i < list.len(),
        lower(list[i].name) == lower(name),
        forall|j: int| k <= j < i ==> lower((#[trigger] list[j]).name) != lower(name),
    ensures
        find_pose(list, name, k) == Some(i),
    decreases i - k,
{
    if k < i {
        pose_found(list, name, k + 1, i);
    }
}

/// A blend makes the range of its parameter as wide as it needs, and no other's.
pub proof fn blends_widen_their_parameter(
    list: Seq<PoseParameterView>,
    name: Seq<char>,
    start: u32,
    end: u32,
    i: int,
)
    requires
        0 <= i < list.len(),
        lower(list[i].name) == lower(name),
        forall|j: int| 0 <= j < i ==> lower((#[trigger] list[j]).name) != lower(name),
        !is_nan(start),
        !is_nan(end),
        !is_nan(list[i].start),
        !is_nan(list[i].end),
    ensures
        ({
            let p = widened(list, name, start, end)[i];
            &&& widened(list, name, start, end) == list.update(i, p)
            &&& p.name == list[i].name
            &&& p.loop_mode == list[i].loop_mode
            &&& at_most(p.start, start) && at_most(p.start, end) && at_most(p.start, list[i].start)
            &&& at_most(start, p.end) && at_most(end, p.end) && at_most(list[i].end, p.end)
            &&& p.start == start || p.start == end || p.start == list[i].start
            &&& p.end == start || p.end == end || p.end == list[i].end
        }),
{
    pose_found(list, name, 0, i);
    assert(widened(list, name, start, end) =~= list.update(i, widened(list, name, start, end)[i]));
}

/// In a file of procedural bones, a line starts a bone, gives its base or adds a trigger.
pub proof fn procedural_lines(f: Following, b: QuatInterpBoneView, line: Seq<char>)
    requires
        f.cur == Some(b),
    ensures
        ({
            let w = words(line.take(slashes_at(line, 0)));
            let v = numbers_from(w, 1);
            let next = with_line(f, line);
            &&& w.len() == 3 && lower(w[0]) == "bone"@ ==> next.done == f.done.push(b) && next.cur
                == Some(
                QuatInterpBoneView {
                    bone: w[1],
                    control: w[2],
                    base_pos: None,
                    triggers: Seq::empty(),
                },
            )
            &&& w.len() == 4 && lower(w[0]) == "basepos"@ && v.len() == 3 ==> next.done == f.done
                && next.cur == Some(
                QuatInterpBoneView {
                    base_pos: Some(Vector { x: v[0], y: v[1], z: v[2] }),
                    ..b
                },
            )
            &&& w.len() == 11 && lower(w[0]) == "trigger"@ && v.len() == 10 ==> next.done == f.done
                && next.cur == Some(
                QuatInterpBoneView {
                    triggers: b.triggers.push(
                        QuatInterpTrigger {
                            tolerance: v[0],
                            trigger: Vector { x: v[1], y: v[2], z: v[3] },
                            angles: Vector { x: v[4], y: v[5], z: v[6] },
                            pos: Some(Vector { x: v[7], y: v[8], z: v[9] }),
                        },
                    ),
                    ..b
                },
            )
            &&& w.len() == 0 ==> next == f
        }),
{
    spelled_here();
}

/// The numbers of such a line are what its words say, in order.
pub proof fn procedural_numbers(w: Seq<Seq<char>>, k: int, i: int)
    requires
        0 <= k <= i < w.len(),
        forall|j: int| k <= j < w.len() ==> reading(#[trigger] w[j]) is Some,
    ensures
        numbers_from(w, k).len() == w.len() - k,
        Some(numbers_from(w, k)[i - k]) == reading(w[i]),
    decreases w.len() - k,
{
    assert(reading(w[k]) is Some);
    if k + 1 < w.len() {
        procedural_numbers(w, k + 1, if i > k { i } else { k + 1 });
    } else {
        assert(numbers_from(w, k + 1) =~= Seq::empty());
    }
}

} // verus!
