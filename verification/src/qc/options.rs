//! What the options of a script mean: the option, the words behind it, and what they come to.
use vstd::prelude::*;

use super::body::{controllers, iris_scale, model_option};
use super::collision::{collision_key, find_override, override_set};
use super::error::ErrorView;
use super::lexer::{LexState, TokenView};
use super::lines::{goes_on, line_is, n, numbers, read_to_end, read_vector, read_word};
use super::lods::lod_option;
use super::model::{
    AnimatedFrictionSpec, AnimationView, BlendParamView, BodyModelView, EyeballView,
    FlexControllerView, FrameRange, IkAutoplayLockView, IkRange, IkRuleView, JointConstraintSpecView,
    JointOverrideView, LodModelView, ModelDescView, MouthView, PairView, PhysicsView, ScriptView,
    SequenceEventView, SequenceView, Vector,
};
use super::read::{bare_number, integer_of};
use super::sequence::{
    animation_option, rule_option, sequence_option, widened, SequenceState,
};
use super::settings::resolved;
use crate::arith::of_integer;
use crate::single::ONE;
use crate::text::lower;

verus! {

/// How the options are spelled, as far as it tells them apart.
proof fn spelled_for_sequences()
    ensures
        "blend"@.len() == 5 && "blend"@[0] == 'b',
        "fps"@.len() == 3,
        "loop"@.len() == 4 && "loop"@[0] == 'l',
        "delta"@.len() == 5 && "delta"@[0] == 'd',
        "predelta"@.len() == 8 && "predelta"@[1] == 'r' && "predelta"@[0] == 'p',
        "noautoik"@.len() == 8 && "noautoik"@[1] == 'o' && "noautoik"@[0] == 'n',
        "autoik"@.len() == 6 && "autoik"@[1] == 'u' && "autoik"@[2] == 't',
        "snap"@.len() == 4 && "snap"@[0] == 's',
        "autoplay"@.len() == 8 && "autoplay"@[1] == 'u' && "autoplay"@[0] == 'a',
        "post"@.len() == 4 && "post"@[0] == 'p',
        "realtime"@.len() == 8 && "realtime"@[1] == 'e' && "realtime"@[0] == 'r',
        "hidden"@.len() == 6 && "hidden"@[1] == 'i' && "hidden"@[2] == 'd',
        "worldspace"@.len() == 10 && "worldspace"@[1] == 'o',
        "fadein"@.len() == 6 && "fadein"@[1] == 'a' && "fadein"@[2] == 'd',
        "fadeout"@.len() == 7,
        "activity"@.len() == 8 && "activity"@[1] == 'c' && "activity"@[0] == 'a',
        "blendwidth"@.len() == 10 && "blendwidth"@[1] == 'l',
        "addlayer"@.len() == 8 && "addlayer"@[1] == 'd' && "addlayer"@[0] == 'a',
        "event"@.len() == 5 && "event"@[0] == 'e',
        "ikrule"@.len() == 6 && "ikrule"@[1] == 'k' && "ikrule"@[2] == 'r',
        "iklock"@.len() == 6 && "iklock"@[1] == 'k' && "iklock"@[2] == 'l',
        "weightlist"@.len() == 10 && "weightlist"@[1] == 'e',
        "sectionframes"@.len() == 13,
        "keyvalues"@.len() == 9,
        "frames"@.len() == 6 && "frames"@[1] == 'r' && "frames"@[2] == 'a',
        "subtract"@.len() == 8 && "subtract"@[1] == 'u' && "subtract"@[0] == 's',
{
    assert("blend"@.len() == 5 && "blend"@[0] == 'b') by {
        reveal_strlit("blend");
    }
    assert("fps"@.len() == 3) by {
        reveal_strlit("fps");
    }
    assert("loop"@.len() == 4 && "loop"@[0] == 'l') by {
        reveal_strlit("loop");
    }
    assert("delta"@.len() == 5 && "delta"@[0] == 'd') by {
        reveal_strlit("delta");
    }
    assert("predelta"@.len() == 8 && "predelta"@[1] == 'r' && "predelta"@[0] == 'p') by {
        reveal_strlit("predelta");
    }
    assert("noautoik"@.len() == 8 && "noautoik"@[1] == 'o' && "noautoik"@[0] == 'n') by {
        reveal_strlit("noautoik");
    }
    assert("autoik"@.len() == 6 && "autoik"@[1] == 'u' && "autoik"@[2] == 't') by {
        reveal_strlit("autoik");
    }
    assert("snap"@.len() == 4 && "snap"@[0] == 's') by {
        reveal_strlit("snap");
    }
    assert("autoplay"@.len() == 8 && "autoplay"@[1] == 'u' && "autoplay"@[0] == 'a') by {
        reveal_strlit("autoplay");
    }
    assert("post"@.len() == 4 && "post"@[0] == 'p') by {
        reveal_strlit("post");
    }
    assert("realtime"@.len() == 8 && "realtime"@[1] == 'e' && "realtime"@[0] == 'r') by {
        reveal_strlit("realtime");
    }
    assert("hidden"@.len() == 6 && "hidden"@[1] == 'i' && "hidden"@[2] == 'd') by {
        reveal_strlit("hidden");
    }
    assert("worldspace"@.len() == 10 && "worldspace"@[1] == 'o') by {
        reveal_strlit("worldspace");
    }
    assert("fadein"@.len() == 6 && "fadein"@[1] == 'a' && "fadein"@[2] == 'd') by {
        reveal_strlit("fadein");
    }
    assert("fadeout"@.len() == 7) by {
        reveal_strlit("fadeout");
    }
    assert("activity"@.len() == 8 && "activity"@[1] == 'c' && "activity"@[0] == 'a') by {
        reveal_strlit("activity");
    }
    assert("blendwidth"@.len() == 10 && "blendwidth"@[1] == 'l') by {
        reveal_strlit("blendwidth");
    }
    assert("addlayer"@.len() == 8 && "addlayer"@[1] == 'd' && "addlayer"@[0] == 'a') by {
        reveal_strlit("addlayer");
    }
    assert("event"@.len() == 5 && "event"@[0] == 'e') by {
        reveal_strlit("event");
    }
    assert("ikrule"@.len() == 6 && "ikrule"@[1] == 'k' && "ikrule"@[2] == 'r') by {
        reveal_strlit("ikrule");
    }
    assert("iklock"@.len() == 6 && "iklock"@[1] == 'k' && "iklock"@[2] == 'l') by {
        reveal_strlit("iklock");
    }
    assert("weightlist"@.len() == 10 && "weightlist"@[1] == 'e') by {
        reveal_strlit("weightlist");
    }
    assert("sectionframes"@.len() == 13) by {
        reveal_strlit("sectionframes");
    }
    assert("keyvalues"@.len() == 9) by {
        reveal_strlit("keyvalues");
    }
    assert("frames"@.len() == 6 && "frames"@[1] == 'r' && "frames"@[2] == 'a') by {
        reveal_strlit("frames");
    }
    assert("subtract"@.len() == 8 && "subtract"@[1] == 'u' && "subtract"@[0] == 's') by {
        reveal_strlit("subtract");
    }
}

/// `fps <number>` sets the rate of a sequence.
pub proof fn fps_of_a_sequence(
    c: SequenceState,
    t: TokenView,
    st: LexState,
    w: Seq<Seq<char>>,
    end: LexState,
)
    requires
        lower(t.text) == "fps"@,
        line_is(st, w, end),
        w.len() == 1,
        numbers(w, 0, 1),
    ensures
        sequence_option(c, t, Ok(st)) == (
            SequenceState { q: SequenceView { fps: Some(n(w, 0)), ..c.q }, ..c },
            Ok::<LexState,
            ErrorView>(end),
        ),
{
    spelled_for_sequences();
    read_to_end(st, w, end);
    read_word(st, w, end, 0);
}

/// `loop` lets a sequence start over.
pub proof fn loop_of_a_sequence(
    c: SequenceState,
    t: TokenView,
    st: LexState,
    w: Seq<Seq<char>>,
    end: LexState,
)
    requires
        lower(t.text) == "loop"@,
        line_is(st, w, end),
        w.len() == 0,
    ensures
        sequence_option(c, t, Ok(st)) == (
            SequenceState { q: SequenceView { looping: true, ..c.q }, ..c },
            Ok::<LexState,
            ErrorView>(end),
        ),
{
    spelled_for_sequences();
    read_to_end(st, w, end);
}

/// `delta` marks a sequence that is added to another.
pub proof fn delta_of_a_sequence(
    c: SequenceState,
    t: TokenView,
    st: LexState,
    w: Seq<Seq<char>>,
    end: LexState,
)
    requires
        lower(t.text) == "delta"@,
        line_is(st, w, end),
        w.len() == 0,
    ensures
        sequence_option(c, t, Ok(st)) == (
            SequenceState { q: SequenceView { delta: true, ..c.q }, ..c },
            Ok::<LexState,
            ErrorView>(end),
        ),
{
    spelled_for_sequences();
    read_to_end(st, w, end);
}

/// `noautoik` switches the rules for limbs off.
pub proof fn noautoik_of_a_sequence(
    c: SequenceState,
    t: TokenView,
    st: LexState,
    w: Seq<Seq<char>>,
    end: LexState,
)
    requires
        lower(t.text) == "noautoik"@,
        line_is(st, w, end),
        w.len() == 0,
    ensures
        sequence_option(c, t, Ok(st)) == (
            SequenceState { q: SequenceView { no_auto_ik: true, ..c.q }, ..c },
            Ok::<LexState,
            ErrorView>(end),
        ),
{
    spelled_for_sequences();
    read_to_end(st, w, end);
}

/// `autoik` switches them on.
pub proof fn autoik_of_a_sequence(
    c: SequenceState,
    t: TokenView,
    st: LexState,
    w: Seq<Seq<char>>,
    end: LexState,
)
    requires
        lower(t.text) == "autoik"@,
        line_is(st, w, end),
        w.len() == 0,
    ensures
        sequence_option(c, t, Ok(st)) == (
            SequenceState { q: SequenceView { no_auto_ik: false, ..c.q }, ..c },
            Ok::<LexState,
            ErrorView>(end),
        ),
{
    spelled_for_sequences();
    read_to_end(st, w, end);
}

/// `snap` sets its flag and keeps the others.
pub proof fn snap_of_a_sequence(
    c: SequenceState,
    t: TokenView,
    st: LexState,
    w: Seq<Seq<char>>,
    end: LexState,
)
    requires
        lower(t.text) == "snap"@,
        line_is(st, w, end),
        w.len() == 0,
    ensures
        sequence_option(c, t, Ok(st)) == (
            SequenceState {
                q: SequenceView {
                    extra_flags: Some((match c.q.extra_flags { Some(f) => f, None => 0i32 }) | 0x2),
                    ..c.q
                },
                ..c
            },
            Ok::<LexState,
            ErrorView>(end),
        ),
{
    spelled_for_sequences();
    read_to_end(st, w, end);
}

/// `autoplay` sets its flag and keeps the others.
pub proof fn autoplay_of_a_sequence(
    c: SequenceState,
    t: TokenView,
    st: LexState,
    w: Seq<Seq<char>>,
    end: LexState,
)
    requires
        lower(t.text) == "autoplay"@,
        line_is(st, w, end),
        w.len() == 0,
    ensures
        sequence_option(c, t, Ok(st)) == (
            SequenceState {
                q: SequenceView {
                    extra_flags: Some((match c.q.extra_flags { Some(f) => f, None => 0i32 }) | 0x8),
                    ..c.q
                },
                ..c
            },
            Ok::<LexState,
            ErrorView>(end),
        ),
{
    spelled_for_sequences();
    read_to_end(st, w, end);
}

/// `post` sets its flag and keeps the others.
pub proof fn post_of_a_sequence(
    c: SequenceState,
    t: TokenView,
    st: LexState,
    w: Seq<Seq<char>>,
    end: LexState,
)
    requires
        lower(t.text) == "post"@,
        line_is(st, w, end),
        w.len() == 0,
    ensures
        sequence_option(c, t, Ok(st)) == (
            SequenceState {
                q: SequenceView {
                    extra_flags: Some(
                        (match c.q.extra_flags { Some(f) => f, None => 0i32 }) | 0x10,
                    ),
                    ..c.q
                },
                ..c
            },
            Ok::<LexState,
            ErrorView>(end),
        ),
{
    spelled_for_sequences();
    read_to_end(st, w, end);
}

/// `realtime` sets its flag and keeps the others.
pub proof fn realtime_of_a_sequence(
    c: SequenceState,
    t: TokenView,
    st: LexState,
    w: Seq<Seq<char>>,
    end: LexState,
)
    requires
        lower(t.text) == "realtime"@,
        line_is(st, w, end),
        w.len() == 0,
    ensures
        sequence_option(c, t, Ok(st)) == (
            SequenceState {
                q: SequenceView {
                    extra_flags: Some(
                        (match c.q.extra_flags { Some(f) => f, None => 0i32 }) | 0x80,
                    ),
                    ..c.q
                },
                ..c
            },
            Ok::<LexState,
            ErrorView>(end),
        ),
{
    spelled_for_sequences();
    read_to_end(st, w, end);
}

/// `hidden` sets its flag and keeps the others.
pub proof fn hidden_of_a_sequence(
    c: SequenceState,
    t: TokenView,
    st: LexState,
    w: Seq<Seq<char>>,
    end: LexState,
)
    requires
        lower(t.text) == "hidden"@,
        line_is(st, w, end),
        w.len() == 0,
    ensures
        sequence_option(c, t, Ok(st)) == (
            SequenceState {
                q: SequenceView {
                    extra_flags: Some(
                        (match c.q.extra_flags { Some(f) => f, None => 0i32 }) | 0x400,
                    ),
                    ..c.q
                },
                ..c
            },
            Ok::<LexState,
            ErrorView>(end),
        ),
{
    spelled_for_sequences();
    read_to_end(st, w, end);
}

/// `worldspace` sets its flag and keeps the others.
pub proof fn worldspace_of_a_sequence(
    c: SequenceState,
    t: TokenView,
    st: LexState,
    w: Seq<Seq<char>>,
    end: LexState,
)
    requires
        lower(t.text) == "worldspace"@,
        line_is(st, w, end),
        w.len() == 0,
    ensures
        sequence_option(c, t, Ok(st)) == (
            SequenceState {
                q: SequenceView {
                    extra_flags: Some(
                        (match c.q.extra_flags { Some(f) => f, None => 0i32 }) | 0x2000,
                    ),
                    ..c.q
                },
                ..c
            },
            Ok::<LexState,
            ErrorView>(end),
        ),
{
    spelled_for_sequences();
    read_to_end(st, w, end);
}

/// `fadein <seconds>` says how long a sequence comes in.
pub proof fn fadein_of_a_sequence(
    c: SequenceState,
    t: TokenView,
    st: LexState,
    w: Seq<Seq<char>>,
    end: LexState,
)
    requires
        lower(t.text) == "fadein"@,
        line_is(st, w, end),
        w.len() == 1,
        numbers(w, 0, 1),
    ensures
        sequence_option(c, t, Ok(st)) == (
            SequenceState { q: SequenceView { fade_in: n(w, 0), ..c.q }, ..c },
            Ok::<LexState,
            ErrorView>(end),
        ),
{
    spelled_for_sequences();
    read_to_end(st, w, end);
    read_word(st, w, end, 0);
}

/// `fadeout <seconds>` says how long a sequence goes out.
pub proof fn fadeout_of_a_sequence(
    c: SequenceState,
    t: TokenView,
    st: LexState,
    w: Seq<Seq<char>>,
    end: LexState,
)
    requires
        lower(t.text) == "fadeout"@,
        line_is(st, w, end),
        w.len() == 1,
        numbers(w, 0, 1),
    ensures
        sequence_option(c, t, Ok(st)) == (
            SequenceState { q: SequenceView { fade_out: n(w, 0), ..c.q }, ..c },
            Ok::<LexState,
            ErrorView>(end),
        ),
{
    spelled_for_sequences();
    read_to_end(st, w, end);
    read_word(st, w, end, 0);
}

/// `activity <name> <weight>` names what a sequence is for.
pub proof fn weighted_activity(
    c: SequenceState,
    t: TokenView,
    st: LexState,
    w: Seq<Seq<char>>,
    end: LexState,
)
    requires
        lower(t.text) == "activity"@,
        line_is(st, w, end),
        w.len() == 2,
    ensures
        sequence_option(c, t, Ok(st)) == (
            SequenceState {
                q: SequenceView { activity: Some(w[0]), activity_weight: integer_of(w[1]), ..c.q },
                ..c
            },
            Ok::<LexState,
            ErrorView>(end),
        ),
{
    spelled_for_sequences();
    read_to_end(st, w, end);
    read_word(st, w, end, 0);
    read_word(st, w, end, 1);
}

/// An activity has no weight where nothing is said.
pub proof fn plain_activity(
    c: SequenceState,
    t: TokenView,
    st: LexState,
    w: Seq<Seq<char>>,
    end: LexState,
)
    requires
        lower(t.text) == "activity"@,
        line_is(st, w, end),
        w.len() == 1,
    ensures
        sequence_option(c, t, Ok(st)) == (
            SequenceState {
                q: SequenceView { activity: Some(w[0]), activity_weight: 0, ..c.q },
                ..c
            },
            Ok::<LexState,
            ErrorView>(end),
        ),
{
    spelled_for_sequences();
    read_to_end(st, w, end);
    read_word(st, w, end, 0);
}

/// `blendwidth <number>` says how many animations stand in a row.
pub proof fn blendwidth_of_a_sequence(
    c: SequenceState,
    t: TokenView,
    st: LexState,
    w: Seq<Seq<char>>,
    end: LexState,
)
    requires
        lower(t.text) == "blendwidth"@,
        line_is(st, w, end),
        w.len() == 1,
    ensures
        sequence_option(c, t, Ok(st)) == (
            SequenceState { q: SequenceView { blend_width: Some(integer_of(w[0])), ..c.q }, ..c },
            Ok::<LexState,
            ErrorView>(end),
        ),
{
    spelled_for_sequences();
    read_to_end(st, w, end);
    read_word(st, w, end, 0);
}

/// `addlayer <name>` adds a layer behind those before it.
pub proof fn layer_of_a_sequence(
    c: SequenceState,
    t: TokenView,
    st: LexState,
    w: Seq<Seq<char>>,
    end: LexState,
)
    requires
        lower(t.text) == "addlayer"@,
        line_is(st, w, end),
        w.len() == 1,
    ensures
        sequence_option(c, t, Ok(st)) == (
            SequenceState {
                q: SequenceView { auto_layers: c.q.auto_layers.push(w[0]), ..c.q },
                ..c
            },
            Ok::<LexState,
            ErrorView>(end),
        ),
{
    spelled_for_sequences();
    read_to_end(st, w, end);
    read_word(st, w, end, 0);
}

/// `event <name> <frame> <options>` adds an event behind those before it.
pub proof fn named_event(
    c: SequenceState,
    t: TokenView,
    st: LexState,
    w: Seq<Seq<char>>,
    end: LexState,
)
    requires
        lower(t.text) == "event"@,
        line_is(st, w, end),
        w.len() == 3,
        !(w[0].len() > 0 && '0' <= w[0][0] <= '9'),
    ensures
        sequence_option(c, t, Ok(st)) == (
            SequenceState {
                q: SequenceView {
                    events: c.q.events.push(
                        SequenceEventView {
                            cycle: of_integer(integer_of(w[1])),
                            event_type: 1024i32,
                            event: 0i32,
                            name: w[0],
                            options: w[2],
                        },
                    ),
                    ..c.q
                },
                ..c
            },
            Ok::<LexState,
            ErrorView>(end),
        ),
{
    spelled_for_sequences();
    read_to_end(st, w, end);
    read_word(st, w, end, 0);
    read_word(st, w, end, 1);
    read_word(st, w, end, 2);
}

/// An event may have a number in place of a name.
pub proof fn numbered_event(
    c: SequenceState,
    t: TokenView,
    st: LexState,
    w: Seq<Seq<char>>,
    end: LexState,
)
    requires
        lower(t.text) == "event"@,
        line_is(st, w, end),
        w.len() == 3,
        w[0].len() > 0 && '0' <= w[0][0] <= '9',
    ensures
        sequence_option(c, t, Ok(st)) == (
            SequenceState {
                q: SequenceView {
                    events: c.q.events.push(
                        SequenceEventView {
                            cycle: of_integer(integer_of(w[1])),
                            event_type: 0i32,
                            event: integer_of(w[0]),
                            name: Seq::empty(),
                            options: w[2],
                        },
                    ),
                    ..c.q
                },
                ..c
            },
            Ok::<LexState,
            ErrorView>(end),
        ),
{
    spelled_for_sequences();
    read_to_end(st, w, end);
    read_word(st, w, end, 0);
    read_word(st, w, end, 1);
    read_word(st, w, end, 2);
}

/// An event may have no options.
pub proof fn short_event(
    c: SequenceState,
    t: TokenView,
    st: LexState,
    w: Seq<Seq<char>>,
    end: LexState,
)
    requires
        lower(t.text) == "event"@,
        line_is(st, w, end),
        w.len() == 2,
        !(w[0].len() > 0 && '0' <= w[0][0] <= '9'),
    ensures
        sequence_option(c, t, Ok(st)) == (
            SequenceState {
                q: SequenceView {
                    events: c.q.events.push(
                        SequenceEventView {
                            cycle: of_integer(integer_of(w[1])),
                            event_type: 1024i32,
                            event: 0i32,
                            name: w[0],
                            options: Seq::empty(),
                        },
                    ),
                    ..c.q
                },
                ..c
            },
            Ok::<LexState,
            ErrorView>(end),
        ),
{
    spelled_for_sequences();
    read_to_end(st, w, end);
    read_word(st, w, end, 0);
    read_word(st, w, end, 1);
}

/// `iklock <chain> <position> <rotation>` adds a lock with its two weights.
pub proof fn iklock_of_a_sequence(
    c: SequenceState,
    t: TokenView,
    st: LexState,
    w: Seq<Seq<char>>,
    end: LexState,
)
    requires
        lower(t.text) == "iklock"@,
        line_is(st, w, end),
        w.len() == 3,
        numbers(w, 1, 3),
    ensures
        sequence_option(c, t, Ok(st)) == (
            SequenceState {
                q: SequenceView {
                    iklocks: c.q.iklocks.push(
                        IkAutoplayLockView {
                            chain: w[0],
                            pos_weight: n(w, 1),
                            local_q_weight: n(w, 2),
                        },
                    ),
                    ..c.q
                },
                ..c
            },
            Ok::<LexState,
            ErrorView>(end),
        ),
{
    spelled_for_sequences();
    read_to_end(st, w, end);
    read_word(st, w, end, 0);
    read_word(st, w, end, 1);
    read_word(st, w, end, 2);
}

/// `weightlist <name>` says how much bones count.
pub proof fn weightlist_of_a_sequence(
    c: SequenceState,
    t: TokenView,
    st: LexState,
    w: Seq<Seq<char>>,
    end: LexState,
)
    requires
        lower(t.text) == "weightlist"@,
        line_is(st, w, end),
        w.len() == 1,
    ensures
        sequence_option(c, t, Ok(st)) == (
            SequenceState { q: SequenceView { weight_list: Some(w[0]), ..c.q }, ..c },
            Ok::<LexState,
            ErrorView>(end),
        ),
{
    spelled_for_sequences();
    read_to_end(st, w, end);
    read_word(st, w, end, 0);
}

/// `sectionframes <length> <from>` cuts a sequence.
pub proof fn sections_of_a_sequence(
    c: SequenceState,
    t: TokenView,
    st: LexState,
    w: Seq<Seq<char>>,
    end: LexState,
)
    requires
        lower(t.text) == "sectionframes"@,
        line_is(st, w, end),
        w.len() == 2,
    ensures
        sequence_option(c, t, Ok(st)) == (
            SequenceState {
                q: SequenceView {
                    section_frames: Some(integer_of(w[0])),
                    section_threshold: Some(integer_of(w[1])),
                    ..c.q
                },
                ..c
            },
            Ok::<LexState,
            ErrorView>(end),
        ),
{
    spelled_for_sequences();
    read_to_end(st, w, end);
    read_word(st, w, end, 0);
    read_word(st, w, end, 1);
}

/// `blend <parameter> <start> <end>` blends along a parameter.
pub proof fn blend_of_a_sequence(
    c: SequenceState,
    t: TokenView,
    st: LexState,
    w: Seq<Seq<char>>,
    end: LexState,
)
    requires
        lower(t.text) == "blend"@,
        line_is(st, w, end),
        w.len() == 3,
        numbers(w, 1, 3),
    ensures
        sequence_option(c, t, Ok(st)) == (
            SequenceState {
                d: ScriptView {
                    desc: ModelDescView {
                        pose_parameters: widened(c.d.desc.pose_parameters, w[0], n(w, 1), n(w, 2)),
                        ..c.d.desc
                    },
                    ..c.d
                },
                q: SequenceView {
                    blend_params: c.q.blend_params.push(
                        BlendParamView { parameter: w[0], start: n(w, 1), end: n(w, 2) },
                    ),
                    ..c.q
                },
                ..c
            },
            Ok::<LexState,
            ErrorView>(end),
        ),
{
    spelled_for_sequences();
    read_to_end(st, w, end);
    read_word(st, w, end, 0);
    read_word(st, w, end, 1);
    read_word(st, w, end, 2);
}

/// How the options are spelled, as far as it tells them apart.
proof fn spelled_for_animations()
    ensures
        "fps"@.len() == 3,
        "origin"@.len() == 6 && "origin"@[3] == 'g',
        "angles"@.len() == 6 && "angles"@[3] == 'l',
        "rotate"@.len() == 6 && "rotate"@[3] == 'a',
        "scale"@.len() == 5 && "scale"@[0] == 's',
        "frame"@.len() == 5 && "frame"@[0] == 'f',
        "frames"@.len() == 6 && "frames"@[3] == 'm',
        "subtract"@.len() == 8 && "subtract"@[0] == 's',
        "noautoik"@.len() == 8 && "noautoik"@[0] == 'n',
        "autoik"@.len() == 6 && "autoik"@[3] == 'o',
        "weightlist"@.len() == 10,
        "ikrule"@.len() == 6 && "ikrule"@[3] == 'u',
{
    assert("fps"@.len() == 3) by {
        reveal_strlit("fps");
    }
    assert("origin"@.len() == 6 && "origin"@[3] == 'g') by {
        reveal_strlit("origin");
    }
    assert("angles"@.len() == 6 && "angles"@[3] == 'l') by {
        reveal_strlit("angles");
    }
    assert("rotate"@.len() == 6 && "rotate"@[3] == 'a') by {
        reveal_strlit("rotate");
    }
    assert("scale"@.len() == 5 && "scale"@[0] == 's') by {
        reveal_strlit("scale");
    }
    assert("frame"@.len() == 5 && "frame"@[0] == 'f') by {
        reveal_strlit("frame");
    }
    assert("frames"@.len() == 6 && "frames"@[3] == 'm') by {
        reveal_strlit("frames");
    }
    assert("subtract"@.len() == 8 && "subtract"@[0] == 's') by {
        reveal_strlit("subtract");
    }
    assert("noautoik"@.len() == 8 && "noautoik"@[0] == 'n') by {
        reveal_strlit("noautoik");
    }
    assert("autoik"@.len() == 6 && "autoik"@[3] == 'o') by {
        reveal_strlit("autoik");
    }
    assert("weightlist"@.len() == 10) by {
        reveal_strlit("weightlist");
    }
    assert("ikrule"@.len() == 6 && "ikrule"@[3] == 'u') by {
        reveal_strlit("ikrule");
    }
}

/// `fps <number>` sets the rate of an animation.
pub proof fn fps_of_an_animation(
    c: AnimationView,
    t: TokenView,
    st: LexState,
    w: Seq<Seq<char>>,
    end: LexState,
)
    requires
        lower(t.text) == "fps"@,
        line_is(st, w, end),
        w.len() == 1,
        numbers(w, 0, 1),
    ensures
        animation_option(c, t, Ok(st)) == (
            AnimationView { fps: Some(n(w, 0)), ..c },
            Ok::<LexState,
            ErrorView>(end),
        ),
{
    spelled_for_animations();
    read_to_end(st, w, end);
    read_word(st, w, end, 0);
}

/// `frame <first> <last>` takes a part of an animation.
pub proof fn frame_of_an_animation(
    c: AnimationView,
    t: TokenView,
    st: LexState,
    w: Seq<Seq<char>>,
    end: LexState,
)
    requires
        lower(t.text) == "frame"@,
        line_is(st, w, end),
        w.len() == 2,
    ensures
        animation_option(c, t, Ok(st)) == (
            AnimationView {
                frames: Some(FrameRange { first: integer_of(w[0]), last: integer_of(w[1]) }),
                ..c
            },
            Ok::<LexState,
            ErrorView>(end),
        ),
{
    spelled_for_animations();
    read_to_end(st, w, end);
    read_word(st, w, end, 0);
    read_word(st, w, end, 1);
}

/// `frames <first> <last>` takes a part of an animation.
pub proof fn frames_of_an_animation(
    c: AnimationView,
    t: TokenView,
    st: LexState,
    w: Seq<Seq<char>>,
    end: LexState,
)
    requires
        lower(t.text) == "frames"@,
        line_is(st, w, end),
        w.len() == 2,
    ensures
        animation_option(c, t, Ok(st)) == (
            AnimationView {
                frames: Some(FrameRange { first: integer_of(w[0]), last: integer_of(w[1]) }),
                ..c
            },
            Ok::<LexState,
            ErrorView>(end),
        ),
{
    spelled_for_animations();
    read_to_end(st, w, end);
    read_word(st, w, end, 0);
    read_word(st, w, end, 1);
}

/// `subtract <name> <frame>` takes a frame of another animation off.
pub proof fn subtraction_of_an_animation(
    c: AnimationView,
    t: TokenView,
    st: LexState,
    w: Seq<Seq<char>>,
    end: LexState,
)
    requires
        lower(t.text) == "subtract"@,
        line_is(st, w, end),
        w.len() == 2,
        bare_number(w[1]) is Some,
    ensures
        animation_option(c, t, Ok(st)) == (
            AnimationView { subtract: Some(w[0]), subtract_frame: bare_number(w[1]), ..c },
            Ok::<LexState,
            ErrorView>(end),
        ),
{
    spelled_for_animations();
    read_to_end(st, w, end);
    read_word(st, w, end, 0);
    read_word(st, w, end, 1);
}

/// `noautoik` switches the rules for limbs of an animation off.
pub proof fn noautoik_of_an_animation(
    c: AnimationView,
    t: TokenView,
    st: LexState,
    w: Seq<Seq<char>>,
    end: LexState,
)
    requires
        lower(t.text) == "noautoik"@,
        line_is(st, w, end),
        w.len() == 0,
    ensures
        animation_option(c, t, Ok(st)) == (
            AnimationView { no_auto_ik: true, ..c },
            Ok::<LexState,
            ErrorView>(end),
        ),
{
    spelled_for_animations();
    read_to_end(st, w, end);
}

/// `autoik` switches them on.
pub proof fn autoik_of_an_animation(
    c: AnimationView,
    t: TokenView,
    st: LexState,
    w: Seq<Seq<char>>,
    end: LexState,
)
    requires
        lower(t.text) == "autoik"@,
        line_is(st, w, end),
        w.len() == 0,
    ensures
        animation_option(c, t, Ok(st)) == (
            AnimationView { no_auto_ik: false, ..c },
            Ok::<LexState,
            ErrorView>(end),
        ),
{
    spelled_for_animations();
    read_to_end(st, w, end);
}

/// `weightlist <name>` says how much bones count in an animation.
pub proof fn weightlist_of_an_animation(
    c: AnimationView,
    t: TokenView,
    st: LexState,
    w: Seq<Seq<char>>,
    end: LexState,
)
    requires
        lower(t.text) == "weightlist"@,
        line_is(st, w, end),
        w.len() == 1,
    ensures
        animation_option(c, t, Ok(st)) == (
            AnimationView { weight_list: Some(w[0]), ..c },
            Ok::<LexState,
            ErrorView>(end),
        ),
{
    spelled_for_animations();
    read_to_end(st, w, end);
    read_word(st, w, end, 0);
}

/// How the options are spelled, as far as it tells them apart.
proof fn spelled_for_rules()
    ensures
        "usesource"@.len() == 9,
        "usesequence"@.len() == 11,
        "fakeorigin"@.len() == 10 && "fakeorigin"@[4] == 'o',
        "fakerotate"@.len() == 10 && "fakerotate"@[4] == 'r',
        "floor"@.len() == 5 && "floor"@[0] == 'f',
        "height"@.len() == 6 && "height"@[0] == 'h',
        "radius"@.len() == 6 && "radius"@[0] == 'r',
        "pad"@.len() == 3,
        "target"@.len() == 6 && "target"@[0] == 't',
        "contact"@.len() == 7,
        "range"@.len() == 5 && "range"@[0] == 'r',
{
    assert("usesource"@.len() == 9) by {
        reveal_strlit("usesource");
    }
    assert("usesequence"@.len() == 11) by {
        reveal_strlit("usesequence");
    }
    assert("fakeorigin"@.len() == 10 && "fakeorigin"@[4] == 'o') by {
        reveal_strlit("fakeorigin");
    }
    assert("fakerotate"@.len() == 10 && "fakerotate"@[4] == 'r') by {
        reveal_strlit("fakerotate");
    }
    assert("floor"@.len() == 5 && "floor"@[0] == 'f') by {
        reveal_strlit("floor");
    }
    assert("height"@.len() == 6 && "height"@[0] == 'h') by {
        reveal_strlit("height");
    }
    assert("radius"@.len() == 6 && "radius"@[0] == 'r') by {
        reveal_strlit("radius");
    }
    assert("pad"@.len() == 3) by {
        reveal_strlit("pad");
    }
    assert("target"@.len() == 6 && "target"@[0] == 't') by {
        reveal_strlit("target");
    }
    assert("contact"@.len() == 7) by {
        reveal_strlit("contact");
    }
    assert("range"@.len() == 5 && "range"@[0] == 'r') by {
        reveal_strlit("range");
    }
}

/// `usesource` takes the pose of the file.
pub proof fn source_of_a_rule(
    c: IkRuleView,
    t: TokenView,
    st: LexState,
    w: Seq<Seq<char>>,
    end: LexState,
)
    requires
        lower(t.text) == "usesource"@,
        line_is(st, w, end),
        w.len() == 0,
    ensures
        rule_option(c, lower(t.text), Ok(st)) == (
            IkRuleView { use_source: true, ..c },
            Ok::<LexState,
            ErrorView>(end),
        ),
{
    spelled_for_rules();
    read_to_end(st, w, end);
}

/// `usesequence` takes that of the sequence.
pub proof fn sequence_of_a_rule(
    c: IkRuleView,
    t: TokenView,
    st: LexState,
    w: Seq<Seq<char>>,
    end: LexState,
)
    requires
        lower(t.text) == "usesequence"@,
        line_is(st, w, end),
        w.len() == 0,
    ensures
        rule_option(c, lower(t.text), Ok(st)) == (
            IkRuleView { use_source: false, ..c },
            Ok::<LexState,
            ErrorView>(end),
        ),
{
    spelled_for_rules();
    read_to_end(st, w, end);
}

/// `fakeorigin <x> <y> <z>` gives a rule another place.
pub proof fn origin_of_a_rule(
    c: IkRuleView,
    t: TokenView,
    st: LexState,
    w: Seq<Seq<char>>,
    end: LexState,
)
    requires
        lower(t.text) == "fakeorigin"@,
        line_is(st, w, end),
        w.len() == 3,
        numbers(w, 0, 3),
    ensures
        rule_option(c, lower(t.text), Ok(st)) == (
            IkRuleView { fake_origin: Some(Vector { x: n(w, 0), y: n(w, 1), z: n(w, 2) }), ..c },
            Ok::<LexState,
            ErrorView>(end),
        ),
{
    spelled_for_rules();
    read_to_end(st, w, end);
    read_vector(st, w, end, 0);
    read_word(st, w, end, 0);
    read_word(st, w, end, 1);
    read_word(st, w, end, 2);
}

/// `fakerotate <x> <y> <z>` gives a rule another rotation.
pub proof fn rotation_of_a_rule(
    c: IkRuleView,
    t: TokenView,
    st: LexState,
    w: Seq<Seq<char>>,
    end: LexState,
)
    requires
        lower(t.text) == "fakerotate"@,
        line_is(st, w, end),
        w.len() == 3,
        numbers(w, 0, 3),
    ensures
        rule_option(c, lower(t.text), Ok(st)) == (
            IkRuleView { fake_rotate: Some(Vector { x: n(w, 0), y: n(w, 1), z: n(w, 2) }), ..c },
            Ok::<LexState,
            ErrorView>(end),
        ),
{
    spelled_for_rules();
    read_to_end(st, w, end);
    read_vector(st, w, end, 0);
    read_word(st, w, end, 0);
    read_word(st, w, end, 1);
    read_word(st, w, end, 2);
}

/// `floor <number>` sets that number of a rule.
pub proof fn floor_of_a_rule(
    c: IkRuleView,
    t: TokenView,
    st: LexState,
    w: Seq<Seq<char>>,
    end: LexState,
)
    requires
        lower(t.text) == "floor"@,
        line_is(st, w, end),
        w.len() == 1,
        numbers(w, 0, 1),
    ensures
        rule_option(c, lower(t.text), Ok(st)) == (
            IkRuleView { floor: Some(n(w, 0)), ..c },
            Ok::<LexState,
            ErrorView>(end),
        ),
{
    spelled_for_rules();
    read_to_end(st, w, end);
    read_word(st, w, end, 0);
}

/// `height <number>` sets that number of a rule.
pub proof fn height_of_a_rule(
    c: IkRuleView,
    t: TokenView,
    st: LexState,
    w: Seq<Seq<char>>,
    end: LexState,
)
    requires
        lower(t.text) == "height"@,
        line_is(st, w, end),
        w.len() == 1,
        numbers(w, 0, 1),
    ensures
        rule_option(c, lower(t.text), Ok(st)) == (
            IkRuleView { height: Some(n(w, 0)), ..c },
            Ok::<LexState,
            ErrorView>(end),
        ),
{
    spelled_for_rules();
    read_to_end(st, w, end);
    read_word(st, w, end, 0);
}

/// `radius <number>` sets that number of a rule.
pub proof fn radius_of_a_rule(
    c: IkRuleView,
    t: TokenView,
    st: LexState,
    w: Seq<Seq<char>>,
    end: LexState,
)
    requires
        lower(t.text) == "radius"@,
        line_is(st, w, end),
        w.len() == 1,
        numbers(w, 0, 1),
    ensures
        rule_option(c, lower(t.text), Ok(st)) == (
            IkRuleView { radius: Some(n(w, 0)), ..c },
            Ok::<LexState,
            ErrorView>(end),
        ),
{
    spelled_for_rules();
    read_to_end(st, w, end);
    read_word(st, w, end, 0);
}

/// `pad <number>` sets that number of a rule.
pub proof fn pad_of_a_rule(
    c: IkRuleView,
    t: TokenView,
    st: LexState,
    w: Seq<Seq<char>>,
    end: LexState,
)
    requires
        lower(t.text) == "pad"@,
        line_is(st, w, end),
        w.len() == 1,
        numbers(w, 0, 1),
    ensures
        rule_option(c, lower(t.text), Ok(st)) == (
            IkRuleView { pad: Some(n(w, 0)), ..c },
            Ok::<LexState,
            ErrorView>(end),
        ),
{
    spelled_for_rules();
    read_to_end(st, w, end);
    read_word(st, w, end, 0);
}

/// `target <number>` sets that number of a rule.
pub proof fn target_of_a_rule(
    c: IkRuleView,
    t: TokenView,
    st: LexState,
    w: Seq<Seq<char>>,
    end: LexState,
)
    requires
        lower(t.text) == "target"@,
        line_is(st, w, end),
        w.len() == 1,
    ensures
        rule_option(c, lower(t.text), Ok(st)) == (
            IkRuleView { target: Some(integer_of(w[0])), ..c },
            Ok::<LexState,
            ErrorView>(end),
        ),
{
    spelled_for_rules();
    read_to_end(st, w, end);
    read_word(st, w, end, 0);
}

/// `contact <number>` sets that number of a rule.
pub proof fn contact_of_a_rule(
    c: IkRuleView,
    t: TokenView,
    st: LexState,
    w: Seq<Seq<char>>,
    end: LexState,
)
    requires
        lower(t.text) == "contact"@,
        line_is(st, w, end),
        w.len() == 1,
    ensures
        rule_option(c, lower(t.text), Ok(st)) == (
            IkRuleView { contact: Some(integer_of(w[0])), ..c },
            Ok::<LexState,
            ErrorView>(end),
        ),
{
    spelled_for_rules();
    read_to_end(st, w, end);
    read_word(st, w, end, 0);
}

/// `range <start> <peak> <tail> <end>` says when a rule holds; a point leaves a time open.
pub proof fn range_of_a_rule(
    c: IkRuleView,
    t: TokenView,
    st: LexState,
    w: Seq<Seq<char>>,
    end: LexState,
)
    requires
        lower(t.text) == "range"@,
        line_is(st, w, end),
        w.len() == 4,
    ensures
        rule_option(c, lower(t.text), Ok(st)) == (
            IkRuleView {
                range: Some(
                    IkRange {
                        start: if w[0] == "."@ { None } else { Some(integer_of(w[0])) },
                        peak: if w[1] == "."@ { None } else { Some(integer_of(w[1])) },
                        tail: if w[2] == "."@ { None } else { Some(integer_of(w[2])) },
                        end: if w[3] == "."@ { None } else { Some(integer_of(w[3])) },
                    },
                ),
                ..c
            },
            Ok::<LexState,
            ErrorView>(end),
        ),
{
    spelled_for_rules();
    read_to_end(st, w, end);
    read_word(st, w, end, 0);
    read_word(st, w, end, 1);
    read_word(st, w, end, 2);
    read_word(st, w, end, 3);
}

/// How the options are spelled, as far as it tells them apart.
proof fn spelled_for_distances()
    ensures
        "replacemodel"@.len() == 12,
        "bonetreecollapse"@.len() == 16,
        "replacebone"@.len() == 11,
        "nofacial"@.len() == 8,
        "facial"@.len() == 6,
{
    assert("replacemodel"@.len() == 12) by {
        reveal_strlit("replacemodel");
    }
    assert("bonetreecollapse"@.len() == 16) by {
        reveal_strlit("bonetreecollapse");
    }
    assert("replacebone"@.len() == 11) by {
        reveal_strlit("replacebone");
    }
    assert("nofacial"@.len() == 8) by {
        reveal_strlit("nofacial");
    }
    assert("facial"@.len() == 6) by {
        reveal_strlit("facial");
    }
}

/// `bonetreecollapse <bone>` folds what hangs from a bone, behind those before it.
pub proof fn collapse_of_a_distance(
    c: (ScriptView, LodModelView),
    t: TokenView,
    st: LexState,
    w: Seq<Seq<char>>,
    end: LexState,
)
    requires
        lower(t.text) == "bonetreecollapse"@,
        line_is(st, w, end),
        w.len() == 1,
    ensures
        lod_option(c.0, c.1, t, Ok(st)) == (
            c.0,
            LodModelView { bone_tree_collapse: c.1.bone_tree_collapse.push(w[0]), ..c.1 },
            Ok::<LexState,
            ErrorView>(end),
        ),
{
    spelled_for_distances();
    read_to_end(st, w, end);
    read_word(st, w, end, 0);
}

/// `replacebone <bone> <bone>` puts the second bone in place of the first.
pub proof fn replaced_bone_of_a_distance(
    c: (ScriptView, LodModelView),
    t: TokenView,
    st: LexState,
    w: Seq<Seq<char>>,
    end: LexState,
)
    requires
        lower(t.text) == "replacebone"@,
        line_is(st, w, end),
        w.len() == 2,
    ensures
        lod_option(c.0, c.1, t, Ok(st)) == (
            c.0,
            LodModelView {
                replace_bone: c.1.replace_bone.push(PairView { a: w[0], b: w[1] }),
                ..c.1
            },
            Ok::<LexState,
            ErrorView>(end),
        ),
{
    spelled_for_distances();
    read_to_end(st, w, end);
    read_word(st, w, end, 0);
    read_word(st, w, end, 1);
}

/// `nofacial` leaves the face as it is.
pub proof fn nofacial_of_a_distance(
    c: (ScriptView, LodModelView),
    t: TokenView,
    st: LexState,
    w: Seq<Seq<char>>,
    end: LexState,
)
    requires
        lower(t.text) == "nofacial"@,
        line_is(st, w, end),
        w.len() == 0,
    ensures
        lod_option(c.0, c.1, t, Ok(st)) == (
            c.0,
            LodModelView { no_facial: true, ..c.1 },
            Ok::<LexState,
            ErrorView>(end),
        ),
{
    spelled_for_distances();
    read_to_end(st, w, end);
}

/// `facial` moves the face.
pub proof fn facial_of_a_distance(
    c: (ScriptView, LodModelView),
    t: TokenView,
    st: LexState,
    w: Seq<Seq<char>>,
    end: LexState,
)
    requires
        lower(t.text) == "facial"@,
        line_is(st, w, end),
        w.len() == 0,
    ensures
        lod_option(c.0, c.1, t, Ok(st)) == (
            c.0,
            LodModelView { no_facial: false, ..c.1 },
            Ok::<LexState,
            ErrorView>(end),
        ),
{
    spelled_for_distances();
    read_to_end(st, w, end);
}

/// How the options are spelled, as far as it tells them apart.
proof fn spelled_for_models()
    ensures
        "flexfile"@.len() == 8 && "flexfile"@[4] == 'f',
        "flex"@.len() == 4,
        "flexpair"@.len() == 8 && "flexpair"@[4] == 'p',
        "defaultflex"@.len() == 11,
        "localvar"@.len() == 8 && "localvar"@[4] == 'l',
        "eyeball"@.len() == 7,
        "eyelid"@.len() == 6,
        "mouth"@.len() == 5,
        "flexcontroller"@.len() == 14,
{
    assert("flexfile"@.len() == 8 && "flexfile"@[4] == 'f') by {
        reveal_strlit("flexfile");
    }
    assert("flex"@.len() == 4) by {
        reveal_strlit("flex");
    }
    assert("flexpair"@.len() == 8 && "flexpair"@[4] == 'p') by {
        reveal_strlit("flexpair");
    }
    assert("defaultflex"@.len() == 11) by {
        reveal_strlit("defaultflex");
    }
    assert("localvar"@.len() == 8 && "localvar"@[4] == 'l') by {
        reveal_strlit("localvar");
    }
    assert("eyeball"@.len() == 7) by {
        reveal_strlit("eyeball");
    }
    assert("eyelid"@.len() == 6) by {
        reveal_strlit("eyelid");
    }
    assert("mouth"@.len() == 5) by {
        reveal_strlit("mouth");
    }
    assert("flexcontroller"@.len() == 14) by {
        reveal_strlit("flexcontroller");
    }
}

/// `eyeball <name> <bone> <place> <material> <radius> <angle> <iris> <pupil>` adds an eye.
pub proof fn eyeball_of_a_model(
    c: (ScriptView, BodyModelView),
    depth: int,
    t: TokenView,
    st: LexState,
    w: Seq<Seq<char>>,
    end: LexState,
)
    requires
        lower(t.text) == "eyeball"@,
        line_is(st, w, end),
        w.len() == 10,
        numbers(w, 2, 5),
        numbers(w, 6, 8),
        numbers(w, 9, 10),
    ensures
        model_option(c.0, c.1, depth, t, Ok(st)) == (
            c.0,
            BodyModelView {
                eyeballs: c.1.eyeballs.push(
                    EyeballView {
                        name: Some(w[0]),
                        bone: w[1],
                        org: Vector { x: n(w, 2), y: n(w, 3), z: n(w, 4) },
                        material: w[5],
                        radius: n(w, 6),
                        zangle: n(w, 7),
                        iris_scale: iris_scale(n(w, 9)),
                        upper_lid: None,
                        lower_lid: None,
                    },
                ),
                ..c.1
            },
            Ok::<LexState,
            ErrorView>(end),
        ),
{
    spelled_for_models();
    read_to_end(st, w, end);
    read_word(st, w, end, 0);
    read_word(st, w, end, 1);
    read_vector(st, w, end, 2);
    read_word(st, w, end, 2);
    read_word(st, w, end, 3);
    read_word(st, w, end, 4);
    read_word(st, w, end, 5);
    read_word(st, w, end, 6);
    read_word(st, w, end, 7);
    read_word(st, w, end, 8);
    read_word(st, w, end, 9);
}

/// `mouth <number> <flex> <bone> <forward>` adds a mouth.
pub proof fn mouth_of_a_model(
    c: (ScriptView, BodyModelView),
    depth: int,
    t: TokenView,
    st: LexState,
    w: Seq<Seq<char>>,
    end: LexState,
)
    requires
        lower(t.text) == "mouth"@,
        line_is(st, w, end),
        w.len() == 6,
        numbers(w, 3, 6),
    ensures
        model_option(c.0, c.1, depth, t, Ok(st)) == (
            ScriptView {
                desc: ModelDescView {
                    mouths: c.0.desc.mouths.push(
                        MouthView {
                            index: integer_of(w[0]),
                            flexdesc: w[1],
                            bone: w[2],
                            forward: Vector { x: n(w, 3), y: n(w, 4), z: n(w, 5) },
                        },
                    ),
                    ..c.0.desc
                },
                ..c.0
            },
            c.1,
            Ok::<LexState,
            ErrorView>(end),
        ),
{
    spelled_for_models();
    read_to_end(st, w, end);
    read_word(st, w, end, 0);
    read_word(st, w, end, 1);
    read_word(st, w, end, 2);
    read_vector(st, w, end, 3);
    read_word(st, w, end, 3);
    read_word(st, w, end, 4);
    read_word(st, w, end, 5);
}

/// `flexfile <path>` names the file of the flexes that follow.
pub proof fn flexfile_of_a_model(
    c: (ScriptView, BodyModelView),
    depth: int,
    t: TokenView,
    st: LexState,
    w: Seq<Seq<char>>,
    end: LexState,
)
    requires
        lower(t.text) == "flexfile"@,
        line_is(st, w, end),
        w.len() == 1,
    ensures
        model_option(c.0, c.1, depth, t, Ok(st)) == (
            ScriptView { pending_vta: Some(resolved(c.0, w[0])), ..c.0 },
            c.1,
            Ok::<LexState,
            ErrorView>(end),
        ),
{
    spelled_for_models();
    read_to_end(st, w, end);
    read_word(st, w, end, 0);
}

/// `flexcontroller <kind> <name>` adds a controller from nought to one.
pub proof fn controller_of_a_model(
    c: (ScriptView, BodyModelView),
    depth: int,
    t: TokenView,
    st: LexState,
    w: Seq<Seq<char>>,
    end: LexState,
)
    requires
        lower(t.text) == "flexcontroller"@,
        line_is(st, w, end),
        w.len() == 2,
        lower(w[1]) != lower("range"@),
    ensures
        model_option(c.0, c.1, depth, t, Ok(st)) == (
            ScriptView {
                desc: ModelDescView {
                    flex_controllers: c.0.desc.flex_controllers.push(
                        FlexControllerView { name: w[1], kind: w[0], min: 0, max: ONE },
                    ),
                    ..c.0.desc
                },
                ..c.0
            },
            c.1,
            Ok::<LexState,
            ErrorView>(end),
        ),
{
    spelled_for_models();
    read_to_end(st, w, end);
    reveal_with_fuel(controllers, 3);
    read_word(st, w, end, 0);
    read_word(st, w, end, 1);
}

/// A controller may have another range.
pub proof fn ranged_controller_of_a_model(
    c: (ScriptView, BodyModelView),
    depth: int,
    t: TokenView,
    st: LexState,
    w: Seq<Seq<char>>,
    end: LexState,
)
    requires
        lower(t.text) == "flexcontroller"@,
        line_is(st, w, end),
        w.len() == 5,
        numbers(w, 2, 4),
        lower(w[1]) == lower("range"@),
        lower(w[4]) != lower("range"@),
    ensures
        model_option(c.0, c.1, depth, t, Ok(st)) == (
            ScriptView {
                desc: ModelDescView {
                    flex_controllers: c.0.desc.flex_controllers.push(
                        FlexControllerView { name: w[4], kind: w[0], min: n(w, 2), max: n(w, 3) },
                    ),
                    ..c.0.desc
                },
                ..c.0
            },
            c.1,
            Ok::<LexState,
            ErrorView>(end),
        ),
{
    spelled_for_models();
    read_to_end(st, w, end);
    reveal_with_fuel(controllers, 4);
    goes_on(st, w, end, 1, 4);
    read_word(st, w, end, 0);
    read_word(st, w, end, 1);
    read_word(st, w, end, 2);
    read_word(st, w, end, 3);
    read_word(st, w, end, 4);
}

/// How the options are spelled, as far as it tells them apart.
proof fn spelled_for_collision()
    ensures
        "mass"@.len() == 4 && "mass"@[0] == 'm',
        "concave"@.len() == 7 && "concave"@[0] == 'c',
        "damping"@.len() == 7 && "damping"@[0] == 'd',
        "rotdamping"@.len() == 10 && "rotdamping"@[0] == 'r',
        "inertia"@.len() == 7 && "inertia"@[0] == 'i',
        "drag"@.len() == 4 && "drag"@[0] == 'd',
        "rootbone"@.len() == 8 && "rootbone"@[2] == 'o' && "rootbone"@[0] == 'r',
        "automass"@.len() == 8 && "automass"@[2] == 't' && "automass"@[0] == 'a',
        "masscenter"@.len() == 10 && "masscenter"@[0] == 'm',
        "phyname"@.len() == 7 && "phyname"@[0] == 'p',
        "maxconvexpieces"@.len() == 15 && "maxconvexpieces"@[0] == 'm',
        "noselfcollisions"@.len() == 16 && "noselfcollisions"@[1] == 'o'
            && "noselfcollisions"@[0] == 'n',
        "jointmerge"@.len() == 10 && "jointmerge"@[0] == 'j',
        "jointcollide"@.len() == 12 && "jointcollide"@[5] == 'c' && "jointcollide"@[0] == 'j',
        "jointconstrain"@.len() == 14 && "jointconstrain"@[0] == 'j',
        "animatedfriction"@.len() == 16 && "animatedfriction"@[1] == 'n'
            && "animatedfriction"@[0] == 'a',
        "rollingdrag"@.len() == 11 && "rollingdrag"@[0] == 'r',
        "weldposition"@.len() == 12 && "weldposition"@[5] == 'o' && "weldposition"@[0] == 'w',
        "weldnormal"@.len() == 10 && "weldnormal"@[0] == 'w',
        "remove2d"@.len() == 8 && "remove2d"@[2] == 'm' && "remove2d"@[0] == 'r',
        "polysoup"@.len() == 8 && "polysoup"@[2] == 'l' && "polysoup"@[0] == 'p',
        "assumeworldspace"@.len() == 16 && "assumeworldspace"@[1] == 's'
            && "assumeworldspace"@[0] == 'a',
        "concaveperjoint"@.len() == 15 && "concaveperjoint"@[0] == 'c',
        "snapcollisionjoints"@.len() == 19 && "snapcollisionjoints"@[0] == 's',
        "preservetriangleorder"@.len() == 21 && "preservetriangleorder"@[0] == 'p',
        "jointskip"@.len() == 9 && "jointskip"@[0] == 'j',
        "jointmassbias"@.len() == 13 && "jointmassbias"@[0] == 'j',
        "jointdamping"@.len() == 12 && "jointdamping"@[5] == 'd' && "jointdamping"@[0] == 'j',
        "jointrotdamping"@.len() == 15 && "jointrotdamping"@[0] == 'j',
        "jointinertia"@.len() == 12 && "jointinertia"@[5] == 'i' && "jointinertia"@[0] == 'j',
{
    assert("mass"@.len() == 4 && "mass"@[0] == 'm') by {
        reveal_strlit("mass");
    }
    assert("concave"@.len() == 7 && "concave"@[0] == 'c') by {
        reveal_strlit("concave");
    }
    assert("damping"@.len() == 7 && "damping"@[0] == 'd') by {
        reveal_strlit("damping");
    }
    assert("rotdamping"@.len() == 10 && "rotdamping"@[0] == 'r') by {
        reveal_strlit("rotdamping");
    }
    assert("inertia"@.len() == 7 && "inertia"@[0] == 'i') by {
        reveal_strlit("inertia");
    }
    assert("drag"@.len() == 4 && "drag"@[0] == 'd') by {
        reveal_strlit("drag");
    }
    assert("rootbone"@.len() == 8 && "rootbone"@[2] == 'o' && "rootbone"@[0] == 'r') by {
        reveal_strlit("rootbone");
    }
    assert("automass"@.len() == 8 && "automass"@[2] == 't' && "automass"@[0] == 'a') by {
        reveal_strlit("automass");
    }
    assert("masscenter"@.len() == 10 && "masscenter"@[0] == 'm') by {
        reveal_strlit("masscenter");
    }
    assert("phyname"@.len() == 7 && "phyname"@[0] == 'p') by {
        reveal_strlit("phyname");
    }
    assert("maxconvexpieces"@.len() == 15 && "maxconvexpieces"@[0] == 'm') by {
        reveal_strlit("maxconvexpieces");
    }
    assert("noselfcollisions"@.len() == 16 && "noselfcollisions"@[1] == 'o'
        && "noselfcollisions"@[0] == 'n') by {
        reveal_strlit("noselfcollisions");
    }
    assert("jointmerge"@.len() == 10 && "jointmerge"@[0] == 'j') by {
        reveal_strlit("jointmerge");
    }
    assert("jointcollide"@.len() == 12 && "jointcollide"@[5] == 'c'
        && "jointcollide"@[0] == 'j') by {
        reveal_strlit("jointcollide");
    }
    assert("jointconstrain"@.len() == 14 && "jointconstrain"@[0] == 'j') by {
        reveal_strlit("jointconstrain");
    }
    assert("animatedfriction"@.len() == 16 && "animatedfriction"@[1] == 'n'
        && "animatedfriction"@[0] == 'a') by {
        reveal_strlit("animatedfriction");
    }
    assert("rollingdrag"@.len() == 11 && "rollingdrag"@[0] == 'r') by {
        reveal_strlit("rollingdrag");
    }
    assert("weldposition"@.len() == 12 && "weldposition"@[5] == 'o'
        && "weldposition"@[0] == 'w') by {
        reveal_strlit("weldposition");
    }
    assert("weldnormal"@.len() == 10 && "weldnormal"@[0] == 'w') by {
        reveal_strlit("weldnormal");
    }
    assert("remove2d"@.len() == 8 && "remove2d"@[2] == 'm' && "remove2d"@[0] == 'r') by {
        reveal_strlit("remove2d");
    }
    assert("polysoup"@.len() == 8 && "polysoup"@[2] == 'l' && "polysoup"@[0] == 'p') by {
        reveal_strlit("polysoup");
    }
    assert("assumeworldspace"@.len() == 16 && "assumeworldspace"@[1] == 's'
        && "assumeworldspace"@[0] == 'a') by {
        reveal_strlit("assumeworldspace");
    }
    assert("concaveperjoint"@.len() == 15 && "concaveperjoint"@[0] == 'c') by {
        reveal_strlit("concaveperjoint");
    }
    assert("snapcollisionjoints"@.len() == 19 && "snapcollisionjoints"@[0] == 's') by {
        reveal_strlit("snapcollisionjoints");
    }
    assert("preservetriangleorder"@.len() == 21 && "preservetriangleorder"@[0] == 'p') by {
        reveal_strlit("preservetriangleorder");
    }
    assert("jointskip"@.len() == 9 && "jointskip"@[0] == 'j') by {
        reveal_strlit("jointskip");
    }
    assert("jointmassbias"@.len() == 13 && "jointmassbias"@[0] == 'j') by {
        reveal_strlit("jointmassbias");
    }
    assert("jointdamping"@.len() == 12 && "jointdamping"@[5] == 'd'
        && "jointdamping"@[0] == 'j') by {
        reveal_strlit("jointdamping");
    }
    assert("jointrotdamping"@.len() == 15 && "jointrotdamping"@[0] == 'j') by {
        reveal_strlit("jointrotdamping");
    }
    assert("jointinertia"@.len() == 12 && "jointinertia"@[5] == 'i'
        && "jointinertia"@[0] == 'j') by {
        reveal_strlit("jointinertia");
    }
}

/// `mass <number>` in the block sets that number of the collision model.
pub proof fn mass_key(
    c: PhysicsView,
    t: TokenView,
    st: LexState,
    w: Seq<Seq<char>>,
    end: LexState,
)
    requires
        lower(t.text) == "mass"@,
        line_is(st, w, end),
        w.len() == 1,
        numbers(w, 0, 1),
    ensures
        collision_key(c, t, Ok(st)) == (
            PhysicsView { mass: Some(n(w, 0)), ..c },
            Ok::<LexState,
            ErrorView>(end),
        ),
{
    spelled_for_collision();
    read_to_end(st, w, end);
    read_word(st, w, end, 0);
}

/// `damping <number>` in the block sets that number of the collision model.
pub proof fn damping_key(
    c: PhysicsView,
    t: TokenView,
    st: LexState,
    w: Seq<Seq<char>>,
    end: LexState,
)
    requires
        lower(t.text) == "damping"@,
        line_is(st, w, end),
        w.len() == 1,
        numbers(w, 0, 1),
    ensures
        collision_key(c, t, Ok(st)) == (
            PhysicsView { damping: Some(n(w, 0)), ..c },
            Ok::<LexState,
            ErrorView>(end),
        ),
{
    spelled_for_collision();
    read_to_end(st, w, end);
    read_word(st, w, end, 0);
}

/// `rotdamping <number>` in the block sets that number of the collision model.
pub proof fn rotdamping_key(
    c: PhysicsView,
    t: TokenView,
    st: LexState,
    w: Seq<Seq<char>>,
    end: LexState,
)
    requires
        lower(t.text) == "rotdamping"@,
        line_is(st, w, end),
        w.len() == 1,
        numbers(w, 0, 1),
    ensures
        collision_key(c, t, Ok(st)) == (
            PhysicsView { rot_damping: Some(n(w, 0)), ..c },
            Ok::<LexState,
            ErrorView>(end),
        ),
{
    spelled_for_collision();
    read_to_end(st, w, end);
    read_word(st, w, end, 0);
}

/// `inertia <number>` in the block sets that number of the collision model.
pub proof fn inertia_key(
    c: PhysicsView,
    t: TokenView,
    st: LexState,
    w: Seq<Seq<char>>,
    end: LexState,
)
    requires
        lower(t.text) == "inertia"@,
        line_is(st, w, end),
        w.len() == 1,
        numbers(w, 0, 1),
    ensures
        collision_key(c, t, Ok(st)) == (
            PhysicsView { inertia: Some(n(w, 0)), ..c },
            Ok::<LexState,
            ErrorView>(end),
        ),
{
    spelled_for_collision();
    read_to_end(st, w, end);
    read_word(st, w, end, 0);
}

/// `drag <number>` in the block sets that number of the collision model.
pub proof fn drag_key(
    c: PhysicsView,
    t: TokenView,
    st: LexState,
    w: Seq<Seq<char>>,
    end: LexState,
)
    requires
        lower(t.text) == "drag"@,
        line_is(st, w, end),
        w.len() == 1,
        numbers(w, 0, 1),
    ensures
        collision_key(c, t, Ok(st)) == (
            PhysicsView { drag: Some(n(w, 0)), ..c },
            Ok::<LexState,
            ErrorView>(end),
        ),
{
    spelled_for_collision();
    read_to_end(st, w, end);
    read_word(st, w, end, 0);
}

/// `masscenter <x> <y> <z>` in the block gives the centre of mass.
pub proof fn masscenter_key(
    c: PhysicsView,
    t: TokenView,
    st: LexState,
    w: Seq<Seq<char>>,
    end: LexState,
)
    requires
        lower(t.text) == "masscenter"@,
        line_is(st, w, end),
        w.len() == 3,
        numbers(w, 0, 3),
    ensures
        collision_key(c, t, Ok(st)) == (
            PhysicsView { mass_center: Some(Vector { x: n(w, 0), y: n(w, 1), z: n(w, 2) }), ..c },
            Ok::<LexState,
            ErrorView>(end),
        ),
{
    spelled_for_collision();
    read_to_end(st, w, end);
    read_vector(st, w, end, 0);
    read_word(st, w, end, 0);
    read_word(st, w, end, 1);
    read_word(st, w, end, 2);
}

/// `rootbone <bone>` in the block names the root.
pub proof fn rootbone_key(
    c: PhysicsView,
    t: TokenView,
    st: LexState,
    w: Seq<Seq<char>>,
    end: LexState,
)
    requires
        lower(t.text) == "rootbone"@,
        line_is(st, w, end),
        w.len() == 1,
    ensures
        collision_key(c, t, Ok(st)) == (
            PhysicsView { root_bone: Some(w[0]), ..c },
            Ok::<LexState,
            ErrorView>(end),
        ),
{
    spelled_for_collision();
    read_to_end(st, w, end);
    read_word(st, w, end, 0);
}

/// `jointmerge <parent> <child>` in the block merges the second bone into the first.
pub proof fn jointmerge_key(
    c: PhysicsView,
    t: TokenView,
    st: LexState,
    w: Seq<Seq<char>>,
    end: LexState,
)
    requires
        lower(t.text) == "jointmerge"@,
        line_is(st, w, end),
        w.len() == 2,
    ensures
        collision_key(c, t, Ok(st)) == (
            PhysicsView { merge: c.merge.push(PairView { a: w[0], b: w[1] }), ..c },
            Ok::<LexState,
            ErrorView>(end),
        ),
{
    spelled_for_collision();
    read_to_end(st, w, end);
    read_word(st, w, end, 0);
    read_word(st, w, end, 1);
}

/// `jointcollide <bone> <bone>` in the block lets two solids collide.
pub proof fn jointcollide_key(
    c: PhysicsView,
    t: TokenView,
    st: LexState,
    w: Seq<Seq<char>>,
    end: LexState,
)
    requires
        lower(t.text) == "jointcollide"@,
        line_is(st, w, end),
        w.len() == 2,
    ensures
        collision_key(c, t, Ok(st)) == (
            PhysicsView {
                collision_pairs: c.collision_pairs.push(PairView { a: w[0], b: w[1] }),
                ..c
            },
            Ok::<LexState,
            ErrorView>(end),
        ),
{
    spelled_for_collision();
    read_to_end(st, w, end);
    read_word(st, w, end, 0);
    read_word(st, w, end, 1);
}

/// `jointconstrain` in the block limits a joint.
pub proof fn jointconstrain_key(
    c: PhysicsView,
    t: TokenView,
    st: LexState,
    w: Seq<Seq<char>>,
    end: LexState,
)
    requires
        lower(t.text) == "jointconstrain"@,
        line_is(st, w, end),
        w.len() == 6,
        numbers(w, 3, 6),
    ensures
        collision_key(c, t, Ok(st)) == (
            PhysicsView {
                constraints: c.constraints.push(
                    JointConstraintSpecView {
                        bone: w[0],
                        axis: w[1],
                        kind: w[2],
                        min: n(w, 3),
                        max: n(w, 4),
                        friction: n(w, 5),
                    },
                ),
                ..c
            },
            Ok::<LexState,
            ErrorView>(end),
        ),
{
    spelled_for_collision();
    read_to_end(st, w, end);
    read_word(st, w, end, 0);
    read_word(st, w, end, 1);
    read_word(st, w, end, 2);
    read_word(st, w, end, 3);
    read_word(st, w, end, 4);
    read_word(st, w, end, 5);
}

/// `animatedfriction` in the block gives friction under animation.
pub proof fn animatedfriction_key(
    c: PhysicsView,
    t: TokenView,
    st: LexState,
    w: Seq<Seq<char>>,
    end: LexState,
)
    requires
        lower(t.text) == "animatedfriction"@,
        line_is(st, w, end),
        w.len() == 5,
        numbers(w, 2, 5),
    ensures
        collision_key(c, t, Ok(st)) == (
            PhysicsView {
                animated_friction: Some(
                    AnimatedFrictionSpec {
                        min: integer_of(w[0]),
                        max: integer_of(w[1]),
                        time_in: n(w, 2),
                        time_out: n(w, 4),
                        time_hold: n(w, 3),
                    },
                ),
                ..c
            },
            Ok::<LexState,
            ErrorView>(end),
        ),
{
    spelled_for_collision();
    read_to_end(st, w, end);
    read_word(st, w, end, 0);
    read_word(st, w, end, 1);
    read_word(st, w, end, 2);
    read_word(st, w, end, 3);
    read_word(st, w, end, 4);
}

/// `jointmassbias <bone> <number>` gives a joint a number of its own, and no other.
pub proof fn jointmassbias_key(
    c: PhysicsView,
    t: TokenView,
    st: LexState,
    w: Seq<Seq<char>>,
    end: LexState,
)
    requires
        lower(t.text) == "jointmassbias"@,
        line_is(st, w, end),
        w.len() == 2,
        numbers(w, 1, 2),
        find_override(c.joint_overrides, w[0], 0) is None,
    ensures
        collision_key(c, t, Ok(st)) == (
            PhysicsView {
                joint_overrides: c.joint_overrides.push(
                    JointOverrideView {
                        bone: w[0],
                        damping: None,
                        rot_damping: None,
                        inertia: None,
                        mass_bias: Some(n(w, 1)),
                    },
                ),
                ..c
            },
            Ok::<LexState,
            ErrorView>(end),
        ),
{
    spelled_for_collision();
    read_to_end(st, w, end);
    let l = c.joint_overrides.push(
        JointOverrideView {
            bone: w[0],
            damping: None,
            rot_damping: None,
            inertia: None,
            mass_bias: None,
        },
    );
    let i = c.joint_overrides.len() as int;
    assert(
        l.update(
            i,
            override_set(l[i], "jointmassbias"@, n(w, 1)),
        ) =~= c.joint_overrides.push(override_set(l[i], "jointmassbias"@, n(w, 1)))
    );
    read_word(st, w, end, 0);
    read_word(st, w, end, 1);
}

/// `jointdamping <bone> <number>` gives a joint a number of its own, and no other.
pub proof fn jointdamping_key(
    c: PhysicsView,
    t: TokenView,
    st: LexState,
    w: Seq<Seq<char>>,
    end: LexState,
)
    requires
        lower(t.text) == "jointdamping"@,
        line_is(st, w, end),
        w.len() == 2,
        numbers(w, 1, 2),
        find_override(c.joint_overrides, w[0], 0) is None,
    ensures
        collision_key(c, t, Ok(st)) == (
            PhysicsView {
                joint_overrides: c.joint_overrides.push(
                    JointOverrideView {
                        bone: w[0],
                        damping: Some(n(w, 1)),
                        rot_damping: None,
                        inertia: None,
                        mass_bias: None,
                    },
                ),
                ..c
            },
            Ok::<LexState,
            ErrorView>(end),
        ),
{
    spelled_for_collision();
    read_to_end(st, w, end);
    let l = c.joint_overrides.push(
        JointOverrideView {
            bone: w[0],
            damping: None,
            rot_damping: None,
            inertia: None,
            mass_bias: None,
        },
    );
    let i = c.joint_overrides.len() as int;
    assert(
        l.update(
            i,
            override_set(l[i], "jointdamping"@, n(w, 1)),
        ) =~= c.joint_overrides.push(override_set(l[i], "jointdamping"@, n(w, 1)))
    );
    read_word(st, w, end, 0);
    read_word(st, w, end, 1);
}

/// `jointrotdamping <bone> <number>` gives a joint a number of its own, and no other.
pub proof fn jointrotdamping_key(
    c: PhysicsView,
    t: TokenView,
    st: LexState,
    w: Seq<Seq<char>>,
    end: LexState,
)
    requires
        lower(t.text) == "jointrotdamping"@,
        line_is(st, w, end),
        w.len() == 2,
        numbers(w, 1, 2),
        find_override(c.joint_overrides, w[0], 0) is None,
    ensures
        collision_key(c, t, Ok(st)) == (
            PhysicsView {
                joint_overrides: c.joint_overrides.push(
                    JointOverrideView {
                        bone: w[0],
                        damping: None,
                        rot_damping: Some(n(w, 1)),
                        inertia: None,
                        mass_bias: None,
                    },
                ),
                ..c
            },
            Ok::<LexState,
            ErrorView>(end),
        ),
{
    spelled_for_collision();
    read_to_end(st, w, end);
    let l = c.joint_overrides.push(
        JointOverrideView {
            bone: w[0],
            damping: None,
            rot_damping: None,
            inertia: None,
            mass_bias: None,
        },
    );
    let i = c.joint_overrides.len() as int;
    assert(
        l.update(
            i,
            override_set(l[i], "jointrotdamping"@, n(w, 1)),
        ) =~= c.joint_overrides.push(override_set(l[i], "jointrotdamping"@, n(w, 1)))
    );
    read_word(st, w, end, 0);
    read_word(st, w, end, 1);
}

/// `jointinertia <bone> <number>` gives a joint a number of its own, and no other.
pub proof fn jointinertia_key(
    c: PhysicsView,
    t: TokenView,
    st: LexState,
    w: Seq<Seq<char>>,
    end: LexState,
)
    requires
        lower(t.text) == "jointinertia"@,
        line_is(st, w, end),
        w.len() == 2,
        numbers(w, 1, 2),
        find_override(c.joint_overrides, w[0], 0) is None,
    ensures
        collision_key(c, t, Ok(st)) == (
            PhysicsView {
                joint_overrides: c.joint_overrides.push(
                    JointOverrideView {
                        bone: w[0],
                        damping: None,
                        rot_damping: None,
                        inertia: Some(n(w, 1)),
                        mass_bias: None,
                    },
                ),
                ..c
            },
            Ok::<LexState,
            ErrorView>(end),
        ),
{
    spelled_for_collision();
    read_to_end(st, w, end);
    let l = c.joint_overrides.push(
        JointOverrideView {
            bone: w[0],
            damping: None,
            rot_damping: None,
            inertia: None,
            mass_bias: None,
        },
    );
    let i = c.joint_overrides.len() as int;
    assert(
        l.update(
            i,
            override_set(l[i], "jointinertia"@, n(w, 1)),
        ) =~= c.joint_overrides.push(override_set(l[i], "jointinertia"@, n(w, 1)))
    );
    read_word(st, w, end, 0);
    read_word(st, w, end, 1);
}

} // verus!
