//! Blocks of a script: what stands in them is obeyed in turn, up to the brace that closes them.
use vstd::prelude::*;

use super::body::{group_models, model_option, model_options, studio};
use super::collision::{collision_key, collision_keys};
use super::dispatch::command;
use super::error::ErrorView;
use super::jiggle::{jiggle_block, jiggle_option, jiggle_options, jiggle_started};
use super::lexer::{next, next_leaves_less, sound, LexState, TokenView};
use super::lines::{line_is, n, numbers, read_to_end, read_word};
use super::lods::{lod, lod_option, lod_options, with_lod};
use super::model::{
    AnimationView, BodyModelView, JiggleBoneView, LodModelView, ModelDescView, PhysicsView,
    ScriptView, WeightEntryView,
};
use super::naming::{names_contents, names_lod};
use super::parse::commands;
use super::read::{any_token, token, went_on, At};
use super::sequence::{
    animation_option, animation_options, sequence_option, sequence_options, SequenceState,
};
use super::settings::{contents_words, families, resolved};
use super::weights::{posweight, weights, with_weight};
use crate::text::lower;

verus! {

/// The lexer behind `n` tokens, on whatever lines they stand.
pub open spec fn behind(st: LexState, n: nat) -> LexState
    decreases n,
{
    if n == 0 {
        st
    } else {
        next(behind(st, (n - 1) as nat), true).1
    }
}

/// The tokens that come next are the words `w`.
pub open spec fn tokens_are(st: LexState, w: Seq<Seq<char>>) -> bool {
    &&& sound(st)
    &&& forall|i: nat|
        i < w.len() ==> (next(#[trigger] behind(st, i), true).0 matches Ok(Some(t)) && t.text
            == w[i as int])
}

proof fn behind_is_sound(st: LexState, i: nat)
    requires
        sound(st),
    ensures
        sound(behind(st, i)),
    decreases i,
{
    if i > 0 {
        behind_is_sound(st, (i - 1) as nat);
        next_leaves_less(behind(st, (i - 1) as nat), true);
    }
}

/// Token `i` is read.
proof fn read_token(st: LexState, w: Seq<Seq<char>>, i: nat)
    requires
        tokens_are(st, w),
        i < w.len(),
    ensures
        ({
            let s: At = Ok::<LexState, ErrorView>(behind(st, i));
            let t: At = Ok::<LexState, ErrorView>(behind(st, i + 1));
            &&& any_token(s).0 matches Some(k) && k.text == w[i as int]
            &&& any_token(s).1 == t
            &&& went_on(t, s)
        }),
{
    behind_is_sound(st, i);
    let a = behind(st, i);
    assert(next(behind(st, i), true).0 is Ok);
    next_leaves_less(a, true);
    assert(behind(st, i + 1) == next(a, true).1);
}

/// How braces are spelled.
proof fn braces()
    ensures
        "{"@ != "}"@,
{
    assert("{"@[0] == '{' && "}"@[0] == '}') by {
        reveal_strlit("{");
        reveal_strlit("}");
    }
}

proof fn names_of_a_row(
    groups: Seq<Seq<Seq<char>>>,
    row: Seq<Seq<char>>,
    st: LexState,
    w: Seq<Seq<char>>,
    i: nat,
    to: nat,
)
    requires
        tokens_are(st, w),
        i <= to <= w.len(),
        forall|k: int| i <= k < to ==> #[trigger] w[k] != "{"@ && w[k] != "}"@,
    ensures
        families(groups.push(row), 2, Ok::<LexState, ErrorView>(behind(st, i))) == families(
            groups.push(row + w.subrange(i as int, to as int)),
            2,
            Ok::<LexState, ErrorView>(behind(st, to)),
        ),
    decreases to - i,
{
    if i < to {
        read_token(st, w, i);
        let x = w[i as int];
        assert(x != "{"@ && x != "}"@);
        assert(groups.push(row).drop_last() =~= groups);
        names_of_a_row(groups, row.push(x), st, w, i + 1, to);
        assert(row.push(x) + w.subrange((i + 1) as int, to as int) =~= row + w.subrange(
            i as int,
            to as int,
        ));
    } else {
        assert(row + w.subrange(i as int, to as int) =~= row);
    }
}

/// Each row of a texture group is what its braces hold, and rows follow each other.
pub proof fn rows_are_what_their_braces_hold(
    groups: Seq<Seq<Seq<char>>>,
    row: Seq<Seq<char>>,
    st: LexState,
)
    requires
        tokens_are(st, seq!["{"@] + row + seq!["}"@]),
        forall|k: int| 0 <= k < row.len() ==> #[trigger] row[k] != "{"@ && row[k] != "}"@,
    ensures
        families(groups, 1, Ok::<LexState, ErrorView>(st)) == families(
            groups.push(row),
            1,
            Ok::<LexState, ErrorView>(behind(st, row.len() + 2)),
        ),
{
    braces();
    let w = seq!["{"@] + row + seq!["}"@];
    let n = row.len();
    read_token(st, w, 0);
    assert forall|k: int| 1 <= k < n + 1 implies #[trigger] w[k] != "{"@ && w[k] != "}"@ by {
        assert(w[k] == row[k - 1]);
    }
    names_of_a_row(groups, Seq::empty(), st, w, 1, n + 1);
    assert(Seq::<Seq<char>>::empty() + w.subrange(1, (n + 1) as int) =~= row);
    read_token(st, w, n + 1);
    assert(behind(st, 0) == st);
}

/// A texture group opens with a brace and ends with the brace that closes it.
pub proof fn groups_open_and_close(groups: Seq<Seq<Seq<char>>>, st: LexState)
    ensures
        tokens_are(st, seq!["{"@]) ==> families(groups, 0, Ok::<LexState, ErrorView>(st))
            == families(groups, 1, Ok::<LexState, ErrorView>(behind(st, 1))),
        tokens_are(st, seq!["}"@]) ==> families(groups, 1, Ok::<LexState, ErrorView>(st)) == (
            groups,
            Ok::<LexState, ErrorView>(behind(st, 1)),
        ),
{
    braces();
    assert(behind(st, 0) == st);
    if tokens_are(st, seq!["{"@]) {
        read_token(st, seq!["{"@], 0);
    }
    if tokens_are(st, seq!["}"@]) {
        read_token(st, seq!["}"@], 0);
    }
}

/// The commands of a script are obeyed one behind another, up to its end.
pub proof fn commands_are_obeyed_in_turn(d: ScriptView, s: At)
    ensures
        ({
            let (t, n) = any_token(s);
            &&& t is None ==> commands(d, s) == (d, n)
            &&& t matches Some(t) ==> {
                let (e, m) = command(d, t, n);
                went_on(m, s) ==> commands(d, s) == commands(e, m)
            }
        }),
{
}

/// In a block, the options of a sequence are obeyed one behind another, up to the closing brace.
pub proof fn sequence_blocks(c: SequenceState, depth: int, s: At)
    requires
        0 < depth < i32::MAX,
    ensures
        ({
            let (t, n) = any_token(s);
            &&& t is None ==> sequence_options(c, depth, s) == (c, n)
            &&& t matches Some(t) ==> {
                let (e, m) = sequence_option(c, t, n);
                &&& t.text != "{"@ && t.text != "}"@ && went_on(m, s) ==> sequence_options(
                    c,
                    depth,
                    s,
                ) == sequence_options(e, depth, m)
                &&& t.text == "}"@ && depth == 1 ==> sequence_options(c, depth, s) == (c, n)
                &&& t.text == "}"@ && depth > 1 && went_on(n, s) ==> sequence_options(c, depth, s)
                    == sequence_options(c, depth - 1, n)
                &&& t.text == "{"@ && went_on(n, s) ==> sequence_options(c, depth, s)
                    == sequence_options(c, depth + 1, n)
            }
        }),
{
    braces();
}

/// In a block, the options of an animation are obeyed one behind another, up to the closing brace.
pub proof fn animation_blocks(c: AnimationView, depth: int, s: At)
    requires
        0 < depth < i32::MAX,
    ensures
        ({
            let (t, n) = any_token(s);
            &&& t is None ==> animation_options(c, depth, s) == (c, n)
            &&& t matches Some(t) ==> {
                let (e, m) = animation_option(c, t, n);
                &&& t.text != "{"@ && t.text != "}"@ && went_on(m, s) ==> animation_options(
                    c,
                    depth,
                    s,
                ) == animation_options(e, depth, m)
                &&& t.text == "}"@ && depth == 1 ==> animation_options(c, depth, s) == (c, n)
                &&& t.text == "{"@ && went_on(n, s) ==> animation_options(c, depth, s)
                    == animation_options(c, depth + 1, n)
            }
        }),
{
    braces();
}

/// In a block, the options of a model are obeyed one behind another, up to the closing brace.
pub proof fn model_blocks(d: ScriptView, b: BodyModelView, depth: int, s: At)
    requires
        0 < depth < i32::MAX,
    ensures
        ({
            let (t, n) = any_token(s);
            &&& t is None ==> model_options(d, b, depth, s) == (d, b, n)
            &&& t matches Some(t) ==> {
                let (e, c, m) = model_option(d, b, depth, t, n);
                &&& t.text != "{"@ && t.text != "}"@ && went_on(m, s) ==> model_options(
                    d,
                    b,
                    depth,
                    s,
                ) == model_options(e, c, depth, m)
                &&& t.text == "}"@ && depth == 1 ==> model_options(d, b, depth, s) == (d, b, n)
                &&& t.text == "{"@ && went_on(n, s) ==> model_options(d, b, depth, s)
                    == model_options(d, b, depth + 1, n)
            }
        }),
{
    braces();
}

/// In a block, the options of a distance are obeyed one behind another, up to the closing brace.
pub proof fn distance_blocks(d: ScriptView, l: LodModelView, depth: int, s: At)
    requires
        0 < depth < i32::MAX,
    ensures
        ({
            let (t, n) = any_token(s);
            &&& t is None ==> lod_options(d, l, depth, s) == (d, l, n)
            &&& t matches Some(t) ==> {
                let (e, c, m) = lod_option(d, l, t, n);
                &&& t.text != "{"@ && t.text != "}"@ && went_on(m, s) ==> lod_options(
                    d,
                    l,
                    depth,
                    s,
                ) == lod_options(e, c, depth, m)
                &&& t.text == "}"@ && depth == 1 && went_on(n, s) ==> lod_options(d, l, depth, s)
                    == (d, l, n)
                &&& t.text == "{"@ && went_on(n, s) ==> lod_options(d, l, depth, s) == lod_options(
                    d,
                    l,
                    depth + 1,
                    n,
                )
            }
        }),
{
    braces();
    reveal_with_fuel(lod_options, 2);
}

/// In a block, the keys of a collision model are obeyed one behind another, up to the closing brace.
pub proof fn collision_blocks(p: PhysicsView, depth: int, s: At)
    requires
        0 < depth < i32::MAX,
    ensures
        ({
            let (t, n) = any_token(s);
            &&& t is None ==> collision_keys(p, depth, s) == (p, n)
            &&& t matches Some(t) ==> {
                let (e, m) = collision_key(p, t, n);
                &&& t.text != "{"@ && t.text != "}"@ && went_on(m, s) ==> collision_keys(
                    p,
                    depth,
                    s,
                ) == collision_keys(e, depth, m)
                &&& t.text == "}"@ && depth == 1 && went_on(n, s) ==> collision_keys(p, depth, s)
                    == (p, n)
                &&& t.text == "{"@ && went_on(n, s) ==> collision_keys(p, depth, s)
                    == collision_keys(p, depth + 1, n)
            }
        }),
{
    braces();
    reveal_with_fuel(collision_keys, 2);
}

/// In a weight list, the weight of each bone is added behind those before it, up to the closing
/// brace.
pub proof fn weight_blocks(name: Seq<char>, bones: Seq<WeightEntryView>, depth: int, s: At)
    requires
        0 < depth < i32::MAX,
    ensures
        ({
            let (t, n) = any_token(s);
            &&& t is None ==> weights(name, bones, depth, s) == (bones, n)
            &&& t matches Some(t) ==> {
                let (e, m) = with_weight(name, bones, t, n);
                let (f, o) = posweight(name, bones, t, n);
                &&& t.text != "{"@ && t.text != "}"@ && lower(t.text) != lower("posweight"@)
                    && went_on(m, s) ==> weights(name, bones, depth, s) == weights(
                    name,
                    e,
                    depth,
                    m,
                )
                &&& t.text != "{"@ && t.text != "}"@ && lower(t.text) == lower("posweight"@)
                    && went_on(o, s) ==> weights(name, bones, depth, s) == weights(
                    name,
                    f,
                    depth,
                    o,
                )
                &&& t.text == "}"@ && depth == 1 ==> weights(name, bones, depth, s) == (bones, n)
            }
        }),
{
    braces();
}

/// In a block of a jiggle bone, keys are obeyed one behind another, up to the closing brace.
pub proof fn jiggle_blocks(jb: JiggleBoneView, depth: int, s: At)
    requires
        1 < depth < i32::MAX,
    ensures
        ({
            let (t, n) = any_token(s);
            &&& t matches Some(t) ==> {
                let (e, m) = jiggle_option(jb, lower(t.text), n);
                &&& t.text != "{"@ && t.text != "}"@ && went_on(m, s) ==> jiggle_options(
                    jb,
                    depth,
                    s,
                ) == jiggle_options(e, depth, m)
                &&& t.text == "}"@ && depth == 2 && went_on(n, s) ==> jiggle_options(jb, depth, s)
                    == (jb, 1int, n)
            }
        }),
{
    braces();
    reveal_with_fuel(jiggle_options, 2);
}

/// A block of a jiggle bone is of the kind that the word before its brace names.
pub proof fn jiggle_kinds(d: ScriptView, jb: JiggleBoneView, depth: int, s: At)
    requires
        0 < depth < i32::MAX,
    ensures
        ({
            let (t, n) = any_token(s);
            &&& t matches Some(t) ==> {
                &&& t.text != "{"@ && t.text != "}"@ && went_on(n, s) ==> jiggle_block(
                    d,
                    jb,
                    depth,
                    s,
                ) == jiggle_block(
                    ScriptView { last_block_name: Some(lower(t.text)), ..d },
                    jb,
                    depth,
                    n,
                )
                &&& t.text == "}"@ && depth == 1 && went_on(n, s) ==> jiggle_block(d, jb, depth, s)
                    == (d, jb, n)
                &&& d.last_block_name matches Some(name) ==> {
                    let (e, inner, m) = jiggle_options(jiggle_started(jb, name), depth + 1, n);
                    t.text == "{"@ && went_on(m, s) ==> jiggle_block(d, jb, depth, s)
                        == jiggle_block(d, e, inner, m)
                }
            }
        }),
{
    braces();
    reveal_with_fuel(jiggle_block, 2);
}

/// In a body group, each `studio` adds its model behind those before it, up to the closing brace.
pub proof fn body_groups(d: ScriptView, models: Seq<BodyModelView>, s: At)
    ensures
        ({
            let (t, n) = token(s, true);
            let (b, e, m) = studio(d, None, n);
            &&& t.text == "}"@ ==> group_models(d, models, s) == (d, models, n)
            &&& t.text == "{"@ && went_on(n, s) ==> group_models(d, models, s) == group_models(
                d,
                models,
                n,
            )
            &&& lower(t.text) == "studio"@ && went_on(m, s) ==> group_models(d, models, s)
                == group_models(e, models.push(b), m)
        }),
{
    braces();
    assert("studio"@.len() == 6 && "{"@.len() == 1 && "}"@.len() == 1) by {
        reveal_strlit("studio");
        reveal_strlit("{");
        reveal_strlit("}");
    }
    assert(lower(token(s, true).0.text).len() == token(s, true).0.text.len());
}

/// `studio <file>` makes a model of that file.
pub proof fn studio_of_a_body_group(
    d: ScriptView,
    name: Option<Seq<char>>,
    st: LexState,
    w: Seq<Seq<char>>,
    end: LexState,
)
    requires
        line_is(st, w, end),
        w.len() == 1,
    ensures
        studio(d, name, Ok(st)) == (
            BodyModelView {
                smd: resolved(d, w[0]),
                name,
                lods: Seq::empty(),
                eyeballs: Seq::empty(),
                flexes: Seq::empty(),
            },
            ScriptView { referenced_files: d.referenced_files.push(resolved(d, w[0])), ..d },
            Ok::<LexState, ErrorView>(end),
        ),
{
    read_to_end(st, w, end);
    read_word(st, w, end, 0);
}

/// `$lod <distance> {` makes a distance with that switching point and what its block says.
pub proof fn lod_block(
    d: ScriptView,
    t: TokenView,
    st: LexState,
    w: Seq<Seq<char>>,
    end: LexState,
    e: ScriptView,
    l: LodModelView,
    s: At,
)
    requires
        lower(t.text) == "$lod"@,
        line_is(st, w, end),
        w.len() == 1,
        numbers(w, 0, 1),
        token(Ok::<LexState, ErrorView>(end), true).0.text == "{"@,
        lod_options(
            d,
            LodModelView {
                smd: None,
                switch_point: Some(n(w, 0)),
                bone_tree_collapse: Seq::empty(),
                replace_bone: Seq::empty(),
                no_facial: false,
            },
            1,
            token(Ok::<LexState, ErrorView>(end), true).1,
        ) == (e, l, s),
    ensures
        command(d, t, Ok(st)) == (with_lod(e, l), s),
{
    names_lod(d, t, Ok(st));
    read_to_end(st, w, end);
    read_word(st, w, end, 0);
}

/// `$contents` sets and clears what its word names.
pub proof fn contents_line(
    d: ScriptView,
    t: TokenView,
    st: LexState,
    w: Seq<Seq<char>>,
    end: LexState,
)
    requires
        lower(t.text) == "$contents"@,
        line_is(st, w, end),
        w.len() == 1,
    ensures
        ({
            let (e, s) = command(d, t, Ok(st));
            let c = d.desc.contents;
            &&& s == Ok::<LexState, ErrorView>(end)
            &&& e == (ScriptView {
                desc: ModelDescView { contents: e.desc.contents, ..d.desc },
                ..d
            })
            &&& lower(w[0]) == "solid"@ ==> e.desc.contents == c | 1
            &&& lower(w[0]) == "grate"@ ==> e.desc.contents == (c | 8) & !1i32
            &&& lower(w[0]) == "ladder"@ ==> e.desc.contents == c | 16
            &&& lower(w[0]) == "monster"@ ==> e.desc.contents == c | 32
            &&& lower(w[0]) == "notsolid"@ ==> e.desc.contents == c & !1i32
        }),
{
    names_contents(d, t, Ok(st));
    read_to_end(st, w, end);
    read_word(st, w, end, 0);
    reveal_with_fuel(contents_words, 2);
    assert("solid"@.len() == 5 && "solid"@[0] == 's') by {
        reveal_strlit("solid");
    }
    assert("grate"@.len() == 5 && "grate"@[0] == 'g') by {
        reveal_strlit("grate");
    }
    assert("ladder"@.len() == 6) by {
        reveal_strlit("ladder");
    }
    assert("monster"@.len() == 7) by {
        reveal_strlit("monster");
    }
    assert("notsolid"@.len() == 8) by {
        reveal_strlit("notsolid");
    }
    assert(0i32 | 1 == 1 && 0i32 | 8 == 8 && 0i32 | 16 == 16 && 0i32 | 32 == 32) by (bit_vector);
    let c = d.desc.contents;
    assert((c | 1) & !0i32 == c | 1 && (c | 16) & !0i32 == c | 16 && (c | 32) & !0i32 == c | 32
        && (c | 0) == c) by (bit_vector);
}

} // verus!
