//! Meshes for distances.
use vstd::prelude::*;

use super::error::QcError;
use super::lexer::{left, Lexer, Token, TokenView};
use super::model::{
    BodyModel, BodyModelView, BodyPartView, LodModel, LodModelView, ModelDescView, Pair, Script,
    ScriptView,
};
use super::read::{
    any_token, around, deeper, error_for, f, fail_at, given_back, into, left_at, line_skipped,
    more, num, obeyed, out_of, put_around, read_word, shallower, skip_rest_of_line, tok, token,
    went_on, word, At,
};
use super::settings::{read_pair, resolve_src, resolved, two_words};
use crate::seqs::{viewed, viewing};
use crate::text::{ends, finishes, lower, lowered, same, same_but_case};

verus! {

broadcast use viewing;

/// The name of a mesh with an extension.
pub open spec fn with_smd_ext(name: Seq<char>) -> Seq<char> {
    let low = lower(name);
    if ends(low, ".smd"@) || ends(low, ".dmx"@) || ends(low, ".vrm"@) {
        name
    } else {
        name + ".smd"@
    }
}

/// The name of a mesh with an extension.
pub fn ensure_smd_ext(name: &str) -> (r: String)
    ensures
        r@ == with_smd_ext(name@),
{
    let low: String = lowered(name);
    let mut out: String = name.to_owned();
    if !(finishes(low.as_str(), ".smd") || finishes(low.as_str(), ".dmx") || finishes(
        low.as_str(),
        ".vrm",
    )) {
        out.push_str(".smd");
    }
    out
}

/// A mesh that takes the place of another.
pub open spec fn replacemodel(d: ScriptView, l: LodModelView, s: At) -> (
    ScriptView,
    LodModelView,
    At,
) {
    let (_, s) = word(s);
    let (to, s) = word(s);
    let smd = resolved(d, with_smd_ext(to));
    let s = if more(s) {
        let (t, s) = token(s, false);
        if lower(t.text) == lower("reverse"@) {
            s
        } else {
            fail_at(s, t, around("replacemodel 第 3 个参数只能是 reverse，得到 "@, t.text, ""@))
        }
    } else {
        s
    };
    (
        ScriptView { referenced_files: d.referenced_files.push(smd), ..d },
        LodModelView { smd: Some(smd), ..l },
        s,
    )
}

/// One option of a mesh for a distance.
pub open spec fn lod_option(d: ScriptView, l: LodModelView, t: TokenView, s: At) -> (
    ScriptView,
    LodModelView,
    At,
) {
    let low = lower(t.text);
    if low == "replacemodel"@ {
        replacemodel(d, l, s)
    } else if low == "bonetreecollapse"@ {
        let (b, s) = word(s);
        (d, LodModelView { bone_tree_collapse: l.bone_tree_collapse.push(b), ..l }, s)
    } else if low == "replacebone"@ {
        let (p, s) = two_words(s);
        (d, LodModelView { replace_bone: l.replace_bone.push(p), ..l }, s)
    } else if low == "nofacial"@ {
        (d, LodModelView { no_facial: true, ..l }, s)
    } else if low == "facial"@ {
        (d, LodModelView { no_facial: false, ..l }, s)
    } else if low == "replacematerial"@ || low == "removemesh"@ || low == "removemodel"@ || low
        == "reverse"@ {
        (d, l, line_skipped(s))
    } else {
        (d, l, fail_at(s, t, around("未知的 $lod 选项 "@, low, ""@)))
    }
}

/// Reads a mesh that takes the place of another.
fn read_replacemodel(lex: &mut Lexer, d: &mut Script, lod: &mut LodModel) -> (r: Result<
    (),
    QcError,
>)
    requires
        old(lex).wf(),
    ensures
        final(lex).wf(),
        ({
            let (e, l, s) = replacemodel(old(d)@, old(lod)@, Ok(old(lex)@));
            obeyed(r, final(lex)@, (final(d)@, final(lod)@), ((e, l), s))
        }),
        left(final(lex)@) <= left(old(lex)@),
{
    match read_word(lex) {
        Ok(_) => {},
        Err(e) => {
            return Err(e);
        },
    }
    let to: String = match read_word(lex) {
        Ok(v) => v,
        Err(e) => {
            return Err(e);
        },
    };
    let smd: String = resolve_src(d, ensure_smd_ext(to.as_str()).as_str());
    d.referenced_files.push(smd.clone());
    lod.smd = Some(smd);
    if lex.token_available() {
        let t: Token = match tok(lex, false) {
            Ok(v) => v,
            Err(e) => {
                return Err(e);
            },
        };
        if !same_but_case(t.text.as_str(), "reverse") {
            return Err(
                error_for(
                    &t,
                    put_around("replacemodel 第 3 个参数只能是 reverse，得到 ", t.text.as_str(), ""),
                ),
            );
        }
    }
    Ok(())
}

/// Reads one option of a mesh for a distance.
fn read_lod_option(lex: &mut Lexer, d: &mut Script, lod: &mut LodModel, t: &Token) -> (r: Result<
    (),
    QcError,
>)
    requires
        old(lex).wf(),
    ensures
        final(lex).wf(),
        ({
            let (e, l, s) = lod_option(old(d)@, old(lod)@, t@, Ok(old(lex)@));
            obeyed(r, final(lex)@, (final(d)@, final(lod)@), ((e, l), s))
        }),
        left(final(lex)@) <= left(old(lex)@),
{
    let low: String = lowered(t.text.as_str());
    if same(low.as_str(), "replacemodel") {
        read_replacemodel(lex, d, lod)
    } else if same(low.as_str(), "bonetreecollapse") {
        let b: String = match read_word(lex) {
            Ok(v) => v,
            Err(e) => {
                return Err(e);
            },
        };
        lod.bone_tree_collapse.push(b);
        Ok(())
    } else if same(low.as_str(), "replacebone") {
        let p: Pair = match read_pair(lex) {
            Ok(v) => v,
            Err(e) => {
                return Err(e);
            },
        };
        lod.replace_bone.push(p);
        Ok(())
    } else if same(low.as_str(), "nofacial") {
        lod.no_facial = true;
        Ok(())
    } else if same(low.as_str(), "facial") {
        lod.no_facial = false;
        Ok(())
    } else if same(low.as_str(), "replacematerial") || same(low.as_str(), "removemesh") || same(
        low.as_str(),
        "removemodel",
    ) || same(low.as_str(), "reverse") {
        skip_rest_of_line(lex);
        Ok(())
    } else {
        Err(error_for(t, put_around("未知的 $lod 选项 ", low.as_str(), "")))
    }
}

/// The options of a mesh for a distance, from the given depth on.
pub open spec fn lod_options(d: ScriptView, l: LodModelView, depth: int, s: At) -> (
    ScriptView,
    LodModelView,
    At,
)
    decreases left_at(s),
{
    if depth <= 0 {
        (d, l, s)
    } else {
        let (t, n) = any_token(s);
        match t {
            None => (d, l, n),
            Some(t) => {
                let inner = if t.text == "{"@ {
                    deeper(depth)
                } else if t.text == "}"@ {
                    shallower(depth)
                } else {
                    depth
                };
                let (d, l, n) = if t.text == "{"@ || t.text == "}"@ {
                    (d, l, n)
                } else {
                    lod_option(d, l, t, n)
                };
                if went_on(n, s) {
                    lod_options(d, l, inner, n)
                } else {
                    (d, l, n)
                }
            },
        }
    }
}

/// Meshes, each with one more for a distance.
pub open spec fn with_lod_each(models: Seq<BodyModelView>, l: LodModelView) -> Seq<BodyModelView> {
    Seq::new(models.len(), |i: int| BodyModelView { lods: models[i].lods.push(l), ..models[i] })
}

/// A mesh for a distance added: to the part of the body that was given last, or kept until there
/// is one.
pub open spec fn with_lod(d: ScriptView, l: LodModelView) -> ScriptView {
    let parts = d.desc.bodyparts;
    if parts.len() == 0 {
        ScriptView { pending_lods: d.pending_lods.push(l), ..d }
    } else {
        let part = parts.last();
        let part = BodyPartView { models: with_lod_each(part.models, l), ..part };
        ScriptView {
            desc: ModelDescView { bodyparts: parts.update(parts.len() - 1, part), ..d.desc },
            ..d
        }
    }
}

/// A mesh for a distance. Without a block there is none.
pub open spec fn lod(d: ScriptView, forced: Option<u32>, s: At) -> (ScriptView, At) {
    let (switch, s) = match forced {
        Some(v) => (v, s),
        None => num(s),
    };
    let (t, s) = token(s, true);
    if t.text != "{"@ {
        (d, given_back(s, t))
    } else {
        let (d, l, s) = lod_options(
            d,
            LodModelView {
                smd: None,
                switch_point: Some(switch),
                bone_tree_collapse: Seq::empty(),
                replace_bone: Seq::empty(),
                no_facial: false,
            },
            1,
            s,
        );
        (with_lod(d, l), s)
    }
}

/// Reads the options of a mesh for a distance.
fn read_lod_options(lex: &mut Lexer, d: &mut Script, lod: &mut LodModel) -> (r: Result<
    (),
    QcError,
>)
    requires
        old(lex).wf(),
    ensures
        final(lex).wf(),
        ({
            let (e, l, s) = lod_options(old(d)@, old(lod)@, 1, Ok(old(lex)@));
            obeyed(r, final(lex)@, (final(d)@, final(lod)@), ((e, l), s))
        }),
        left(final(lex)@) <= left(old(lex)@),
{
    let mut depth: i32 = 1;
    while depth > 0
        invariant
            lex.wf(),
            left(lex@) <= left(old(lex)@),
            lod_options(d@, lod@, depth as int, Ok(lex@)) == lod_options(
                old(d)@,
                old(lod)@,
                1,
                Ok(old(lex)@),
            ),
        decreases left(lex@),
    {
        let next: Option<Token> = match lex.next_token(true) {
            Ok(v) => v,
            Err(e) => {
                return Err(e);
            },
        };
        let t: Token = match next {
            Some(t) => t,
            None => {
                return Ok(());
            },
        };
        proof {
            reveal_strlit("{");
            reveal_strlit("}");
            assert("{"@[0] != "}"@[0]);
        }
        if same(t.text.as_str(), "{") {
            depth = into(depth);
        } else if same(t.text.as_str(), "}") {
            depth = out_of(depth);
        } else {
            match read_lod_option(lex, d, lod, &t) {
                Ok(_) => {},
                Err(e) => {
                    return Err(e);
                },
            }
        }
    }
    Ok(())
}

/// Adds a mesh for a distance to each mesh.
fn add_lod_each(models: &mut Vec<BodyModel>, lod: &LodModel)
    ensures
        viewed(final(models)@) == with_lod_each(viewed(old(models)@), lod@),
{
    let ghost start = viewed(models@);
    let n: usize = models.len();
    let mut k: usize = 0;
    while k < n
        invariant
            n == models@.len() == start.len(),
            k <= n,
            start == viewed(old(models)@),
            forall|j: int|
                0 <= j < n ==> #[trigger] models@[j]@ == if j < k {
                    with_lod_each(start, lod@)[j]
                } else {
                    start[j]
                },
        decreases n - k,
    {
        let ghost before = models@;
        assert(before[k as int]@ == start[k as int]);
        models[k].lods.push(lod.copy());
        assert(models@[k as int]@ == with_lod_each(start, lod@)[k as int]);
        k = k + 1;
    }
    assert(viewed(models@) =~= with_lod_each(start, lod@));
}

/// Adds a mesh for a distance.
fn add_lod(d: &mut Script, lod: LodModel)
    ensures
        final(d)@ == with_lod(old(d)@, lod@),
{
    let n: usize = d.desc.bodyparts.len();
    if n == 0 {
        d.pending_lods.push(lod);
    } else {
        let ghost before = viewed(d.desc.bodyparts@);
        add_lod_each(&mut d.desc.bodyparts[n - 1].models, &lod);
        assert(viewed(d.desc.bodyparts@) =~= before.update(
            n - 1,
            BodyPartView {
                models: with_lod_each(before[n - 1].models, lod@),
                ..before[n - 1]
            },
        ));
    }
}

/// Adds a mesh for a distance.
pub fn cmd_lod(lex: &mut Lexer, d: &mut Script, forced: Option<u32>) -> (r: Result<(), QcError>)
    requires
        old(lex).wf(),
    ensures
        final(lex).wf(),
        obeyed(r, final(lex)@, final(d)@, lod(old(d)@, forced, Ok(old(lex)@))),
        left(final(lex)@) <= left(old(lex)@),
{
    let switch: u32 = match forced {
        Some(v) => v,
        None => match f(lex) {
            Ok(v) => v,
            Err(e) => {
                return Err(e);
            },
        },
    };
    let ghost before = lex@;
    let t: Token = match tok(lex, true) {
        Ok(v) => v,
        Err(e) => {
            return Err(e);
        },
    };
    if !same(t.text.as_str(), "{") {
        proof {
            super::lexer::next_leaves_less(before, true);
        }
        lex.unget(t);
        return Ok(());
    }
    let mut lod: LodModel = LodModel {
        smd: None,
        switch_point: Some(switch),
        bone_tree_collapse: Vec::new(),
        replace_bone: Vec::new(),
        no_facial: false,
    };
    match read_lod_options(lex, d, &mut lod) {
        Ok(_) => {},
        Err(e) => {
            return Err(e);
        },
    }
    add_lod(d, lod);
    Ok(())
}

} // verus!
