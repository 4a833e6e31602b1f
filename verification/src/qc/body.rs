//! Commands that describe the body: its parts, their meshes, and what moves in a face.
use vstd::prelude::*;

use super::error::{ErrorView, QcError};
use super::flexrule::{parse_flexrule, rule, FlexRule, Names};
use super::lexer::{find_name, left, name_index, texts, LexState, Lexer, Token, TokenView};
use super::model::{
    BodyModel, BodyModelView, BodyPart, BodyPartView, Eyeball, EyeballLid, EyeballLidView,
    EyeballView, Flex, FlexController, FlexControllerView, FlexView, LidEntry, LidEntryView,
    ModelDescView, Mouth, MouthView, Script, ScriptView, Vector,
};
use super::read::{
    around, block_token, deeper, error_for, f, fail_at, fail_here, gave, gave_value, given_back,
    i, int_on, into, left_at, line_skipped, more, num, obeyed, out_of, put_around, read_in_block,
    read_word, shallower, skip_rest_of_line, tok, token, v3, vector, went_on, word, At,
};
use super::settings::{resolve_src, resolved};
use crate::arith::{over, quotient};
use crate::single::{are_equal, equal, ONE};
use crate::seqs::{viewed, viewed_if, viewing};
use crate::text::{cut_first, lower, lowered, same, same_but_case};

verus! {

broadcast use viewing;

/// What a step of the choice in the next part of the body counts for.
pub open spec fn next_base(parts: Seq<BodyPartView>) -> i32 {
    if parts.len() == 0 {
        1i32
    } else {
        let models = parts.last().models.len();
        parts.last().base.wrapping_mul(
            (if models > 1 {
                models
            } else {
                1nat
            }) as i32,
        )
    }
}

/// What a step of the choice in the next part of the body counts for. It starts over past the
/// largest number.
pub fn next_bodypart_base(parts: &Vec<BodyPart>) -> (r: i32)
    ensures
        r == next_base(viewed(parts@)),
{
    let n: usize = parts.len();
    if n == 0 {
        1
    } else {
        assert(viewed(parts@).last() == parts@[n - 1]@);
        let models: usize = parts[n - 1].models.len();
        let count: usize = if models > 1 {
            models
        } else {
            1
        };
        parts[n - 1].base.wrapping_mul(
            #[verifier::truncate]
            (count as i32),
        )
    }
}

/// The options of a mesh, which change nothing. A bracket is left for what follows.
pub open spec fn studio_options(s: At) -> At
    decreases left_at(s),
{
    if !more(s) {
        s
    } else {
        let (t, n) = token(s, false);
        let low = lower(t.text);
        if low == "{"@ {
            given_back(n, t)
        } else {
            let n = if low == "reverse"@ {
                n
            } else if low == "scale"@ {
                num(n).1
            } else if low == "faces"@ || low == "bias"@ {
                word(n).1
            } else {
                fail_at(n, t, around("未知的 studio 选项 "@, low, ""@))
            };
            if went_on(n, s) {
                studio_options(n)
            } else {
                n
            }
        }
    }
}

/// Reads the options of a mesh.
fn read_studio_options(lex: &mut Lexer) -> (r: Result<(), QcError>)
    requires
        old(lex).wf(),
    ensures
        final(lex).wf(),
        obeyed(r, final(lex)@, (), ((), studio_options(Ok(old(lex)@)))),
        left(final(lex)@) <= left(old(lex)@),
{
    while lex.token_available()
        invariant
            lex.wf(),
            left(lex@) <= left(old(lex)@),
            studio_options(Ok(lex@)) == studio_options(Ok(old(lex)@)),
        decreases left(lex@),
    {
        let ghost before = lex@;
        let t: Token = match tok(lex, false) {
            Ok(v) => v,
            Err(e) => {
                return Err(e);
            },
        };
        let low: String = lowered(t.text.as_str());
        proof {
            reveal_strlit("{");
            reveal_strlit("reverse");
            reveal_strlit("scale");
            reveal_strlit("faces");
            reveal_strlit("bias");
        }
        if same(low.as_str(), "{") {
            proof {
                super::lexer::next_leaves_less(before, false);
            }
            lex.unget(t);
            return Ok(());
        } else if same(low.as_str(), "reverse") {
        } else if same(low.as_str(), "scale") {
            match f(lex) {
                Ok(_) => {},
                Err(e) => {
                    return Err(e);
                },
            }
        } else if same(low.as_str(), "faces") || same(low.as_str(), "bias") {
            match read_word(lex) {
                Ok(_) => {},
                Err(e) => {
                    return Err(e);
                },
            }
        } else {
            return Err(error_for(&t, put_around("未知的 studio 选项 ", low.as_str(), "")));
        }
    }
    Ok(())
}

/// A mesh, and the script that knows of its file.
pub open spec fn studio(d: ScriptView, name: Option<Seq<char>>, s: At) -> (
    BodyModelView,
    ScriptView,
    At,
) {
    let (t, s) = word(s);
    let s = studio_options(s);
    let smd = resolved(d, t);
    (
        BodyModelView {
            smd,
            name,
            lods: Seq::empty(),
            eyeballs: Seq::empty(),
            flexes: Seq::empty(),
        },
        ScriptView { referenced_files: d.referenced_files.push(smd), ..d },
        s,
    )
}

/// A read of a part came to `v`, `e` and `s`.
pub open spec fn gave_part<T: View>(
    r: Result<T, QcError>,
    lex: LexState,
    d: ScriptView,
    v: T::V,
    e: ScriptView,
    s: At,
) -> bool {
    match r {
        Ok(x) => x@ == v && d == e && s == Ok::<LexState, ErrorView>(lex),
        Err(x) => s == Err::<LexState, ErrorView>(x@),
    }
}

/// Reads a mesh.
fn option_studio(lex: &mut Lexer, d: &mut Script, name: Option<String>) -> (r: Result<
    BodyModel,
    QcError,
>)
    requires
        old(lex).wf(),
    ensures
        final(lex).wf(),
        ({
            let (m, e, s) = studio(old(d)@, viewed_if(name), Ok(old(lex)@));
            gave_part(r, final(lex)@, final(d)@, m, e, s)
        }),
        left(final(lex)@) <= left(old(lex)@),
        r is Ok ==> left(final(lex)@) < left(old(lex)@),
{
    let t: String = match read_word(lex) {
        Ok(v) => v,
        Err(e) => {
            return Err(e);
        },
    };
    match read_studio_options(lex) {
        Ok(_) => {},
        Err(e) => {
            return Err(e);
        },
    }
    let smd: String = resolve_src(d, t.as_str());
    d.referenced_files.push(smd.clone());
    Ok(
        BodyModel {
            smd,
            name,
            lods: Vec::new(),
            eyeballs: Vec::new(),
            flexes: Vec::new(),
        },
    )
}

/// A part of the body added.
pub open spec fn with_part(d: ScriptView, part: BodyPartView) -> ScriptView {
    ScriptView {
        desc: ModelDescView { bodyparts: d.desc.bodyparts.push(part), ..d.desc },
        ..d
    }
}

/// A part of the body with one mesh.
pub open spec fn body(d: ScriptView, s: At) -> (ScriptView, At) {
    let (name, s) = word(s);
    let (m, e, s) = studio(d, None, s);
    (with_part(e, BodyPartView { name, base: next_base(d.desc.bodyparts), models: seq![m] }), s)
}

/// Adds a part of the body with one mesh.
pub fn cmd_body(lex: &mut Lexer, d: &mut Script) -> (r: Result<(), QcError>)
    requires
        old(lex).wf(),
    ensures
        final(lex).wf(),
        obeyed(r, final(lex)@, final(d)@, body(old(d)@, Ok(old(lex)@))),
        left(final(lex)@) <= left(old(lex)@),
{
    let name: String = match read_word(lex) {
        Ok(v) => v,
        Err(e) => {
            return Err(e);
        },
    };
    let base: i32 = next_bodypart_base(&d.desc.bodyparts);
    let m: BodyModel = match option_studio(lex, d, None) {
        Ok(v) => v,
        Err(e) => {
            return Err(e);
        },
    };
    let mut models: Vec<BodyModel> = Vec::new();
    models.push(m);
    assert(viewed(models@) =~= seq![m@]);
    d.desc.bodyparts.push(BodyPart { name, base, models });
    Ok(())
}

/// The meshes of a part of the body.
pub open spec fn group_models(d: ScriptView, models: Seq<BodyModelView>, s: At) -> (
    ScriptView,
    Seq<BodyModelView>,
    At,
)
    decreases left_at(s),
{
    let (t, n) = token(s, true);
    if t.text == "}"@ {
        (d, models, n)
    } else {
        let low = lower(t.text);
        let (e, list, n) = if t.text == "{"@ {
            (d, models, n)
        } else if low == "studio"@ {
            let (m, e, n) = studio(d, None, n);
            (e, models.push(m), n)
        } else if low == "blank"@ {
            (
                d,
                models,
                fail_at(
                    n,
                    t,
                    "`blank` bodygroup 成员：mdlc 的 BodyModel 必须有 SMD，暂不支持 blank"@,
                ),
            )
        } else {
            (d, models, fail_at(n, t, around("未知的 $bodygroup 选项 "@, low, ""@)))
        };
        if went_on(n, s) {
            group_models(e, list, n)
        } else {
            (e, list, n)
        }
    }
}

/// A part of the body with a choice of meshes.
pub open spec fn bodygroup(d: ScriptView, s: At) -> (ScriptView, At) {
    let (name, s) = word(s);
    let (e, models, s) = group_models(d, Seq::empty(), s);
    (with_part(e, BodyPartView { name, base: next_base(d.desc.bodyparts), models }), s)
}

/// Reads the meshes of a part of the body.
fn read_group(lex: &mut Lexer, d: &mut Script) -> (r: Result<Vec<BodyModel>, QcError>)
    requires
        old(lex).wf(),
    ensures
        final(lex).wf(),
        ({
            let (e, models, s) = group_models(old(d)@, Seq::empty(), Ok(old(lex)@));
            match r {
                Ok(x) => viewed(x@) == models && final(d)@ == e && s == Ok::<LexState, ErrorView>(
                    final(lex)@,
                ),
                Err(x) => s == Err::<LexState, ErrorView>(x@),
            }
        }),
        left(final(lex)@) <= left(old(lex)@),
{
    let mut models: Vec<BodyModel> = Vec::new();
    loop
        invariant
            lex.wf(),
            left(lex@) <= left(old(lex)@),
            group_models(d@, viewed(models@), Ok(lex@)) == group_models(
                old(d)@,
                Seq::empty(),
                Ok(old(lex)@),
            ),
        decreases left(lex@),
    {
        let t: Token = match tok(lex, true) {
            Ok(v) => v,
            Err(e) => {
                return Err(e);
            },
        };
        proof {
            reveal_strlit("{");
            reveal_strlit("}");
            assert("{"@[0] != "}"@[0]);
        }
        if same(t.text.as_str(), "{") {
            continue;
        }
        if same(t.text.as_str(), "}") {
            return Ok(models);
        }
        let low: String = lowered(t.text.as_str());
        if same(low.as_str(), "studio") {
            let m: BodyModel = match option_studio(lex, d, None) {
                Ok(v) => v,
                Err(e) => {
                    return Err(e);
                },
            };
            models.push(m);
        } else if same(low.as_str(), "blank") {
            return Err(
                error_for(
                    &t,
                    "`blank` bodygroup 成员：mdlc 的 BodyModel 必须有 SMD，暂不支持 blank".to_owned(),
                ),
            );
        } else {
            return Err(error_for(&t, put_around("未知的 $bodygroup 选项 ", low.as_str(), "")));
        }
    }
}

/// Adds a part of the body with a choice of meshes.
pub fn cmd_bodygroup(lex: &mut Lexer, d: &mut Script) -> (r: Result<(), QcError>)
    requires
        old(lex).wf(),
    ensures
        final(lex).wf(),
        obeyed(r, final(lex)@, final(d)@, bodygroup(old(d)@, Ok(old(lex)@))),
        left(final(lex)@) <= left(old(lex)@),
{
    let name: String = match read_word(lex) {
        Ok(v) => v,
        Err(e) => {
            return Err(e);
        },
    };
    let base: i32 = next_bodypart_base(&d.desc.bodyparts);
    let models: Vec<BodyModel> = match read_group(lex, d) {
        Ok(v) => v,
        Err(e) => {
            return Err(e);
        },
    };
    d.desc.bodyparts.push(BodyPart { name, base, models });
    Ok(())
}

/// The options of a shape of a face.
#[derive(Debug, Clone, Copy, PartialEq, Eq, Structural)]
pub struct FlexOpts {
    /// The frame, counted from the first.
    pub frame: i32,
    /// Where it is strongest.
    pub position: u32,
    /// The width of the seam.
    pub split: u32,
    /// How it wears off.
    pub decay: u32,
}

/// The options of a shape of a face, after those in `o`.
pub open spec fn flex_opts(o: FlexOpts, s: At) -> (FlexOpts, At)
    decreases left_at(s),
{
    if !more(s) {
        (o, s)
    } else {
        let (t, n) = token(s, false);
        let low = lower(t.text);
        let (o, n) = if low == "frame"@ {
            let (v, n) = int_on(n);
            (FlexOpts { frame: v, ..o }, n)
        } else if low == "position"@ {
            let (v, n) = num(n);
            (FlexOpts { position: v, ..o }, n)
        } else if low == "split"@ {
            let (v, n) = num(n);
            (FlexOpts { split: v, ..o }, n)
        } else if low == "decay"@ {
            let (v, n) = num(n);
            (FlexOpts { decay: v, ..o }, n)
        } else {
            (o, fail_at(n, t, around("未知的 flex 选项 "@, low, "（官方是 unknown option）"@)))
        };
        if went_on(n, s) {
            flex_opts(o, n)
        } else {
            (o, n)
        }
    }
}

/// The options of a shape of a face where none is given.
pub open spec fn plain_flex(split: u32) -> FlexOpts {
    FlexOpts { frame: 0, position: ONE, split, decay: ONE }
}

/// Reads the options of a shape of a face.
fn flex_options(lex: &mut Lexer, split: u32) -> (r: Result<FlexOpts, QcError>)
    requires
        old(lex).wf(),
    ensures
        final(lex).wf(),
        ({
            let (v, s) = flex_opts(plain_flex(split), Ok(old(lex)@));
            gave_value(r, final(lex)@, v, s)
        }),
        left(final(lex)@) <= left(old(lex)@),
{
    let mut o: FlexOpts = FlexOpts { frame: 0, position: ONE, split, decay: ONE };
    while lex.token_available()
        invariant
            lex.wf(),
            left(lex@) <= left(old(lex)@),
            flex_opts(o, Ok(lex@)) == flex_opts(plain_flex(split), Ok(old(lex)@)),
        decreases left(lex@),
    {
        let t: Token = match tok(lex, false) {
            Ok(v) => v,
            Err(e) => {
                return Err(e);
            },
        };
        let low: String = lowered(t.text.as_str());
        if same(low.as_str(), "frame") {
            o.frame = match i(lex) {
                Ok(v) => v,
                Err(e) => {
                    return Err(e);
                },
            };
        } else if same(low.as_str(), "position") {
            o.position = match f(lex) {
                Ok(v) => v,
                Err(e) => {
                    return Err(e);
                },
            };
        } else if same(low.as_str(), "split") {
            o.split = match f(lex) {
                Ok(v) => v,
                Err(e) => {
                    return Err(e);
                },
            };
        } else if same(low.as_str(), "decay") {
            o.decay = match f(lex) {
                Ok(v) => v,
                Err(e) => {
                    return Err(e);
                },
            };
        } else {
            return Err(
                error_for(
                    &t,
                    put_around("未知的 flex 选项 ", low.as_str(), "（官方是 unknown option）"),
                ),
            );
        }
    }
    Ok(o)
}

/// The vertex animation that stands on the line of a model itself.
pub open spec fn inline_vta(d: ScriptView, depth: int, s: At) -> (ScriptView, At) {
    if depth == 0 && more(s) {
        let (v, s) = word(s);
        (ScriptView { pending_vta: Some(resolved(d, v)), ..d }, s)
    } else {
        (d, s)
    }
}

/// Reads the vertex animation that stands on the line of a model itself.
fn read_inline_vta(lex: &mut Lexer, d: &mut Script, depth: i32) -> (r: Result<(), QcError>)
    requires
        old(lex).wf(),
    ensures
        final(lex).wf(),
        obeyed(r, final(lex)@, final(d)@, inline_vta(old(d)@, depth as int, Ok(old(lex)@))),
        left(final(lex)@) <= left(old(lex)@),
{
    if depth == 0 && lex.token_available() {
        let v: String = match read_word(lex) {
            Ok(v) => v,
            Err(e) => {
                return Err(e);
            },
        };
        d.pending_vta = Some(resolve_src(d, v.as_str()));
    }
    Ok(())
}

/// What is wrong where a shape has no vertex animation.
pub open spec fn no_vta(name: Seq<char>) -> Seq<char> {
    "`flex \""@ + name
        + "\"` 之前没有 `flexfile` —— 官方此处用的是**未初始化**的 `vtafile`（UB，不可复现）。请在 `flex` 前写一行 `flexfile \"<x.vta>\"`，或用 `$model <名> <smd> flex \"<名>\" \"<vta>\"` 的内联形式。"@
}

/// A shape added to a mesh.
pub open spec fn with_flex(
    d: ScriptView,
    m: BodyModelView,
    name: Seq<char>,
    o: FlexOpts,
    pair: bool,
    s: At,
) -> (BodyModelView, At) {
    match d.pending_vta {
        None => (m, fail_here(s, no_vta(name))),
        Some(vta) => (
            BodyModelView {
                flexes: m.flexes.push(
                    FlexView {
                        vta,
                        name,
                        frame: o.frame,
                        pair,
                        split: o.split,
                        position: o.position,
                        decay: o.decay,
                    },
                ),
                ..m
            },
            s,
        ),
    }
}

/// Adds a shape to a mesh.
fn push_flex(
    lex: &Lexer,
    d: &Script,
    model: &mut BodyModel,
    name: String,
    opts: FlexOpts,
    pair: bool,
) -> (r: Result<(), QcError>)
    ensures
        obeyed(
            r,
            lex@,
            final(model)@,
            with_flex(d@, old(model)@, name@, opts, pair, Ok(lex@)),
        ),
{
    match &d.pending_vta {
        None => {
            let mut m: String = "`flex \"".to_owned();
            m.push_str(name.as_str());
            m.push_str(
                "\"` 之前没有 `flexfile` —— 官方此处用的是**未初始化**的 `vtafile`（UB，不可复现）。请在 `flex` 前写一行 `flexfile \"<x.vta>\"`，或用 `$model <名> <smd> flex \"<名>\" \"<vta>\"` 的内联形式。",
            );
            Err(lex.error(m))
        },
        Some(vta) => {
            model.flexes.push(
                Flex {
                    vta: vta.clone(),
                    name,
                    frame: opts.frame,
                    pair,
                    split: opts.split,
                    position: opts.position,
                    decay: opts.decay,
                },
            );
            Ok(())
        },
    }
}

/// A name added, unless it is known.
pub open spec fn with_flexdesc(names: Seq<Seq<char>>, name: Seq<char>) -> Seq<Seq<char>> {
    if find_name(names, name, 0) is Some {
        names
    } else {
        names.push(name)
    }
}

/// Adds a name, unless it is known.
fn add_flexdesc(names: &mut Vec<String>, name: String)
    ensures
        viewed(final(names)@) == with_flexdesc(viewed(old(names)@), name@),
{
    assert(texts(names@) =~= viewed(names@));
    if name_index(names, name.as_str()).is_none() {
        names.push(name);
    }
}

/// The names on the line added.
pub open spec fn localvars(names: Seq<Seq<char>>, s: At) -> (Seq<Seq<char>>, At)
    decreases left_at(s),
{
    if !more(s) {
        (names, s)
    } else {
        let (t, n) = word(s);
        let names = with_flexdesc(names, t);
        if went_on(n, s) {
            localvars(names, n)
        } else {
            (names, n)
        }
    }
}

/// Adds the names on the line.
fn option_localvar(lex: &mut Lexer, d: &mut Script) -> (r: Result<(), QcError>)
    requires
        old(lex).wf(),
    ensures
        final(lex).wf(),
        ({
            let (names, s) = localvars(old(d)@.desc.flex_descriptors, Ok(old(lex)@));
            obeyed(
                r,
                final(lex)@,
                final(d)@,
                (
                    ScriptView {
                        desc: ModelDescView { flex_descriptors: names, ..old(d)@.desc },
                        ..old(d)@
                    },
                    s,
                ),
            )
        }),
        left(final(lex)@) <= left(old(lex)@),
{
    let mut names: Vec<String> = Vec::new();
    std::mem::swap(&mut names, &mut d.desc.flex_descriptors);
    while lex.token_available()
        invariant
            lex.wf(),
            left(lex@) <= left(old(lex)@),
            localvars(viewed(names@), Ok(lex@)) == localvars(
                old(d)@.desc.flex_descriptors,
                Ok(old(lex)@),
            ),
        decreases left(lex@),
    {
        let t: String = match read_word(lex) {
            Ok(v) => v,
            Err(e) => {
                return Err(e);
            },
        };
        add_flexdesc(&mut names, t);
    }
    d.desc.flex_descriptors = names;
    Ok(())
}

/// Controllers of one kind added.
pub open spec fn controllers(
    list: Seq<FlexControllerView>,
    kind: Seq<char>,
    min: u32,
    max: u32,
    s: At,
) -> (Seq<FlexControllerView>, At)
    decreases left_at(s),
{
    if !more(s) {
        (list, s)
    } else {
        let (t, n) = word(s);
        if lower(t) == lower("range"@) {
            let (min, n) = num(n);
            let (max, n) = num(n);
            if went_on(n, s) {
                controllers(list, kind, min, max, n)
            } else {
                (list, n)
            }
        } else {
            let list = list.push(FlexControllerView { name: t, kind, min, max });
            if went_on(n, s) {
                controllers(list, kind, min, max, n)
            } else {
                (list, n)
            }
        }
    }
}

/// Controllers added.
pub open spec fn flexcontroller(d: ScriptView, s: At) -> (ScriptView, At) {
    let (kind, s) = word(s);
    let (list, s) = controllers(d.desc.flex_controllers, kind, 0, ONE, s);
    (ScriptView { desc: ModelDescView { flex_controllers: list, ..d.desc }, ..d }, s)
}

/// Adds controllers.
fn option_flexcontroller(lex: &mut Lexer, d: &mut Script) -> (r: Result<(), QcError>)
    requires
        old(lex).wf(),
    ensures
        final(lex).wf(),
        obeyed(r, final(lex)@, final(d)@, flexcontroller(old(d)@, Ok(old(lex)@))),
        left(final(lex)@) <= left(old(lex)@),
{
    let kind: String = match read_word(lex) {
        Ok(v) => v,
        Err(e) => {
            return Err(e);
        },
    };
    let mut min: u32 = 0;
    let mut max: u32 = ONE;
    let mut list: Vec<FlexController> = Vec::new();
    std::mem::swap(&mut list, &mut d.desc.flex_controllers);
    let ghost want = controllers(viewed(list@), kind@, 0, ONE, Ok(lex@));
    while lex.token_available()
        invariant
            lex.wf(),
            left(lex@) <= left(old(lex)@),
            controllers(viewed(list@), kind@, min, max, Ok(lex@)) == want,
            want.1 is Err ==> flexcontroller(old(d)@, Ok(old(lex)@)).1 == want.1,
        decreases left(lex@),
    {
        let t: String = match read_word(lex) {
            Ok(v) => v,
            Err(e) => {
                return Err(e);
            },
        };
        if same_but_case(t.as_str(), "range") {
            min = match f(lex) {
                Ok(v) => v,
                Err(e) => {
                    return Err(e);
                },
            };
            max = match f(lex) {
                Ok(v) => v,
                Err(e) => {
                    return Err(e);
                },
            };
        } else {
            list.push(FlexController { name: t, kind: kind.clone(), min, max });
        }
    }
    d.desc.flex_controllers = list;
    Ok(())
}

/// By how much the iris is scaled: one over the size of the pupil, and one where that is zero.
pub open spec fn iris_scale(pupil: u32) -> u32 {
    if are_equal(pupil, 0) {
        ONE
    } else {
        quotient(ONE, pupil)
    }
}

/// By how much the iris is scaled.
fn scale_iris(pupil: u32) -> (r: u32)
    ensures
        r == iris_scale(pupil),
{
    if equal(pupil, 0) {
        ONE
    } else {
        over(ONE, pupil)
    }
}

/// An eyeball added.
pub open spec fn eyeball(m: BodyModelView, s: At) -> (BodyModelView, At) {
    let (name, s) = word(s);
    let (bone, s) = word(s);
    let (org, s) = vector(s);
    let (material, s) = word(s);
    let (radius, s) = num(s);
    let (zangle, s) = num(s);
    let (_, s) = word(s);
    let (pupil_scale, s) = num(s);
    (
        BodyModelView {
            eyeballs: m.eyeballs.push(
                EyeballView {
                    name: Some(name),
                    bone,
                    org,
                    material,
                    radius,
                    zangle,
                    iris_scale: iris_scale(pupil_scale),
                    upper_lid: None,
                    lower_lid: None,
                },
            ),
            ..m
        },
        s,
    )
}

/// Adds an eyeball.
fn option_eyeball(lex: &mut Lexer, d: &mut BodyModel) -> (r: Result<(), QcError>)
    requires
        old(lex).wf(),
    ensures
        final(lex).wf(),
        obeyed(r, final(lex)@, final(d)@, eyeball(old(d)@, Ok(old(lex)@))),
        left(final(lex)@) <= left(old(lex)@),
{
    let name: String = match read_word(lex) {
        Ok(v) => v,
        Err(e) => {
            return Err(e);
        },
    };
    let bone: String = match read_word(lex) {
        Ok(v) => v,
        Err(e) => {
            return Err(e);
        },
    };
    let org: Vector = match v3(lex) {
        Ok(v) => v,
        Err(e) => {
            return Err(e);
        },
    };
    let material: String = match read_word(lex) {
        Ok(v) => v,
        Err(e) => {
            return Err(e);
        },
    };
    let radius: u32 = match f(lex) {
        Ok(v) => v,
        Err(e) => {
            return Err(e);
        },
    };
    let zangle: u32 = match f(lex) {
        Ok(v) => v,
        Err(e) => {
            return Err(e);
        },
    };
    match read_word(lex) {
        Ok(_) => {},
        Err(e) => {
            return Err(e);
        },
    }
    let pupil_scale: u32 = match f(lex) {
        Ok(v) => v,
        Err(e) => {
            return Err(e);
        },
    };
    let e: Eyeball = Eyeball {
        name: Some(name),
        bone,
        org,
        material,
        radius,
        zangle,
        iris_scale: scale_iris(pupil_scale),
        upper_lid: None,
        lower_lid: None,
    };
    d.eyeballs.push(e);
    Ok(())
}

/// The words on the rest of the line.
pub open spec fn words_on_line(list: Seq<Seq<char>>, s: At) -> (Seq<Seq<char>>, At)
    decreases left_at(s),
{
    if !more(s) {
        (list, s)
    } else {
        let (t, n) = word(s);
        if went_on(n, s) {
            words_on_line(list.push(t), n)
        } else {
            (list.push(t), n)
        }
    }
}

/// Reads the words on the rest of the line.
fn read_words(lex: &mut Lexer) -> (r: Result<Vec<String>, QcError>)
    requires
        old(lex).wf(),
    ensures
        final(lex).wf(),
        ({
            let (v, s) = words_on_line(Seq::empty(), Ok(old(lex)@));
            match r {
                Ok(x) => viewed(x@) == v && s == Ok::<LexState, ErrorView>(final(lex)@),
                Err(e) => s == Err::<LexState, ErrorView>(e@),
            }
        }),
        left(final(lex)@) <= left(old(lex)@),
{
    let mut list: Vec<String> = Vec::new();
    while lex.token_available()
        invariant
            lex.wf(),
            left(lex@) <= left(old(lex)@),
            words_on_line(viewed(list@), Ok(lex@)) == words_on_line(
                Seq::empty(),
                Ok(old(lex)@),
            ),
        decreases left(lex@),
    {
        let t: String = match read_word(lex) {
            Ok(v) => v,
            Err(e) => {
                return Err(e);
            },
        };
        list.push(t);
    }
    Ok(list)
}

/// The first eyeball with the given name, in any ASCII case, from `i` on.
pub open spec fn find_eyeball(list: Seq<EyeballView>, name: Seq<char>, i: int) -> Option<int>
    decreases list.len() - i,
{
    if i < 0 || i >= list.len() {
        None
    } else {
        match list[i].name {
            Some(n) if lower(n) == lower(name) => Some(i),
            _ => find_eyeball(list, name, i + 1),
        }
    }
}

/// The first eyeball with the given name, in any ASCII case.
fn eyeball_index(list: &Vec<Eyeball>, name: &str) -> (r: Option<usize>)
    ensures
        match r {
            Some(i) => i < list@.len() && find_eyeball(viewed(list@), name@, 0) == Some(i as int),
            None => find_eyeball(viewed(list@), name@, 0) is None,
        },
{
    let mut i: usize = 0;
    while i < list.len()
        invariant
            i <= list@.len(),
            find_eyeball(viewed(list@), name@, i as int) == find_eyeball(viewed(list@), name@, 0),
        decreases list@.len() - i,
    {
        assert(viewed(list@)[i as int] == list@[i as int]@);
        if let Some(n) = &list[i].name {
            if same_but_case(n.as_str(), name) {
                return Some(i);
            }
        }
        i = i + 1;
    }
    None
}

/// Whether `s` holds `p`.
pub open spec fn holds(s: Seq<char>, p: Seq<char>) -> bool {
    exists|k: int|
        0 <= k <= s.len() - p.len() && #[trigger] s.subrange(k, k + p.len()) == p
}

/// Tells whether a text holds another.
fn holds_text(s: &str, p: &str) -> (r: bool)
    ensures
        r == holds(s@, p@),
{
    let a: Vec<char> = crate::text::chars_of(s);
    let n: usize = a.len();
    let m: usize = crate::text::chars_of(p).len();
    if m > n {
        return false;
    }
    let mut k: usize = 0;
    while k <= n - m
        invariant
            a@ == s@,
            n == a@.len(),
            m == p@.len(),
            m <= n,
            k <= n - m + 1,
            forall|j: int| 0 <= j < k ==> #[trigger] s@.subrange(j, j + m) != p@,
        decreases n - m + 1 - k,
    {
        let part: String = crate::text::string_of(&a, k, k + m);
        if same(part.as_str(), p) {
            assert(s@.subrange(k as int, k + p@.len()) == p@);
            return true;
        }
        if k == n - m {
            return false;
        }
        k = k + 1;
    }
    false
}

/// An eyeball with an eyelid.
pub open spec fn with_lid(e: EyeballView, lid: EyeballLidView, upper: bool) -> EyeballView {
    if upper {
        EyeballView { upper_lid: Some(lid), ..e }
    } else {
        EyeballView { lower_lid: Some(lid), ..e }
    }
}

/// Eyeballs with an eyelid, from the `k`-th name on; the first name that is not known stands
/// beside them.
pub open spec fn with_lids(
    balls: Seq<EyeballView>,
    lid: EyeballLidView,
    upper: bool,
    eyes: Seq<Seq<char>>,
    k: int,
) -> (Seq<EyeballView>, Option<Seq<char>>)
    decreases eyes.len() - k,
{
    if k < 0 || k >= eyes.len() {
        (balls, None)
    } else {
        match find_eyeball(balls, eyes[k], 0) {
            None => (balls, Some(eyes[k])),
            Some(j) => with_lids(
                balls.update(j, with_lid(balls[j], lid, upper)),
                lid,
                upper,
                eyes,
                k + 1,
            ),
        }
    }
}

/// A position of an eyelid.
pub open spec fn lid_entry(s: At) -> (LidEntryView, At) {
    let (flexdesc, s) = word(s);
    let (target, s) = num(s);
    (LidEntryView { flexdesc, target }, s)
}

/// Reads a position of an eyelid.
fn read_lid_entry(lex: &mut Lexer) -> (r: Result<LidEntry, QcError>)
    requires
        old(lex).wf(),
    ensures
        final(lex).wf(),
        ({
            let (v, s) = lid_entry(Ok(old(lex)@));
            gave(r, final(lex)@, v, s)
        }),
        left(final(lex)@) <= left(old(lex)@),
{
    let flexdesc: String = match read_word(lex) {
        Ok(v) => v,
        Err(e) => {
            return Err(e);
        },
    };
    let target: u32 = match f(lex) {
        Ok(v) => v,
        Err(e) => {
            return Err(e);
        },
    };
    Ok(LidEntry { flexdesc, target })
}

/// An eyelid given to eyeballs.
pub open spec fn eyelid(m: BodyModelView, s: At) -> (BodyModelView, At) {
    let (name, s) = word(s);
    let (lowerer, s) = lid_entry(s);
    let (neutral, s) = lid_entry(s);
    let (raiser, s) = lid_entry(s);
    let (eyes, s) = words_on_line(Seq::empty(), s);
    let lid = EyeballLidView { lid_flexdesc: name, lowerer, neutral, raiser };
    let (balls, missing) = with_lids(m.eyeballs, lid, holds(lower(name), "upper"@), eyes, 0);
    (
        BodyModelView { eyeballs: balls, ..m },
        match missing {
            Some(e) => fail_here(s, around("eyelid 引用了不存在的眼球 "@, e, ""@)),
            None => s,
        },
    )
}

/// A copy of an eyelid.
fn copy_lid(lid: &EyeballLid) -> (r: EyeballLid)
    ensures
        r@ == lid@,
{
    EyeballLid {
        lid_flexdesc: lid.lid_flexdesc.clone(),
        lowerer: LidEntry {
            flexdesc: lid.lowerer.flexdesc.clone(),
            target: lid.lowerer.target,
        },
        neutral: LidEntry {
            flexdesc: lid.neutral.flexdesc.clone(),
            target: lid.neutral.target,
        },
        raiser: LidEntry { flexdesc: lid.raiser.flexdesc.clone(), target: lid.raiser.target },
    }
}

/// Gives an eyelid to eyeballs; the first name that is not known is returned.
fn give_lid(balls: &mut Vec<Eyeball>, lid: &EyeballLid, upper: bool, eyes: &Vec<String>) -> (r:
    Option<usize>)
    ensures
        ({
            let (list, missing) = with_lids(viewed(old(balls)@), lid@, upper, viewed(eyes@), 0);
            match r {
                None => missing is None && viewed(final(balls)@) == list,
                Some(k) => k < eyes@.len() && missing == Some(eyes@[k as int]@),
            }
        }),
{
    let mut k: usize = 0;
    while k < eyes.len()
        invariant
            k <= eyes@.len(),
            with_lids(viewed(balls@), lid@, upper, viewed(eyes@), k as int) == with_lids(
                viewed(old(balls)@),
                lid@,
                upper,
                viewed(eyes@),
                0,
            ),
        decreases eyes@.len() - k,
    {
        assert(viewed(eyes@)[k as int] == eyes@[k as int]@);
        let j: usize = match eyeball_index(balls, eyes[k].as_str()) {
            Some(j) => j,
            None => {
                return Some(k);
            },
        };
        let ghost before = viewed(balls@);
        if upper {
            balls[j].upper_lid = Some(copy_lid(lid));
        } else {
            balls[j].lower_lid = Some(copy_lid(lid));
        }
        assert(viewed(balls@) =~= before.update(j as int, with_lid(before[j as int], lid@, upper)));
        k = k + 1;
    }
    None
}

/// Gives an eyelid to eyeballs.
fn option_eyelid(lex: &mut Lexer, d: &mut BodyModel) -> (r: Result<(), QcError>)
    requires
        old(lex).wf(),
    ensures
        final(lex).wf(),
        obeyed(r, final(lex)@, final(d)@, eyelid(old(d)@, Ok(old(lex)@))),
        left(final(lex)@) <= left(old(lex)@),
{
    let name: String = match read_word(lex) {
        Ok(v) => v,
        Err(e) => {
            return Err(e);
        },
    };
    let lowerer: LidEntry = match read_lid_entry(lex) {
        Ok(v) => v,
        Err(e) => {
            return Err(e);
        },
    };
    let neutral: LidEntry = match read_lid_entry(lex) {
        Ok(v) => v,
        Err(e) => {
            return Err(e);
        },
    };
    let raiser: LidEntry = match read_lid_entry(lex) {
        Ok(v) => v,
        Err(e) => {
            return Err(e);
        },
    };
    let eyes: Vec<String> = match read_words(lex) {
        Ok(v) => v,
        Err(e) => {
            return Err(e);
        },
    };
    let upper: bool = holds_text(lowered(name.as_str()).as_str(), "upper");
    let lid: EyeballLid = EyeballLid { lid_flexdesc: name, lowerer, neutral, raiser };
    match give_lid(&mut d.eyeballs, &lid, upper, &eyes) {
        None => Ok(()),
        Some(k) => Err(
            lex.error(put_around("eyelid 引用了不存在的眼球 ", eyes[k].as_str(), "")),
        ),
    }
}

/// A mouth added.
pub open spec fn mouth(d: ScriptView, s: At) -> (ScriptView, At) {
    let (index, s) = int_on(s);
    let (flexdesc, s) = word(s);
    let (bone, s) = word(s);
    let (forward, s) = vector(s);
    (
        ScriptView {
            desc: ModelDescView {
                mouths: d.desc.mouths.push(MouthView { index, flexdesc, bone, forward }),
                ..d.desc
            },
            ..d
        },
        s,
    )
}

/// Adds a mouth.
fn option_mouth(lex: &mut Lexer, d: &mut Script) -> (r: Result<(), QcError>)
    requires
        old(lex).wf(),
    ensures
        final(lex).wf(),
        obeyed(r, final(lex)@, final(d)@, mouth(old(d)@, Ok(old(lex)@))),
        left(final(lex)@) <= left(old(lex)@),
{
    let index: i32 = match i(lex) {
        Ok(v) => v,
        Err(e) => {
            return Err(e);
        },
    };
    let flexdesc: String = match read_word(lex) {
        Ok(v) => v,
        Err(e) => {
            return Err(e);
        },
    };
    let bone: String = match read_word(lex) {
        Ok(v) => v,
        Err(e) => {
            return Err(e);
        },
    };
    let forward: Vector = match v3(lex) {
        Ok(v) => v,
        Err(e) => {
            return Err(e);
        },
    };
    let m: Mouth = Mouth { index, flexdesc, bone, forward };
    d.desc.mouths.push(m);
    Ok(())
}

/// The names of controllers.
pub open spec fn controller_names(list: Seq<FlexControllerView>) -> Seq<Seq<char>> {
    Seq::new(list.len(), |i: int| list[i].name)
}

/// The names of controllers.
fn flex_controller_names(list: &Vec<FlexController>) -> (r: Vec<String>)
    ensures
        viewed(r@) == controller_names(viewed(list@)),
{
    let mut out: Vec<String> = Vec::new();
    let mut k: usize = 0;
    while k < list.len()
        invariant
            k <= list@.len(),
            viewed(out@) == controller_names(viewed(list@)).take(k as int),
        decreases list@.len() - k,
    {
        assert(viewed(list@)[k as int] == list@[k as int]@);
        let ghost before = out@;
        out.push(list[k].name.clone());
        assert(viewed(out@) == viewed(before).push(list@[k as int].name@));
        assert(viewed(out@) =~= controller_names(viewed(list@)).take(k + 1));
        k = k + 1;
    }
    assert(viewed(out@) =~= controller_names(viewed(list@)));
    out
}

/// A rule for a flex added.
pub open spec fn flexrule(d: ScriptView, flex: Seq<char>, s: At) -> (ScriptView, At) {
    let names = Names {
        flex,
        controllers: controller_names(d.desc.flex_controllers),
        flexdescs: d.desc.flex_descriptors,
    };
    match s {
        Err(e) => (d, Err(e)),
        Ok(st) => match rule(names, st) {
            (Err(e), _) => (d, Err(e)),
            (Ok(r), st) => (
                ScriptView {
                    desc: ModelDescView { flex_rules: d.desc.flex_rules.push(r), ..d.desc },
                    ..d
                },
                Ok(st),
            ),
        },
    }
}

/// Adds a rule for a flex.
fn option_flexrule(lex: &mut Lexer, d: &mut Script, flex: &str) -> (r: Result<(), QcError>)
    requires
        old(lex).wf(),
    ensures
        final(lex).wf(),
        obeyed(r, final(lex)@, final(d)@, flexrule(old(d)@, flex@, Ok(old(lex)@))),
        left(final(lex)@) <= left(old(lex)@),
{
    let controllers: Vec<String> = flex_controller_names(&d.desc.flex_controllers);
    assert(texts(controllers@) =~= viewed(controllers@));
    assert(texts(d.desc.flex_descriptors@) =~= viewed(d.desc.flex_descriptors@));
    let rule: FlexRule = match parse_flexrule(lex, flex, &controllers, &d.desc.flex_descriptors) {
        Ok(v) => v,
        Err(e) => {
            return Err(e);
        },
    };
    d.desc.flex_rules.push(rule);
    Ok(())
}

/// A shape of a face: its name, the width of its seam if it is split, its vertex animation if it
/// stands on the line of the model, and its options.
pub open spec fn flex_option(
    d: ScriptView,
    m: BodyModelView,
    name: Option<Seq<char>>,
    pair: bool,
    depth: int,
    s: At,
) -> (ScriptView, BodyModelView, At) {
    let (name, s) = match name {
        Some(n) => (n, s),
        None => word(s),
    };
    let (split, s) = if pair {
        num(s)
    } else {
        (0u32, s)
    };
    let (d, s) = inline_vta(d, depth, s);
    let (o, s) = flex_opts(plain_flex(split), s);
    let (m, s) = with_flex(d, m, name, o, pair, s);
    (d, m, s)
}

/// Reads a shape of a face.
fn read_flex(
    lex: &mut Lexer,
    d: &mut Script,
    model: &mut BodyModel,
    name: Option<String>,
    pair: bool,
    depth: i32,
) -> (r: Result<(), QcError>)
    requires
        old(lex).wf(),
    ensures
        final(lex).wf(),
        ({
            let (e, m, s) = flex_option(
                old(d)@,
                old(model)@,
                viewed_if(name),
                pair,
                depth as int,
                Ok(old(lex)@),
            );
            obeyed(r, final(lex)@, (final(d)@, final(model)@), ((e, m), s))
        }),
        left(final(lex)@) <= left(old(lex)@),
{
    let name: String = match name {
        Some(n) => n,
        None => match read_word(lex) {
            Ok(n) => n,
            Err(e) => {
                return Err(e);
            },
        },
    };
    let mut split: u32 = 0;
    if pair {
        split = match f(lex) {
            Ok(v) => v,
            Err(e) => {
                return Err(e);
            },
        };
    }
    match read_inline_vta(lex, d, depth) {
        Ok(_) => {},
        Err(e) => {
            return Err(e);
        },
    }
    let opts: FlexOpts = match flex_options(lex, split) {
        Ok(v) => v,
        Err(e) => {
            return Err(e);
        },
    };
    push_flex(lex, d, model, name, opts, pair)
}

/// One option of a model.
pub open spec fn model_option(
    d: ScriptView,
    m: BodyModelView,
    depth: int,
    t: TokenView,
    s: At,
) -> (ScriptView, BodyModelView, At) {
    let low = lower(t.text);
    if low == "flexfile"@ {
        let (v, s) = word(s);
        (ScriptView { pending_vta: Some(resolved(d, v)), ..d }, m, s)
    } else if low == "flex"@ {
        flex_option(d, m, None, false, depth, s)
    } else if low == "flexpair"@ {
        flex_option(d, m, None, true, depth, s)
    } else if low == "defaultflex"@ {
        flex_option(d, m, Some("default"@), false, depth, s)
    } else if low == "localvar"@ {
        let (names, s) = localvars(d.desc.flex_descriptors, s);
        (ScriptView { desc: ModelDescView { flex_descriptors: names, ..d.desc }, ..d }, m, s)
    } else if low == "eyeball"@ {
        let (m, s) = eyeball(m, s);
        (d, m, s)
    } else if low == "eyelid"@ {
        let (m, s) = eyelid(m, s);
        (d, m, s)
    } else if low == "mouth"@ {
        let (d, s) = mouth(d, s);
        (d, m, s)
    } else if low == "flexcontroller"@ {
        let (d, s) = flexcontroller(d, s);
        (d, m, s)
    } else if low == "spherenormals"@ || low == "attachment"@ {
        (d, m, line_skipped(s))
    } else if low.len() > 0 && low[0] == '%' {
        let (d, s) = flexrule(d, low.skip(1), s);
        (d, m, s)
    } else {
        (d, m, fail_at(s, t, around("未知的 model 选项 "@, low, ""@)))
    }
}

/// Reads one option of a model.
fn read_model_option(
    lex: &mut Lexer,
    d: &mut Script,
    model: &mut BodyModel,
    depth: i32,
    t: &Token,
) -> (r: Result<(), QcError>)
    requires
        old(lex).wf(),
    ensures
        final(lex).wf(),
        ({
            let (e, m, s) = model_option(
                old(d)@,
                old(model)@,
                depth as int,
                t@,
                Ok(old(lex)@),
            );
            obeyed(r, final(lex)@, (final(d)@, final(model)@), ((e, m), s))
        }),
        left(final(lex)@) <= left(old(lex)@),
{
    let low: String = lowered(t.text.as_str());
    if same(low.as_str(), "flexfile") {
        let v: String = match read_word(lex) {
            Ok(v) => v,
            Err(e) => {
                return Err(e);
            },
        };
        d.pending_vta = Some(resolve_src(d, v.as_str()));
        Ok(())
    } else if same(low.as_str(), "flex") {
        read_flex(lex, d, model, None, false, depth)
    } else if same(low.as_str(), "flexpair") {
        read_flex(lex, d, model, None, true, depth)
    } else if same(low.as_str(), "defaultflex") {
        read_flex(lex, d, model, Some("default".to_owned()), false, depth)
    } else if same(low.as_str(), "localvar") {
        option_localvar(lex, d)
    } else if same(low.as_str(), "eyeball") {
        option_eyeball(lex, model)
    } else if same(low.as_str(), "eyelid") {
        option_eyelid(lex, model)
    } else if same(low.as_str(), "mouth") {
        option_mouth(lex, d)
    } else if same(low.as_str(), "flexcontroller") {
        option_flexcontroller(lex, d)
    } else if same(low.as_str(), "spherenormals") || same(low.as_str(), "attachment") {
        skip_rest_of_line(lex);
        Ok(())
    } else if crate::text::first_is(low.as_str(), '%') {
        let rest: String = cut_first(low.as_str());
        option_flexrule(lex, d, rest.as_str())
    } else {
        Err(error_for(t, put_around("未知的 model 选项 ", low.as_str(), "")))
    }
}

/// The options of a model, on its line and in its block.
pub open spec fn model_options(d: ScriptView, m: BodyModelView, depth: int, s: At) -> (
    ScriptView,
    BodyModelView,
    At,
)
    decreases left_at(s),
{
    let (t, n) = block_token(s, depth);
    match t {
        None => (d, m, n),
        Some(t) => {
            let inner = if t.text == "{"@ {
                deeper(depth)
            } else if t.text == "}"@ {
                shallower(depth)
            } else {
                depth
            };
            let (d, m, n) = if t.text == "{"@ || t.text == "}"@ {
                (d, m, n)
            } else {
                model_option(d, m, depth, t, n)
            };
            if t.text == "}"@ && inner <= 0 {
                (d, m, n)
            } else if went_on(n, s) {
                model_options(d, m, inner, n)
            } else {
                (d, m, n)
            }
        },
    }
}

/// A part of the body with one mesh, and what moves in its face.
pub open spec fn model(d: ScriptView, s: At) -> (ScriptView, At) {
    let (name, s) = word(s);
    let base = next_base(d.desc.bodyparts);
    let (m, e, s) = studio(d, Some(name), s);
    let (e, m, s) = model_options(e, m, 0, s);
    (with_part(e, BodyPartView { name, base, models: seq![m] }), s)
}

/// Reads the options of a model.
fn read_model_options(lex: &mut Lexer, d: &mut Script, model: &mut BodyModel) -> (r: Result<
    (),
    QcError,
>)
    requires
        old(lex).wf(),
    ensures
        final(lex).wf(),
        ({
            let (e, m, s) = model_options(old(d)@, old(model)@, 0, Ok(old(lex)@));
            obeyed(r, final(lex)@, (final(d)@, final(model)@), ((e, m), s))
        }),
        left(final(lex)@) <= left(old(lex)@),
{
    let mut depth: i32 = 0;
    loop
        invariant
            lex.wf(),
            left(lex@) <= left(old(lex)@),
            model_options(d@, model@, depth as int, Ok(lex@)) == model_options(
                old(d)@,
                old(model)@,
                0,
                Ok(old(lex)@),
            ),
        decreases left(lex@),
    {
        let next: Option<Token> = match read_in_block(lex, depth) {
            Ok(v) => v,
            Err(e) => {
                return Err(e);
            },
        };
        let t: Token = match next {
            Some(t) => t,
            None => {
                return Ok(());
            },
        };
        proof {
            reveal_strlit("{");
            reveal_strlit("}");
            assert("{"@[0] != "}"@[0]);
        }
        if same(t.text.as_str(), "{") {
            depth = into(depth);
        } else if same(t.text.as_str(), "}") {
            depth = out_of(depth);
            if depth <= 0 {
                return Ok(());
            }
        } else {
            match read_model_option(lex, d, model, depth, &t) {
                Ok(_) => {},
                Err(e) => {
                    return Err(e);
                },
            }
        }
    }
}

/// Adds a part of the body with one mesh, and what moves in its face.
pub fn cmd_model(lex: &mut Lexer, d: &mut Script) -> (r: Result<(), QcError>)
    requires
        old(lex).wf(),
    ensures
        final(lex).wf(),
        obeyed(r, final(lex)@, final(d)@, model(old(d)@, Ok(old(lex)@))),
        left(final(lex)@) <= left(old(lex)@),
{
    let name: String = match read_word(lex) {
        Ok(v) => v,
        Err(e) => {
            return Err(e);
        },
    };
    let base: i32 = next_bodypart_base(&d.desc.bodyparts);
    let mut m: BodyModel = match option_studio(lex, d, Some(name.clone())) {
        Ok(v) => v,
        Err(e) => {
            return Err(e);
        },
    };
    match read_model_options(lex, d, &mut m) {
        Ok(_) => {},
        Err(e) => {
            return Err(e);
        },
    }
    let mut models: Vec<BodyModel> = Vec::new();
    models.push(m);
    assert(viewed(models@) =~= seq![m@]);
    d.desc.bodyparts.push(BodyPart { name, base, models });
    Ok(())
}

} // verus!
