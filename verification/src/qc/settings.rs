//! Commands that set one thing, or add one thing to a list.
use vstd::prelude::*;

use super::error::{ErrorView, QcError};
use super::lexer::{left, LexState, Lexer, Token};
use super::model::{
    Attachment, AttachmentView, Bone, BoneView, Families, FrameRange, Hitbox, HitboxView,
    IkAutoplayLock, IkAutoplayLockView, IkChain, IkChainView, MaterialsView, ModelDescView, Pair,
    PairView, PoseLoop, PoseParameter, PoseParameterView, rows, Script, ScriptView, Vector,
};
use super::read::{
    any_token, around, deeper, error_for, f, fail_at, gave, given_back, i, int_on, into,
    left_at, line_skipped, more, num, obeyed, out_of, put_around, read_word, shallower,
    skip_rest_of_line, tok, token, v3, vector, went_on, word, At,
};
use crate::seqs::{viewed, viewing};
use crate::text::{
    begins, cut_end_slashes, cut_first, forward, lower, lowered, same, same_but_case, starts,
    turn_slashes, without_end_slashes,
};

verus! {

broadcast use viewing;

/// The innermost prefix of file names.
pub open spec fn prefix(d: ScriptView) -> Seq<char> {
    if d.cddir.len() == 0 {
        Seq::empty()
    } else {
        d.cddir.last()
    }
}

/// The innermost prefix of file names.
pub fn cd_prefix(d: &Script) -> (r: String)
    ensures
        r@ == prefix(d@),
{
    let n: usize = d.cddir.len();
    if n == 0 {
        let r: String = String::new();
        assert(r@ =~= Seq::empty());
        r
    } else {
        d.cddir[n - 1].clone()
    }
}

/// The path of a file that a command names.
pub open spec fn resolved(d: ScriptView, name: Seq<char>) -> Seq<char> {
    if name.len() > 0 && name[0] == '/' {
        name
    } else {
        prefix(d) + forward(name)
    }
}

/// The path of a file that a command names.
pub fn resolve_src(d: &Script, name: &str) -> (r: String)
    ensures
        r@ == resolved(d@, name@),
{
    if starts(name, "/") {
        proof {
            reveal_strlit("/");
            assert(name@.take(1)[0] == name@[0]);
        }
        return name.to_owned();
    }
    proof {
        reveal_strlit("/");
        if name@.len() > 0 && name@[0] == '/' {
            assert(name@.take(1) =~= "/"@);
        }
    }
    let mut out: String = cd_prefix(d);
    let rest: String = turn_slashes(name);
    out.push_str(rest.as_str());
    out
}

/// The name of the model.
pub open spec fn modelname(d: ScriptView, s: At) -> (ScriptView, At) {
    let (t, s) = word(s);
    let name = if t.len() > 0 && (t[0] == '/' || t[0] == '\\') {
        t.skip(1)
    } else {
        t
    };
    (ScriptView { desc: ModelDescView { name, ..d.desc }, ..d }, s)
}

/// Sets the name of the model.
pub fn cmd_modelname(lex: &mut Lexer, d: &mut Script) -> (r: Result<(), QcError>)
    requires
        old(lex).wf(),
    ensures
        final(lex).wf(),
        obeyed(r, final(lex)@, final(d)@, modelname(old(d)@, Ok(old(lex)@))),
        left(final(lex)@) <= left(old(lex)@),
{
    let t: String = match read_word(lex) {
        Ok(v) => v,
        Err(e) => {
            return Err(e);
        },
    };
    proof {
        reveal_strlit("/");
        reveal_strlit("\\");
        if t@.len() > 0 {
            assert(t@.take(1) =~= seq![t@[0]]);
            assert("/"@ =~= seq!['/']);
            assert("\\"@ =~= seq!['\\']);
            assert(seq![t@[0]][0] == t@[0]);
        }
    }
    if starts(t.as_str(), "/") || starts(t.as_str(), "\\") {
        d.desc.name = cut_first(t.as_str());
    } else {
        d.desc.name = t;
    }
    Ok(())
}

/// The directory of files set.
pub open spec fn cd(d: ScriptView, s: At) -> (ScriptView, At) {
    let (t, s) = word(s);
    (ScriptView { cddir: seq![without_end_slashes(t) + "/"@], ..d }, s)
}

/// Sets the directory of files.
pub fn cmd_cd(lex: &mut Lexer, d: &mut Script) -> (r: Result<(), QcError>)
    requires
        old(lex).wf(),
    ensures
        final(lex).wf(),
        obeyed(r, final(lex)@, final(d)@, cd(old(d)@, Ok(old(lex)@))),
        left(final(lex)@) <= left(old(lex)@),
{
    let t: String = match read_word(lex) {
        Ok(v) => v,
        Err(e) => {
            return Err(e);
        },
    };
    let mut p: String = cut_end_slashes(t.as_str());
    p.push_str("/");
    let mut dirs: Vec<String> = Vec::new();
    dirs.push(p);
    d.cddir = dirs;
    assert(d@.cddir =~= cd(old(d)@, Ok(old(lex)@)).0.cddir);
    Ok(())
}

/// A directory entered.
pub open spec fn pushd(d: ScriptView, s: At) -> (ScriptView, At) {
    let (t, s) = word(s);
    (ScriptView { cddir: d.cddir.push(prefix(d) + without_end_slashes(t) + "/"@), ..d }, s)
}

/// Enters a directory.
pub fn cmd_pushd(lex: &mut Lexer, d: &mut Script) -> (r: Result<(), QcError>)
    requires
        old(lex).wf(),
    ensures
        final(lex).wf(),
        obeyed(r, final(lex)@, final(d)@, pushd(old(d)@, Ok(old(lex)@))),
        left(final(lex)@) <= left(old(lex)@),
{
    let t: String = match read_word(lex) {
        Ok(v) => v,
        Err(e) => {
            return Err(e);
        },
    };
    let mut p: String = cd_prefix(d);
    let rest: String = cut_end_slashes(t.as_str());
    p.push_str(rest.as_str());
    p.push_str("/");
    d.cddir.push(p);
    Ok(())
}

/// A directory left.
pub open spec fn popd(d: ScriptView) -> ScriptView {
    if d.cddir.len() > 1 {
        ScriptView { cddir: d.cddir.drop_last(), ..d }
    } else {
        d
    }
}

/// Leaves a directory.
pub fn cmd_popd(d: &mut Script)
    ensures
        final(d)@ == popd(old(d)@),
{
    if d.cddir.len() > 1 {
        let _ = d.cddir.pop();
        assert(viewed(d.cddir@) =~= viewed(old(d).cddir@).drop_last());
    }
}

/// A path of materials: with a slash at its end, and no backslash.
pub open spec fn material_path(t: Seq<char>) -> Seq<char> {
    if t.len() == 0 {
        Seq::empty()
    } else if t.last() == '/' || t.last() == '\\' {
        forward(t)
    } else {
        forward(t) + "/"@
    }
}

/// Paths of materials added.
pub open spec fn cdmaterials(paths: Seq<Seq<char>>, s: At) -> (Seq<Seq<char>>, At)
    decreases left_at(s),
{
    if !more(s) {
        (paths, s)
    } else {
        let (t, n) = word(s);
        let paths = paths.push(material_path(t));
        if went_on(n, s) {
            cdmaterials(paths, n)
        } else {
            (paths, n)
        }
    }
}

/// A path of materials.
fn path_of_materials(t: &str) -> (r: String)
    ensures
        r@ == material_path(t@),
{
    let mut p: String = turn_slashes(t);
    let c: Vec<char> = crate::text::chars_of(t);
    let n: usize = c.len();
    if n > 0 && c[n - 1] != '/' && c[n - 1] != '\\' {
        p.push_str("/");
    }
    proof {
        if t@.len() == 0 {
            assert(p@ =~= Seq::empty());
        }
    }
    p
}

/// Adds paths of materials.
pub fn cmd_cdmaterials(lex: &mut Lexer, d: &mut Script) -> (r: Result<(), QcError>)
    requires
        old(lex).wf(),
    ensures
        final(lex).wf(),
        ({
            let (paths, s) = cdmaterials(old(d)@.desc.materials.search_paths, Ok(old(lex)@));
            obeyed(
                r,
                final(lex)@,
                final(d)@,
                (
                    ScriptView {
                        desc: ModelDescView {
                            materials: MaterialsView { search_paths: paths, ..old(d)@.desc.materials },
                            ..old(d)@.desc
                        },
                        ..old(d)@
                    },
                    s,
                ),
            )
        }),
        left(final(lex)@) <= left(old(lex)@),
{
    let mut paths: Vec<String> = Vec::new();
    std::mem::swap(&mut paths, &mut d.desc.materials.search_paths);
    while lex.token_available()
        invariant
            lex.wf(),
            left(lex@) <= left(old(lex)@),
            cdmaterials(viewed(paths@), Ok(lex@)) == cdmaterials(
                old(d)@.desc.materials.search_paths,
                Ok(old(lex)@),
            ),
        decreases left(lex@),
    {
        let t: String = match read_word(lex) {
            Ok(v) => v,
            Err(e) => {
                return Err(e);
            },
        };
        paths.push(path_of_materials(t.as_str()));
    }
    d.desc.materials.search_paths = paths;
    Ok(())
}

/// What is added to and taken from the contents.
pub open spec fn contents_words(added: i32, removed: i32, s: At) -> (i32, i32, At)
    decreases left_at(s),
{
    let (t, n) = word(s);
    let low = lower(t);
    let (added, removed) = if low == "grate"@ {
        (added | 8, removed | 1)
    } else if low == "ladder"@ {
        (added | 16, removed)
    } else if low == "solid"@ {
        (added | 1, removed)
    } else if low == "monster"@ {
        (added | 32, removed)
    } else if low == "notsolid"@ {
        (added, removed | 1)
    } else {
        (added, removed)
    };
    if more(n) && went_on(n, s) {
        contents_words(added, removed, n)
    } else {
        (added, removed, n)
    }
}

/// The contents set.
pub open spec fn contents(d: ScriptView, s: At) -> (ScriptView, At) {
    let (added, removed, s) = contents_words(0, 0, s);
    (
        ScriptView {
            desc: ModelDescView { contents: (d.desc.contents | added) & !removed, ..d.desc },
            ..d
        },
        s,
    )
}

/// Sets the contents.
pub fn cmd_contents(lex: &mut Lexer, d: &mut Script) -> (r: Result<(), QcError>)
    requires
        old(lex).wf(),
    ensures
        final(lex).wf(),
        obeyed(r, final(lex)@, final(d)@, contents(old(d)@, Ok(old(lex)@))),
        left(final(lex)@) <= left(old(lex)@),
{
    let mut added: i32 = 0;
    let mut removed: i32 = 0;
    loop
        invariant_except_break
            contents_words(added, removed, Ok(lex@)) == contents_words(0, 0, Ok(old(lex)@)),
        invariant
            lex.wf(),
            left(lex@) <= left(old(lex)@),
            d@ == old(d)@,
        ensures
            contents_words(0, 0, Ok(old(lex)@)) == (
                added,
                removed,
                Ok::<LexState, ErrorView>(lex@),
            ),
        decreases left(lex@),
    {
        let t: String = match read_word(lex) {
            Ok(v) => v,
            Err(e) => {
                return Err(e);
            },
        };
        let low: String = lowered(t.as_str());
        if same(low.as_str(), "grate") {
            added = added | 8;
            removed = removed | 1;
        } else if same(low.as_str(), "ladder") {
            added = added | 16;
        } else if same(low.as_str(), "solid") {
            added = added | 1;
        } else if same(low.as_str(), "monster") {
            added = added | 32;
        } else if same(low.as_str(), "notsolid") {
            removed = removed | 1;
        }
        if !lex.token_available() {
            break;
        }
    }
    d.desc.contents = (d.desc.contents | added) & !removed;
    Ok(())
}

/// The text of a block, from the given depth on.
pub open spec fn block_text(out: Seq<char>, level: int, s: At) -> (Seq<char>, At)
    decreases left_at(s),
{
    let (t, n) = any_token(s);
    match t {
        None => (out, n),
        Some(t) => {
            let inner = if t.text == "}"@ {
                shallower(level)
            } else if t.text == "{"@ {
                deeper(level)
            } else {
                level
            };
            let next = if t.text == "}"@ {
                out + " }\n"@
            } else if t.text == "{"@ {
                out + "{\n"@
            } else if level > 1 {
                out.push('"') + t.text + "\" "@
            } else {
                (out + t.text).push(' ')
            };
            if t.text == "}"@ && inner <= 0 {
                (out, n)
            } else if went_on(n, s) {
                block_text(next, inner, n)
            } else {
                (next, n)
            }
        },
    }
}

/// The text of a block; nothing where there is no block.
pub open spec fn keyvalues(s: At) -> (Seq<char>, At) {
    let (t, s) = token(s, true);
    if t.text != "{"@ {
        (Seq::empty(), s)
    } else {
        block_text(Seq::empty(), 1, s)
    }
}

/// Reads the text of a block.
pub fn option_keyvalues(lex: &mut Lexer) -> (r: Result<String, QcError>)
    requires
        old(lex).wf(),
    ensures
        final(lex).wf(),
        ({
            let (v, s) = keyvalues(Ok(old(lex)@));
            gave(r, final(lex)@, v, s)
        }),
        left(final(lex)@) <= left(old(lex)@),
{
    let t: Token = match tok(lex, true) {
        Ok(v) => v,
        Err(e) => {
            return Err(e);
        },
    };
    let mut out: String = String::new();
    assert(out@ =~= Seq::empty());
    if !same(t.text.as_str(), "{") {
        return Ok(out);
    }
    let mut level: i32 = 1;
    loop
        invariant
            lex.wf(),
            left(lex@) <= left(old(lex)@),
            block_text(out@, level as int, Ok(lex@)) == keyvalues(Ok(old(lex)@)),
        decreases left(lex@),
    {
        let next: Option<Token> = match lex.next_token(true) {
            Ok(t) => t,
            Err(e) => {
                return Err(e);
            },
        };
        let t: Token = match next {
            Some(t) => t,
            None => {
                return Ok(out);
            },
        };
        if same(t.text.as_str(), "}") {
            level = out_of(level);
            if level <= 0 {
                return Ok(out);
            }
            out.push_str(" }\n");
        } else if same(t.text.as_str(), "{") {
            proof {
                reveal_strlit("{");
                reveal_strlit("}");
                assert("{"@[0] != "}"@[0]);
            }
            out.push_str("{\n");
            level = into(level);
        } else if level > 1 {
            out.push('"');
            out.push_str(t.text.as_str());
            out.push_str("\" ");
        } else {
            out.push_str(t.text.as_str());
            out.push(' ');
        }
    }
}

/// Sections for all sequences.
pub open spec fn sectionframes(d: ScriptView, s: At) -> (ScriptView, At) {
    let (len, s) = int_on(s);
    let (from, s) = if more(s) {
        int_on(s)
    } else {
        (120i32, s)
    };
    (ScriptView { section_frames: Some(FrameRange { first: len, last: from }), ..d }, s)
}

/// Sets sections for all sequences.
pub fn cmd_sectionframes_top(lex: &mut Lexer, d: &mut Script) -> (r: Result<(), QcError>)
    requires
        old(lex).wf(),
    ensures
        final(lex).wf(),
        obeyed(r, final(lex)@, final(d)@, sectionframes(old(d)@, Ok(old(lex)@))),
        left(final(lex)@) <= left(old(lex)@),
{
    let len: i32 = match i(lex) {
        Ok(v) => v,
        Err(e) => {
            return Err(e);
        },
    };
    let mut from: i32 = 120;
    if lex.token_available() {
        from = match i(lex) {
            Ok(v) => v,
            Err(e) => {
                return Err(e);
            },
        };
    }
    d.section_frames = Some(FrameRange { first: len, last: from });
    Ok(())
}

/// Where a parameter starts over.
pub open spec fn pose_loop(mode: Option<PoseLoop>, s: At) -> (Option<PoseLoop>, At)
    decreases left_at(s),
{
    if !more(s) {
        (mode, s)
    } else {
        let (t, n) = word(s);
        let (mode, n) = if lower(t) == "wrap"@ {
            (Some(PoseLoop::Wrap), n)
        } else if lower(t) == "loop"@ {
            let (v, n) = num(n);
            (Some(PoseLoop::Explicit(v)), n)
        } else {
            (mode, n)
        };
        if went_on(n, s) {
            pose_loop(mode, n)
        } else {
            (mode, n)
        }
    }
}

/// A number, if there is one on the line; else 0.
pub open spec fn num_if(s: At) -> (u32, At) {
    if more(s) {
        num(s)
    } else {
        (0u32, s)
    }
}

/// Reads a number, if there is one on the line.
pub fn f_if(lex: &mut Lexer) -> (r: Result<u32, QcError>)
    requires
        old(lex).wf(),
    ensures
        final(lex).wf(),
        ({
            let (v, s) = num_if(Ok(old(lex)@));
            super::read::gave_value(r, final(lex)@, v, s)
        }),
        left(final(lex)@) <= left(old(lex)@),
{
    if lex.token_available() {
        f(lex)
    } else {
        Ok(0)
    }
}

/// A parameter that blends poses.
pub open spec fn poseparameter(d: ScriptView, s: At) -> (ScriptView, At) {
    let (name, s) = word(s);
    let (start, s) = num_if(s);
    let (end, s) = num_if(s);
    let (loop_mode, s) = pose_loop(None, s);
    (
        ScriptView {
            desc: ModelDescView {
                pose_parameters: d.desc.pose_parameters.push(
                    PoseParameterView { name, start, end, loop_mode },
                ),
                ..d.desc
            },
            ..d
        },
        s,
    )
}

/// Reads where a parameter starts over.
fn read_pose_loop(lex: &mut Lexer) -> (r: Result<Option<PoseLoop>, QcError>)
    requires
        old(lex).wf(),
    ensures
        final(lex).wf(),
        ({
            let (v, s) = pose_loop(None, Ok(old(lex)@));
            super::read::gave_value(r, final(lex)@, v, s)
        }),
        left(final(lex)@) <= left(old(lex)@),
{
    let mut mode: Option<PoseLoop> = None;
    while lex.token_available()
        invariant
            lex.wf(),
            left(lex@) <= left(old(lex)@),
            pose_loop(mode, Ok(lex@)) == pose_loop(None, Ok(old(lex)@)),
        decreases left(lex@),
    {
        let t: String = match read_word(lex) {
            Ok(v) => v,
            Err(e) => {
                return Err(e);
            },
        };
        let low: String = lowered(t.as_str());
        if same(low.as_str(), "wrap") {
            mode = Some(PoseLoop::Wrap);
        } else if same(low.as_str(), "loop") {
            let v: u32 = match f(lex) {
                Ok(v) => v,
                Err(e) => {
                    return Err(e);
                },
            };
            mode = Some(PoseLoop::Explicit(v));
        }
    }
    Ok(mode)
}

/// Adds a parameter that blends poses.
pub fn cmd_poseparameter(lex: &mut Lexer, d: &mut Script) -> (r: Result<(), QcError>)
    requires
        old(lex).wf(),
    ensures
        final(lex).wf(),
        obeyed(r, final(lex)@, final(d)@, poseparameter(old(d)@, Ok(old(lex)@))),
        left(final(lex)@) <= left(old(lex)@),
{
    let name: String = match read_word(lex) {
        Ok(v) => v,
        Err(e) => {
            return Err(e);
        },
    };
    let start: u32 = match f_if(lex) {
        Ok(v) => v,
        Err(e) => {
            return Err(e);
        },
    };
    let end: u32 = match f_if(lex) {
        Ok(v) => v,
        Err(e) => {
            return Err(e);
        },
    };
    let loop_mode: Option<PoseLoop> = match read_pose_loop(lex) {
        Ok(v) => v,
        Err(e) => {
            return Err(e);
        },
    };
    d.desc.pose_parameters.push(PoseParameter { name, start, end, loop_mode });
    Ok(())
}

/// The families of a group of materials, from the given depth on.
pub open spec fn families(groups: Seq<Seq<Seq<char>>>, depth: int, s: At) -> (
    Seq<Seq<Seq<char>>>,
    At,
)
    decreases left_at(s),
{
    let (t, n) = any_token(s);
    match t {
        None => (groups, n),
        Some(t) => {
            let inner = if t.text == "{"@ {
                deeper(depth)
            } else if t.text == "}"@ {
                shallower(depth)
            } else {
                depth
            };
            let next = if t.text == "{"@ {
                if inner == 2 {
                    groups.push(Seq::empty())
                } else {
                    groups
                }
            } else if t.text == "}"@ {
                groups
            } else if depth == 2 && groups.len() > 0 {
                groups.drop_last().push(groups.last().push(t.text))
            } else {
                groups
            };
            if t.text == "}"@ && inner == 0 {
                (next, n)
            } else if went_on(n, s) {
                families(next, inner, n)
            } else {
                (next, n)
            }
        },
    }
}

/// A group of materials added.
pub open spec fn texturegroup(d: ScriptView, s: At) -> (ScriptView, At) {
    let s = if more(s) {
        word(s).1
    } else {
        s
    };
    let (groups, s) = families(Seq::empty(), 0, s);
    (ScriptView { texture_groups: d.texture_groups.push(groups), ..d }, s)
}

/// Adds a name to the last row.
fn put_in_last(groups: &mut Vec<Vec<String>>, name: String)
    ensures
        rows(final(groups)@) == if old(groups)@.len() > 0 {
            rows(old(groups)@).drop_last().push(rows(old(groups)@).last().push(name@))
        } else {
            rows(old(groups)@)
        },
{
    if let Some(mut g) = groups.pop() {
        let ghost before = g@;
        g.push(name);
        assert(viewed(g@) == viewed(before).push(name@));
        groups.push(g);
        assert(rows(groups@) =~= rows(old(groups)@).drop_last().push(
            rows(old(groups)@).last().push(name@),
        ));
    }
}

/// Reads the families of a group of materials.
fn read_families(lex: &mut Lexer) -> (r: Result<Families, QcError>)
    requires
        old(lex).wf(),
    ensures
        final(lex).wf(),
        ({
            let (v, s) = families(Seq::empty(), 0, Ok(old(lex)@));
            gave(r, final(lex)@, v, s)
        }),
        left(final(lex)@) <= left(old(lex)@),
{
    let mut groups: Vec<Vec<String>> = Vec::new();
    let mut depth: i32 = 0;
    assert(rows(groups@) =~= Seq::empty());
    loop
        invariant
            lex.wf(),
            left(lex@) <= left(old(lex)@),
            families(rows(groups@), depth as int, Ok(lex@)) == families(
                Seq::empty(),
                0,
                Ok(old(lex)@),
            ),
        decreases left(lex@),
    {
        let next: Option<Token> = match lex.next_token(true) {
            Ok(t) => t,
            Err(e) => {
                return Err(e);
            },
        };
        let t: Token = match next {
            Some(t) => t,
            None => {
                return Ok(Families { families: groups });
            },
        };
        if same(t.text.as_str(), "{") {
            proof {
                reveal_strlit("{");
                reveal_strlit("}");
                assert("{"@[0] != "}"@[0]);
            }
            depth = into(depth);
            if depth == 2 {
                let ghost before = groups@;
                let g: Vec<String> = Vec::new();
                assert(viewed(g@) =~= Seq::<Seq<char>>::empty());
                groups.push(g);
                assert(rows(groups@) =~= rows(before).push(Seq::empty()));
            }
        } else if same(t.text.as_str(), "}") {
            depth = out_of(depth);
            if depth == 0 {
                return Ok(Families { families: groups });
            }
        } else if depth == 2 {
            assert(rows(groups@).len() == groups@.len());
            put_in_last(&mut groups, t.text);
        }
    }
}

/// Adds a group of materials.
pub fn cmd_texturegroup(lex: &mut Lexer, d: &mut Script) -> (r: Result<(), QcError>)
    requires
        old(lex).wf(),
    ensures
        final(lex).wf(),
        obeyed(r, final(lex)@, final(d)@, texturegroup(old(d)@, Ok(old(lex)@))),
        left(final(lex)@) <= left(old(lex)@),
{
    if lex.token_available() {
        match read_word(lex) {
            Ok(_) => {},
            Err(e) => {
                return Err(e);
            },
        }
    }
    let groups: Families = match read_families(lex) {
        Ok(v) => v,
        Err(e) => {
            return Err(e);
        },
    };
    d.texture_groups.push(groups);
    Ok(())
}

/// A bone defined.
pub open spec fn definebone(d: ScriptView, s: At) -> (ScriptView, At) {
    let (name, s) = word(s);
    let (parent, s) = word(s);
    let (pos, s) = vector(s);
    let (rot, s) = vector(s);
    let aligned = more(s);
    let (realign_pos, s) = if aligned {
        vector(s)
    } else {
        (Vector { x: 0, y: 0, z: 0 }, s)
    };
    let (realign_rot, s) = if aligned {
        vector(s)
    } else {
        (Vector { x: 0, y: 0, z: 0 }, s)
    };
    let bone = BoneView {
        name,
        parent: if parent.len() == 0 {
            None
        } else {
            Some(parent)
        },
        position: Some(pos),
        rotation: Some(rot),
        surface_prop: None,
        bonemerge: false,
        pre_aligned: Some(aligned),
        realign_position: if aligned {
            Some(realign_pos)
        } else {
            None
        },
        realign_rotation: if aligned {
            Some(realign_rot)
        } else {
            None
        },
    };
    (ScriptView { import_bones: d.import_bones.push(bone), ..d }, s)
}

/// Tells whether a text is empty.
pub fn is_blank(s: &str) -> (r: bool)
    ensures
        r == (s@.len() == 0),
{
    crate::text::chars_of(s).len() == 0
}

/// Defines a bone.
pub fn cmd_definebone(lex: &mut Lexer, d: &mut Script) -> (r: Result<(), QcError>)
    requires
        old(lex).wf(),
    ensures
        final(lex).wf(),
        obeyed(r, final(lex)@, final(d)@, definebone(old(d)@, Ok(old(lex)@))),
        left(final(lex)@) <= left(old(lex)@),
{
    let name: String = match read_word(lex) {
        Ok(v) => v,
        Err(e) => {
            return Err(e);
        },
    };
    let parent: String = match read_word(lex) {
        Ok(v) => v,
        Err(e) => {
            return Err(e);
        },
    };
    let pos: Vector = match v3(lex) {
        Ok(v) => v,
        Err(e) => {
            return Err(e);
        },
    };
    let rot: Vector = match v3(lex) {
        Ok(v) => v,
        Err(e) => {
            return Err(e);
        },
    };
    let aligned: bool = lex.token_available();
    let mut realign_position: Option<Vector> = None;
    let mut realign_rotation: Option<Vector> = None;
    if aligned {
        realign_position = match v3(lex) {
            Ok(v) => Some(v),
            Err(e) => {
                return Err(e);
            },
        };
        realign_rotation = match v3(lex) {
            Ok(v) => Some(v),
            Err(e) => {
                return Err(e);
            },
        };
    }
    let parent: Option<String> = if is_blank(parent.as_str()) {
        None
    } else {
        Some(parent)
    };
    let bone: Bone = Bone {
        name,
        parent,
        position: Some(pos),
        rotation: Some(rot),
        surface_prop: None,
        bonemerge: false,
        pre_aligned: Some(aligned),
        realign_position,
        realign_rotation,
    };
    d.import_bones.push(bone);
    Ok(())
}

/// A bone that follows a bone of another model.
pub open spec fn bonemerge(d: ScriptView, s: At) -> (ScriptView, At) {
    let (t, s) = word(s);
    (ScriptView { bonemerge_names: d.bonemerge_names.push(t), ..d }, s)
}

/// Notes a bone that follows a bone of another model.
pub fn cmd_bonemerge(lex: &mut Lexer, d: &mut Script) -> (r: Result<(), QcError>)
    requires
        old(lex).wf(),
    ensures
        final(lex).wf(),
        obeyed(r, final(lex)@, final(d)@, bonemerge(old(d)@, Ok(old(lex)@))),
        left(final(lex)@) <= left(old(lex)@),
{
    let t: String = match read_word(lex) {
        Ok(v) => v,
        Err(e) => {
            return Err(e);
        },
    };
    d.bonemerge_names.push(t);
    Ok(())
}

/// The rotation of an attachment: up to three numbers, as far as the line goes.
pub open spec fn rotation(v: Vector, s: At) -> (Vector, At) {
    if !more(s) {
        (v, s)
    } else {
        let (x, s) = num(s);
        if !more(s) {
            (Vector { x, ..v }, s)
        } else {
            let (y, s) = num(s);
            if !more(s) {
                (Vector { x, y, ..v }, s)
            } else {
                let (z, s) = num(s);
                (Vector { x, y, z }, s)
            }
        }
    }
}

/// Reads the rotation of an attachment.
fn read_rotation(lex: &mut Lexer, start: Vector) -> (r: Result<Vector, QcError>)
    requires
        old(lex).wf(),
    ensures
        final(lex).wf(),
        ({
            let (v, s) = rotation(start, Ok(old(lex)@));
            super::read::gave_value(r, final(lex)@, v, s)
        }),
        left(final(lex)@) <= left(old(lex)@),
{
    let mut v: Vector = start;
    if !lex.token_available() {
        return Ok(v);
    }
    v.x = match f(lex) {
        Ok(v) => v,
        Err(e) => {
            return Err(e);
        },
    };
    if !lex.token_available() {
        return Ok(v);
    }
    v.y = match f(lex) {
        Ok(v) => v,
        Err(e) => {
            return Err(e);
        },
    };
    if !lex.token_available() {
        return Ok(v);
    }
    v.z = match f(lex) {
        Ok(v) => v,
        Err(e) => {
            return Err(e);
        },
    };
    Ok(v)
}

/// The options of an attachment: its marks, its rotation, and whether it stands in the world.
pub open spec fn attachment_options(flags: i32, v: Vector, absolute: bool, s: At) -> (
    i32,
    Vector,
    bool,
    At,
)
    decreases left_at(s),
{
    if !more(s) {
        (flags, v, absolute, s)
    } else {
        let (t, n) = token(s, false);
        let low = lower(t.text);
        let (flags, v, absolute, n) = if low == "absolute"@ {
            (flags | 1, v, true, n)
        } else if low == "rigid"@ {
            (flags | 2, v, absolute, n)
        } else if low == "world_align"@ {
            (flags | 4, v, absolute, n)
        } else if low == "rotate"@ {
            let (v, n) = rotation(v, n);
            (flags, v, absolute, n)
        } else if low == "x_and_z_axes"@ {
            (flags, v, absolute, vector(vector(n).1).1)
        } else {
            (flags, v, absolute, fail_at(n, t, around("未知的 $attachment 选项 "@, low, ""@)))
        };
        if went_on(n, s) {
            attachment_options(flags, v, absolute, n)
        } else {
            (flags, v, absolute, n)
        }
    }
}

/// A place to hang things on.
pub open spec fn attachment(d: ScriptView, s: At) -> (ScriptView, At) {
    let (name, s) = word(s);
    let (bone, s) = word(s);
    let (position, s) = vector(s);
    let (flags, rotation, absolute, s) = attachment_options(
        0,
        Vector { x: 0, y: 0, z: 0 },
        false,
        s,
    );
    (
        ScriptView {
            desc: ModelDescView {
                attachments: d.desc.attachments.push(
                    AttachmentView { name, bone, position, rotation, flags },
                ),
                ..d.desc
            },
            attachment_absolute: d.attachment_absolute.push(absolute),
            ..d
        },
        s,
    )
}

/// Reads the options of an attachment.
fn read_attachment_options(lex: &mut Lexer) -> (r: Result<(i32, Vector, bool), QcError>)
    requires
        old(lex).wf(),
    ensures
        final(lex).wf(),
        ({
            let (a, b, c, s) = attachment_options(
                0,
                Vector { x: 0, y: 0, z: 0 },
                false,
                Ok(old(lex)@),
            );
            super::read::gave_value(r, final(lex)@, (a, b, c), s)
        }),
        left(final(lex)@) <= left(old(lex)@),
{
    let mut flags: i32 = 0;
    let mut rotation: Vector = Vector { x: 0, y: 0, z: 0 };
    let mut absolute: bool = false;
    while lex.token_available()
        invariant
            lex.wf(),
            left(lex@) <= left(old(lex)@),
            attachment_options(flags, rotation, absolute, Ok(lex@)) == attachment_options(
                0,
                Vector { x: 0, y: 0, z: 0 },
                false,
                Ok(old(lex)@),
            ),
        decreases left(lex@),
    {
        let t: Token = match tok(lex, false) {
            Ok(v) => v,
            Err(e) => {
                return Err(e);
            },
        };
        let low: String = lowered(t.text.as_str());
        if same(low.as_str(), "absolute") {
            absolute = true;
            flags = flags | 1;
        } else if same(low.as_str(), "rigid") {
            flags = flags | 2;
        } else if same(low.as_str(), "world_align") {
            flags = flags | 4;
        } else if same(low.as_str(), "rotate") {
            rotation = match read_rotation(lex, rotation) {
                Ok(v) => v,
                Err(e) => {
                    return Err(e);
                },
            };
        } else if same(low.as_str(), "x_and_z_axes") {
            match v3(lex) {
                Ok(_) => {},
                Err(e) => {
                    return Err(e);
                },
            }
            match v3(lex) {
                Ok(_) => {},
                Err(e) => {
                    return Err(e);
                },
            }
        } else {
            return Err(error_for(&t, put_around("未知的 $attachment 选项 ", low.as_str(), "")));
        }
    }
    Ok((flags, rotation, absolute))
}

/// Adds a place to hang things on.
pub fn cmd_attachment(lex: &mut Lexer, d: &mut Script) -> (r: Result<(), QcError>)
    requires
        old(lex).wf(),
    ensures
        final(lex).wf(),
        obeyed(r, final(lex)@, final(d)@, attachment(old(d)@, Ok(old(lex)@))),
        left(final(lex)@) <= left(old(lex)@),
{
    let name: String = match read_word(lex) {
        Ok(v) => v,
        Err(e) => {
            return Err(e);
        },
    };
    let bone: String = match read_word(lex) {
        Ok(v) => v,
        Err(e) => {
            return Err(e);
        },
    };
    let position: Vector = match v3(lex) {
        Ok(v) => v,
        Err(e) => {
            return Err(e);
        },
    };
    let options: (i32, Vector, bool) = match read_attachment_options(lex) {
        Ok(v) => v,
        Err(e) => {
            return Err(e);
        },
    };
    let a: Attachment = Attachment {
        name,
        bone,
        position,
        rotation: options.1,
        flags: options.0,
    };
    d.desc.attachments.push(a);
    d.attachment_absolute.push(options.2);
    Ok(())
}

/// The set of boxes named.
pub open spec fn hboxset(d: ScriptView, s: At) -> (ScriptView, At) {
    let (t, s) = word(s);
    (ScriptView { desc: ModelDescView { hitbox_set: Some(t), ..d.desc }, ..d }, s)
}

/// Names the set of boxes.
pub fn cmd_hboxset(lex: &mut Lexer, d: &mut Script) -> (r: Result<(), QcError>)
    requires
        old(lex).wf(),
    ensures
        final(lex).wf(),
        obeyed(r, final(lex)@, final(d)@, hboxset(old(d)@, Ok(old(lex)@))),
        left(final(lex)@) <= left(old(lex)@),
{
    let t: String = match read_word(lex) {
        Ok(v) => v,
        Err(e) => {
            return Err(e);
        },
    };
    d.desc.hitbox_set = Some(t);
    Ok(())
}

/// A box that is hit.
pub open spec fn hbox(d: ScriptView, s: At) -> (ScriptView, At) {
    let (group, s) = int_on(s);
    let (bone, s) = word(s);
    let (bbmin, s) = vector(s);
    let (bbmax, s) = vector(s);
    let named = more(s);
    let (text, s) = if named {
        word(s)
    } else {
        (Seq::empty(), s)
    };
    let name = if named {
        Some(text)
    } else {
        None
    };
    (
        ScriptView {
            desc: ModelDescView {
                hitboxes: d.desc.hitboxes.push(HitboxView { bone, group, bbmin, bbmax, name }),
                ..d.desc
            },
            ..d
        },
        s,
    )
}

/// Adds a box that is hit.
pub fn cmd_hbox(lex: &mut Lexer, d: &mut Script) -> (r: Result<(), QcError>)
    requires
        old(lex).wf(),
    ensures
        final(lex).wf(),
        obeyed(r, final(lex)@, final(d)@, hbox(old(d)@, Ok(old(lex)@))),
        left(final(lex)@) <= left(old(lex)@),
{
    let group: i32 = match i(lex) {
        Ok(v) => v,
        Err(e) => {
            return Err(e);
        },
    };
    let bone: String = match read_word(lex) {
        Ok(v) => v,
        Err(e) => {
            return Err(e);
        },
    };
    let bbmin: Vector = match v3(lex) {
        Ok(v) => v,
        Err(e) => {
            return Err(e);
        },
    };
    let bbmax: Vector = match v3(lex) {
        Ok(v) => v,
        Err(e) => {
            return Err(e);
        },
    };
    let mut name: Option<String> = None;
    if lex.token_available() {
        name = match read_word(lex) {
            Ok(v) => Some(v),
            Err(e) => {
                return Err(e);
            },
        };
    }
    let b: Hitbox = Hitbox { bone, group, bbmin, bbmax, name };
    d.desc.hitboxes.push(b);
    Ok(())
}

/// The first chain with the given name, in any ASCII case, from `i` on.
pub open spec fn find_chain(list: Seq<IkChainView>, name: Seq<char>, i: int) -> Option<int>
    decreases list.len() - i,
{
    if i < 0 || i >= list.len() {
        None
    } else if lower(list[i].name) == lower(name) {
        Some(i)
    } else {
        find_chain(list, name, i + 1)
    }
}

/// The first chain with the given name, in any ASCII case.
pub fn chain_index(list: &Vec<IkChain>, name: &str) -> (r: Option<usize>)
    ensures
        match r {
            Some(i) => i < list@.len() && find_chain(viewed(list@), name@, 0) == Some(i as int),
            None => find_chain(viewed(list@), name@, 0) is None,
        },
{
    let mut i: usize = 0;
    while i < list.len()
        invariant
            i <= list@.len(),
            find_chain(viewed(list@), name@, i as int) == find_chain(viewed(list@), name@, 0),
        decreases list@.len() - i,
    {
        assert(viewed(list@)[i as int] == list@[i as int]@);
        if same_but_case(list[i].name.as_str(), name) {
            return Some(i);
        }
        i = i + 1;
    }
    None
}

/// Where the knee points.
pub open spec fn chain_options(knee: Option<Vector>, s: At) -> (Option<Vector>, At)
    decreases left_at(s),
{
    if !more(s) {
        (knee, s)
    } else {
        let (t, n) = token(s, false);
        let low = lower(t.text);
        let (knee, n) = if low == "knee"@ {
            let (v, n) = vector(n);
            (Some(v), n)
        } else if low == "height"@ || low == "pad"@ || low == "floor"@ {
            (knee, num(n).1)
        } else if low == "center"@ {
            (knee, vector(n).1)
        } else {
            (knee, fail_at(n, t, around("未知的 $ikchain 选项 "@, low, ""@)))
        };
        if went_on(n, s) {
            chain_options(knee, n)
        } else {
            (knee, n)
        }
    }
}

/// A chain of bones. A chain with a name that is known is left out.
pub open spec fn ikchain(d: ScriptView, s: At) -> (ScriptView, At) {
    let (name, s) = word(s);
    if find_chain(d.desc.ikchains, name, 0) is Some {
        (d, line_skipped(s))
    } else {
        let (bone, s) = word(s);
        let (knee_dir, s) = chain_options(None, s);
        (
            ScriptView {
                desc: ModelDescView {
                    ikchains: d.desc.ikchains.push(IkChainView { name, bone, knee_dir }),
                    ..d.desc
                },
                ..d
            },
            s,
        )
    }
}

/// Reads where the knee points.
fn read_chain_options(lex: &mut Lexer) -> (r: Result<Option<Vector>, QcError>)
    requires
        old(lex).wf(),
    ensures
        final(lex).wf(),
        ({
            let (v, s) = chain_options(None, Ok(old(lex)@));
            super::read::gave_value(r, final(lex)@, v, s)
        }),
        left(final(lex)@) <= left(old(lex)@),
{
    let mut knee: Option<Vector> = None;
    while lex.token_available()
        invariant
            lex.wf(),
            left(lex@) <= left(old(lex)@),
            chain_options(knee, Ok(lex@)) == chain_options(None, Ok(old(lex)@)),
        decreases left(lex@),
    {
        let t: Token = match tok(lex, false) {
            Ok(v) => v,
            Err(e) => {
                return Err(e);
            },
        };
        let low: String = lowered(t.text.as_str());
        if same(low.as_str(), "knee") {
            knee = match v3(lex) {
                Ok(v) => Some(v),
                Err(e) => {
                    return Err(e);
                },
            };
        } else if same(low.as_str(), "height") || same(low.as_str(), "pad") || same(
            low.as_str(),
            "floor",
        ) {
            match f(lex) {
                Ok(_) => {},
                Err(e) => {
                    return Err(e);
                },
            }
        } else if same(low.as_str(), "center") {
            match v3(lex) {
                Ok(_) => {},
                Err(e) => {
                    return Err(e);
                },
            }
        } else {
            return Err(error_for(&t, put_around("未知的 $ikchain 选项 ", low.as_str(), "")));
        }
    }
    Ok(knee)
}

/// Adds a chain of bones.
pub fn cmd_ikchain(lex: &mut Lexer, d: &mut Script) -> (r: Result<(), QcError>)
    requires
        old(lex).wf(),
    ensures
        final(lex).wf(),
        obeyed(r, final(lex)@, final(d)@, ikchain(old(d)@, Ok(old(lex)@))),
        left(final(lex)@) <= left(old(lex)@),
{
    let name: String = match read_word(lex) {
        Ok(v) => v,
        Err(e) => {
            return Err(e);
        },
    };
    if chain_index(&d.desc.ikchains, name.as_str()).is_some() {
        skip_rest_of_line(lex);
        return Ok(());
    }
    let bone: String = match read_word(lex) {
        Ok(v) => v,
        Err(e) => {
            return Err(e);
        },
    };
    let knee_dir: Option<Vector> = match read_chain_options(lex) {
        Ok(v) => v,
        Err(e) => {
            return Err(e);
        },
    };
    d.desc.ikchains.push(IkChain { name, bone, knee_dir });
    Ok(())
}

/// A chain that stays where it is.
pub open spec fn iklock(s: At) -> (IkAutoplayLockView, At) {
    let (chain, s) = word(s);
    let (pos_weight, s) = num(s);
    let (local_q_weight, s) = num(s);
    (IkAutoplayLockView { chain, pos_weight, local_q_weight }, s)
}

/// Reads a chain that stays where it is.
pub fn read_iklock(lex: &mut Lexer) -> (r: Result<IkAutoplayLock, QcError>)
    requires
        old(lex).wf(),
    ensures
        final(lex).wf(),
        ({
            let (v, s) = iklock(Ok(old(lex)@));
            gave(r, final(lex)@, v, s)
        }),
        left(final(lex)@) <= left(old(lex)@),
{
    let chain: String = match read_word(lex) {
        Ok(v) => v,
        Err(e) => {
            return Err(e);
        },
    };
    let pos_weight: u32 = match f(lex) {
        Ok(v) => v,
        Err(e) => {
            return Err(e);
        },
    };
    let local_q_weight: u32 = match f(lex) {
        Ok(v) => v,
        Err(e) => {
            return Err(e);
        },
    };
    Ok(IkAutoplayLock { chain, pos_weight, local_q_weight })
}

/// A chain that stays where it is, in every sequence.
pub open spec fn ikautoplaylock(d: ScriptView, s: At) -> (ScriptView, At) {
    let (lock, s) = iklock(s);
    (
        ScriptView {
            desc: ModelDescView {
                ik_autoplay_locks: d.desc.ik_autoplay_locks.push(lock),
                ..d.desc
            },
            ..d
        },
        s,
    )
}

/// Adds a chain that stays where it is.
pub fn cmd_ikautoplaylock(lex: &mut Lexer, d: &mut Script) -> (r: Result<(), QcError>)
    requires
        old(lex).wf(),
    ensures
        final(lex).wf(),
        obeyed(r, final(lex)@, final(d)@, ikautoplaylock(old(d)@, Ok(old(lex)@))),
        left(final(lex)@) <= left(old(lex)@),
{
    let lock: IkAutoplayLock = match read_iklock(lex) {
        Ok(v) => v,
        Err(e) => {
            return Err(e);
        },
    };
    d.desc.ik_autoplay_locks.push(lock);
    Ok(())
}

/// The path of a model, below the directory of models.
pub open spec fn model_path(name: Seq<char>) -> Seq<char> {
    if begins(forward(name), "models/"@) {
        forward(name)
    } else {
        "models/"@ + forward(name)
    }
}

/// A model whose sequences are taken in.
pub open spec fn joined_model(d: ScriptView, s: At) -> (ScriptView, At) {
    let (t, s) = word(s);
    (
        ScriptView {
            desc: ModelDescView {
                joined_models: d.desc.joined_models.push(model_path(t)),
                ..d.desc
            },
            ..d
        },
        s,
    )
}

/// Adds a model whose sequences are taken in.
pub fn cmd_includemodel(lex: &mut Lexer, d: &mut Script) -> (r: Result<(), QcError>)
    requires
        old(lex).wf(),
    ensures
        final(lex).wf(),
        obeyed(r, final(lex)@, final(d)@, joined_model(old(d)@, Ok(old(lex)@))),
        left(final(lex)@) <= left(old(lex)@),
{
    let t: String = match read_word(lex) {
        Ok(v) => v,
        Err(e) => {
            return Err(e);
        },
    };
    let name: String = turn_slashes(t.as_str());
    if starts(name.as_str(), "models/") {
        d.desc.joined_models.push(name);
    } else {
        let mut full: String = "models/".to_owned();
        full.push_str(name.as_str());
        d.desc.joined_models.push(full);
    }
    Ok(())
}

/// Two names.
pub open spec fn two_words(s: At) -> (PairView, At) {
    let (a, s) = word(s);
    let (b, s) = word(s);
    (PairView { a, b }, s)
}

/// Reads two names.
pub fn read_pair(lex: &mut Lexer) -> (r: Result<Pair, QcError>)
    requires
        old(lex).wf(),
    ensures
        final(lex).wf(),
        ({
            let (v, s) = two_words(Ok(old(lex)@));
            gave(r, final(lex)@, v, s)
        }),
        left(final(lex)@) <= left(old(lex)@),
{
    let a: String = match read_word(lex) {
        Ok(v) => v,
        Err(e) => {
            return Err(e);
        },
    };
    let b: String = match read_word(lex) {
        Ok(v) => v,
        Err(e) => {
            return Err(e);
        },
    };
    Ok(Pair { a, b })
}

/// What a bone is made of.
pub open spec fn jointsurfaceprop(d: ScriptView, s: At) -> (ScriptView, At) {
    let (p, s) = two_words(s);
    (ScriptView { joint_surface_props: d.joint_surface_props.push(p), ..d }, s)
}

/// Notes what a bone is made of.
pub fn cmd_jointsurfaceprop(lex: &mut Lexer, d: &mut Script) -> (r: Result<(), QcError>)
    requires
        old(lex).wf(),
    ensures
        final(lex).wf(),
        obeyed(r, final(lex)@, final(d)@, jointsurfaceprop(old(d)@, Ok(old(lex)@))),
        left(final(lex)@) <= left(old(lex)@),
{
    let p: Pair = match read_pair(lex) {
        Ok(v) => v,
        Err(e) => {
            return Err(e);
        },
    };
    d.joint_surface_props.push(p);
    Ok(())
}

/// The rest of a block left out, from the given depth on.
pub open spec fn block_skipped(depth: int, s: At) -> At
    decreases left_at(s),
{
    if depth <= 0 {
        s
    } else {
        let (t, n) = any_token(s);
        match t {
            None => n,
            Some(t) => if went_on(n, s) {
                block_skipped(
                    if t.text == "{"@ {
                        deeper(depth)
                    } else if t.text == "}"@ {
                        shallower(depth)
                    } else {
                        depth
                    },
                    n,
                )
            } else {
                n
            },
        }
    }
}

/// A command left out: its name, and its block or the rest of the line.
pub open spec fn named_block_skipped(s: At) -> At {
    let s = if more(s) {
        word(s).1
    } else {
        s
    };
    if !more(s) {
        s
    } else {
        let (t, s) = token(s, false);
        if t.text != "{"@ {
            line_skipped(given_back(s, t))
        } else {
            block_skipped(1, s)
        }
    }
}

/// Leaves out a command: its name, and its block or the rest of the line.
pub fn skip_block_with_name(lex: &mut Lexer) -> (r: Result<(), QcError>)
    requires
        old(lex).wf(),
    ensures
        final(lex).wf(),
        obeyed(r, final(lex)@, (), ((), named_block_skipped(Ok(old(lex)@)))),
        left(final(lex)@) <= left(old(lex)@),
{
    if lex.token_available() {
        match read_word(lex) {
            Ok(_) => {},
            Err(e) => {
                return Err(e);
            },
        }
    }
    if !lex.token_available() {
        return Ok(());
    }
    let ghost before = lex@;
    let t: Token = match tok(lex, false) {
        Ok(v) => v,
        Err(e) => {
            return Err(e);
        },
    };
    if !same(t.text.as_str(), "{") {
        proof {
            super::lexer::next_leaves_less(before, false);
        }
        lex.unget(t);
        skip_rest_of_line(lex);
        return Ok(());
    }
    let mut depth: i32 = 1;
    while depth > 0
        invariant
            lex.wf(),
            left(lex@) <= left(old(lex)@),
            block_skipped(depth as int, Ok(lex@)) == named_block_skipped(Ok(old(lex)@)),
        decreases left(lex@),
    {
        let next: Option<Token> = match lex.next_token(true) {
            Ok(t) => t,
            Err(e) => {
                return Err(e);
            },
        };
        match next {
            None => {
                return Ok(());
            },
            Some(t) => {
                if same(t.text.as_str(), "{") {
                    depth = into(depth);
                } else if same(t.text.as_str(), "}") {
                    depth = out_of(depth);
                }
            },
        }
    }
    Ok(())
}

} // verus!
