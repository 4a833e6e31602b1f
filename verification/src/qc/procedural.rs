//! Bones that follow other bones.
use vstd::prelude::*;

use super::error::QcError;
use super::lexer::{find_source, join, join_path, left, source_views, Lexer, Source, Token};
use super::model::{
    ModelDescView, QuatInterpBone, QuatInterpBoneView, QuatInterpTrigger, Script, ScriptView,
    Vector,
};
use super::read::{error_for, fail_at, obeyed, tok, token, At};
use super::settings::{resolve_src, resolved};
use crate::seqs::{viewed, viewing};
use crate::single::{parse, reading};
use crate::text::{chars_of, lower, lowered, same, utf8_text};
use crate::words::{before_slashes, lines, slashes_at, split_lines, split_words, views, words};

verus! {

broadcast use viewing;

/// A carriage return as the end of a line.
pub open spec fn with_line_ends(s: Seq<char>) -> Seq<char> {
    Seq::new(
        s.len(),
        |i: int|
            if s[i] == '\r' {
                '\n'
            } else {
                s[i]
            },
    )
}

/// A text with each carriage return as the end of a line.
fn end_lines(s: &str) -> (r: String)
    ensures
        r@ == with_line_ends(s@),
{
    let c: Vec<char> = chars_of(s);
    let mut out: String = String::new();
    let mut i: usize = 0;
    while i < c.len()
        invariant
            i <= c@.len(),
            c@ == s@,
            out@ == with_line_ends(s@).take(i as int),
        decreases c@.len() - i,
    {
        if c[i] == '\r' {
            out.push('\n');
        } else {
            out.push(c[i]);
        }
        i = i + 1;
        assert(out@ =~= with_line_ends(s@).take(i as int));
    }
    assert(out@ =~= with_line_ends(s@));
    out
}

/// The numbers among the words from `k` on; other words are left out.
pub open spec fn numbers_from(w: Seq<Seq<char>>, k: int) -> Seq<u32>
    decreases w.len() - k,
{
    if k < 0 || k >= w.len() {
        Seq::empty()
    } else {
        match reading(w[k]) {
            Some(v) => seq![v] + numbers_from(w, k + 1),
            None => numbers_from(w, k + 1),
        }
    }
}

/// The numbers among the words behind the first.
fn read_numbers(w: &Vec<String>) -> (r: Vec<u32>)
    ensures
        r@ == numbers_from(views(w@), 1),
{
    let mut out: Vec<u32> = Vec::new();
    let mut k: usize = 1;
    if w.len() == 0 {
        return out;
    }
    assert(out@ + numbers_from(views(w@), 1) =~= numbers_from(views(w@), 1));
    while k < w.len()
        invariant
            1 <= k <= w@.len(),
            out@ + numbers_from(views(w@), k as int) == numbers_from(views(w@), 1),
        decreases w@.len() - k,
    {
        let ghost before = out@;
        let ghost rest = numbers_from(views(w@), k + 1);
        assert(views(w@)[k as int] == w@[k as int]@);
        match parse(w[k].as_str()) {
            Some(v) => {
                out.push(v);
                assert(before + (seq![v] + rest) =~= out@ + rest);
            },
            None => {},
        }
        k = k + 1;
    }
    assert(out@ + numbers_from(views(w@), k as int) =~= out@);
    out
}

/// A bone with its pose given by numbers.
pub open spec fn with_trigger(b: QuatInterpBoneView, v: Seq<u32>) -> QuatInterpBoneView {
    if v.len() < 7 {
        b
    } else {
        QuatInterpBoneView {
            triggers: b.triggers.push(
                QuatInterpTrigger {
                    tolerance: v[0],
                    trigger: Vector { x: v[1], y: v[2], z: v[3] },
                    angles: Vector { x: v[4], y: v[5], z: v[6] },
                    pos: if v.len() >= 10 {
                        Some(Vector { x: v[7], y: v[8], z: v[9] })
                    } else {
                        None
                    },
                },
            ),
            ..b
        }
    }
}

/// A bone with its place given by numbers.
pub open spec fn with_base(b: QuatInterpBoneView, v: Seq<u32>) -> QuatInterpBoneView {
    if v.len() < 3 {
        b
    } else {
        QuatInterpBoneView { base_pos: Some(Vector { x: v[0], y: v[1], z: v[2] }), ..b }
    }
}

/// The `k`-th word, or nothing.
pub open spec fn word_at(w: Seq<Seq<char>>, k: int) -> Seq<char> {
    if 0 <= k < w.len() {
        w[k]
    } else {
        Seq::empty()
    }
}

/// The bones that are done, and the one that is being described.
pub struct Following {
    /// The bones that are done.
    pub done: Seq<QuatInterpBoneView>,
    /// The one that is being described.
    pub cur: Option<QuatInterpBoneView>,
}

/// All the bones.
pub open spec fn all_of(f: Following) -> Seq<QuatInterpBoneView> {
    match f.cur {
        Some(b) => f.done.push(b),
        None => f.done,
    }
}

/// The bones after one more line.
pub open spec fn with_line(f: Following, line: Seq<char>) -> Following {
    let w = words(line.take(slashes_at(line, 0)));
    if w.len() == 0 {
        f
    } else {
        let key = lower(w[0]);
        if key == "bone"@ {
            Following {
                done: all_of(f),
                cur: Some(
                    QuatInterpBoneView {
                        bone: word_at(w, 1),
                        control: word_at(w, 2),
                        base_pos: None,
                        triggers: Seq::empty(),
                    },
                ),
            }
        } else {
            match f.cur {
                None => f,
                Some(b) => if key == "basepos"@ || key == "base_pos"@ {
                    Following { cur: Some(with_base(b, numbers_from(w, 1))), ..f }
                } else if key == "trigger"@ {
                    Following { cur: Some(with_trigger(b, numbers_from(w, 1))), ..f }
                } else {
                    f
                },
            }
        }
    }
}

/// The bones after the lines from `k` on.
pub open spec fn with_lines(f: Following, lines: Seq<Seq<char>>, k: int) -> Following
    decreases lines.len() - k,
{
    if k < 0 || k >= lines.len() {
        f
    } else {
        with_lines(with_line(f, lines[k]), lines, k + 1)
    }
}

/// The bones that a text describes.
pub open spec fn following(text: Seq<char>) -> Seq<QuatInterpBoneView> {
    all_of(
        with_lines(Following { done: Seq::empty(), cur: None }, lines(with_line_ends(text)), 0),
    )
}

/// The bones that are done, and the one that is being described.
struct Reader {
    /// The bones that are done.
    done: Vec<QuatInterpBone>,
    /// The one that is being described.
    cur: Option<QuatInterpBone>,
}

impl View for Reader {
    type V = Following;

    closed spec fn view(&self) -> Following {
        Following {
            done: viewed(self.done@),
            cur: match self.cur {
                Some(b) => Some(b@),
                None => None,
            },
        }
    }
}

/// Takes the `k`-th word, or nothing.
fn take_word(w: &Vec<String>, k: usize) -> (r: String)
    ensures
        r@ == word_at(views(w@), k as int),
{
    if k < w.len() {
        w[k].clone()
    } else {
        let r: String = String::new();
        assert(r@ =~= Seq::empty());
        r
    }
}

/// Reads one more line.
fn read_line(f: &mut Reader, line: &str)
    ensures
        final(f)@ == with_line(old(f)@, line@),
{
    let w: Vec<String> = split_words(before_slashes(line).as_str());
    if w.len() == 0 {
        return;
    }
    assert(views(w@)[0] == w@[0]@);
    let key: String = lowered(w[0].as_str());
    if same(key.as_str(), "bone") {
        if let Some(b) = f.cur.take() {
            f.done.push(b);
        }
        f.cur = Some(
            QuatInterpBone {
                bone: take_word(&w, 1),
                control: take_word(&w, 2),
                base_pos: None,
                triggers: Vec::new(),
            },
        );
    } else if let Some(mut b) = f.cur.take() {
        if same(key.as_str(), "basepos") || same(key.as_str(), "base_pos") {
            let v: Vec<u32> = read_numbers(&w);
            if v.len() >= 3 {
                b.base_pos = Some(Vector { x: v[0], y: v[1], z: v[2] });
            }
        } else if same(key.as_str(), "trigger") {
            let v: Vec<u32> = read_numbers(&w);
            if v.len() >= 7 {
                let pos: Option<Vector> = if v.len() >= 10 {
                    Some(Vector { x: v[7], y: v[8], z: v[9] })
                } else {
                    None
                };
                b.triggers.push(
                    QuatInterpTrigger {
                        tolerance: v[0],
                        trigger: Vector { x: v[1], y: v[2], z: v[3] },
                        angles: Vector { x: v[4], y: v[5], z: v[6] },
                        pos,
                    },
                );
            }
        }
        f.cur = Some(b);
    }
}

/// Reads the bones that a text describes: a line `bone` starts one, lines `basepos` and `trigger`
/// add to it, and other lines say nothing.
pub fn parse_vrd(text: &str) -> (r: Vec<QuatInterpBone>)
    ensures
        viewed(r@) == following(text@),
{
    let list: Vec<String> = split_lines(end_lines(text).as_str());
    let mut f: Reader = Reader { done: Vec::new(), cur: None };
    let mut k: usize = 0;
    assert(f@.done =~= Seq::empty());
    while k < list.len()
        invariant
            k <= list@.len(),
            views(list@) == lines(with_line_ends(text@)),
            with_lines(f@, views(list@), k as int) == with_lines(
                Following { done: Seq::empty(), cur: None },
                views(list@),
                0,
            ),
        decreases list@.len() - k,
    {
        assert(views(list@)[k as int] == list@[k as int]@);
        read_line(&mut f, list[k].as_str());
        k = k + 1;
    }
    let mut done: Vec<QuatInterpBone> = f.done;
    if let Some(b) = f.cur {
        done.push(b);
    }
    done
}

/// The first file with the given path.
pub fn source_index(sources: &Vec<Source>, path: &str) -> (r: Option<usize>)
    ensures
        match r {
            Some(i) => i < sources@.len() && find_source(source_views(sources@), path@, 0) == Some(
                i as int,
            ),
            None => find_source(source_views(sources@), path@, 0) is None,
        },
{
    let mut i: usize = 0;
    while i < sources.len()
        invariant
            i <= sources@.len(),
            find_source(source_views(sources@), path@, i as int) == find_source(
                source_views(sources@),
                path@,
                0,
            ),
        decreases sources@.len() - i,
    {
        assert(source_views(sources@)[i as int] == sources@[i as int]@);
        if same(sources[i].path.as_str(), path) {
            return Some(i);
        }
        i = i + 1;
    }
    None
}

/// Bones that follow other bones, out of a file. A file that is not there has none; one that is
/// there and cannot be read is an error.
pub open spec fn proceduralbones(d: ScriptView, s: At) -> (ScriptView, At) {
    let (t, s) = token(s, false);
    match s {
        Err(e) => (d, Err(e)),
        Ok(st) => {
            let path = join(st.qdir, resolved(d, t.text));
            match find_source(st.sources, path, 0) {
                None => (ScriptView { missing_files: d.missing_files.push(path), ..d }, s),
                Some(i) => {
                    let bytes = st.sources[i].bytes;
                    if let Some(f) = st.sources[i].failure {
                        if f.missing {
                            (ScriptView { missing_files: d.missing_files.push(path), ..d }, s)
                        } else {
                            (d, fail_at(s, t, "读不到 VRD "@ + path + "："@ + f.reason))
                        }
                    } else if !vstd::utf8::valid_utf8(bytes) {
                        (
                            d,
                            fail_at(
                                s,
                                t,
                                "读不到 VRD "@ + path + "：stream did not contain valid UTF-8"@,
                            ),
                        )
                    } else {
                        (
                            ScriptView {
                                desc: ModelDescView {
                                    quat_interp_bones: d.desc.quat_interp_bones + following(
                                        vstd::utf8::decode_utf8(bytes),
                                    ),
                                    ..d.desc
                                },
                                ..d
                            },
                            s,
                        )
                    }
                },
            }
        },
    }
}

/// Puts bones behind others.
fn put_bones(list: &mut Vec<QuatInterpBone>, more: Vec<QuatInterpBone>)
    ensures
        viewed(final(list)@) == viewed(old(list)@) + viewed(more@),
{
    let mut more: Vec<QuatInterpBone> = more;
    let ghost a = list@;
    let ghost b = more@;
    list.append(&mut more);
    assert(viewed(list@) =~= viewed(a) + viewed(b));
}

/// Adds bones that follow other bones, out of a file.
pub fn cmd_proceduralbones(lex: &mut Lexer, d: &mut Script) -> (r: Result<(), QcError>)
    requires
        old(lex).wf(),
    ensures
        final(lex).wf(),
        obeyed(r, final(lex)@, final(d)@, proceduralbones(old(d)@, Ok(old(lex)@))),
        left(final(lex)@) <= left(old(lex)@),
{
    let t: Token = match tok(lex, false) {
        Ok(v) => v,
        Err(e) => {
            return Err(e);
        },
    };
    let path: String = join_path(lex.qdir.as_str(), resolve_src(d, t.text.as_str()).as_str());
    match source_index(&lex.sources, path.as_str()) {
        None => {
            d.missing_files.push(path);
            Ok(())
        },
        Some(i) => {
            assert(lex@.sources[i as int] == lex.sources@[i as int]@);
            if let Some(f) = &lex.sources[i].failure {
                if f.missing {
                    d.missing_files.push(path);
                    return Ok(());
                }
                let mut m: String = "读不到 VRD ".to_owned();
                m.push_str(path.as_str());
                m.push_str("：");
                m.push_str(f.reason.as_str());
                return Err(error_for(&t, m));
            }
            match utf8_text(lex.sources[i].bytes.as_slice()) {
                Err(_) => {
                    let mut m: String = "读不到 VRD ".to_owned();
                    m.push_str(path.as_str());
                    m.push_str("：stream did not contain valid UTF-8");
                    Err(error_for(&t, m))
                },
                Ok(text) => {
                    put_bones(&mut d.desc.quat_interp_bones, parse_vrd(text.as_str()));
                    Ok(())
                },
            }
        },
    }
}

} // verus!
