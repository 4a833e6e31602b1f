//! How the text of a script falls into tokens.
use vstd::prelude::*;
use vstd::utf8::encode_utf8;

use super::error::ErrorView;
use super::lexer::{
    bare_letters, block_end, call_macro, called, feed, find_name, find_source, find_variable, join,
    line_end, moved, name_end, next, obey, skip, sound, sound_with, FrameView, Letters, LexState,
    MacroView, Skip, SourceView, Step, TokenView, VariableView, WaitView, MAX_TOKEN,
};
use crate::text::lower;

verus! {

/// Blanks are passed over.
proof fn blanks_are_passed(buf: Seq<u8>, p: int, a: int, line: nat, cross: bool)
    requires
        0 <= p <= a <= buf.len(),
        forall|i: int| p <= i < a ==> #[trigger] buf[i] <= 32 && buf[i] != 0x0A,
    ensures
        skip(buf, p, line, cross) == skip(buf, a, line, cross),
    decreases a - p,
{
    if p < a {
        blanks_are_passed(buf, p + 1, a, line, cross);
    }
}

/// The end of a name that goes on to `b`.
proof fn name_goes_on(buf: Seq<u8>, p: int, b: int)
    requires
        0 <= p <= b <= buf.len(),
        forall|i: int| p <= i < b ==> #[trigger] buf[i] > 32 && buf[i] != 0x24,
        b < buf.len() ==> buf[b] <= 32 || buf[b] == 0x24,
    ensures
        name_end(buf, p) == b,
    decreases b - p,
{
    if p < b {
        name_goes_on(buf, p + 1, b);
    }
}

/// The letters of a word that goes on to `b`.
proof fn letters_go_on(f: FrameView, vars: Seq<VariableView>, a: int, p: int, b: int)
    requires
        0 <= a <= p <= b <= f.buf.len(),
        b - a <= MAX_TOKEN,
        forall|i: int|
            a <= i < b ==> #[trigger] f.buf[i] > 32 && f.buf[i] != 0x3B && (i > a ==> f.buf[i]
                != 0x24),
        b < f.buf.len() ==> f.buf[b] <= 32,
    ensures
        bare_letters(f, vars, p, f.buf.subrange(a, p)) == (Letters::Done {
            text: f.buf.subrange(a, b),
            pos: b,
        }),
    decreases b - p,
{
    if p < b {
        name_goes_on(f.buf, p + 1, b);
        assert(f.buf.subrange(a, p).push(f.buf[p]) =~= f.buf.subrange(a, p + 1));
        letters_go_on(f, vars, a, p + 1, b);
    }
}

/// A word between blanks is a token: it holds the word, letter for letter, and the place where it
/// stands, and reading goes on right behind it.
pub proof fn words_are_tokens(st: LexState, x: Seq<char>, a: int, b: int, cross: bool)
    requires
        sound(st),
        st.pending is None,
        st.stack.len() > 0,
        ({
            let f = st.stack.last();
            &&& f.pos <= a < b <= f.buf.len()
            &&& b - a <= MAX_TOKEN
            &&& forall|i: int| f.pos <= i < a ==> #[trigger] f.buf[i] <= 32 && f.buf[i] != 0x0A
            &&& f.buf.subrange(a, b) == encode_utf8(x)
            &&& forall|i: int|
                a <= i < b ==> #[trigger] f.buf[i] > 32 && f.buf[i] != 0x3B && (i > a ==> f.buf[i]
                    != 0x24)
            &&& f.buf[a] != 0x22 && f.buf[a] != 0x23 && f.buf[a] != 0x2F
            &&& b < f.buf.len() ==> f.buf[b] <= 32
        }),
        lower(x) != lower("$include"@),
        lower(x) != lower("$definemacro"@),
        lower(x) != lower("$definevariable"@),
        called(st.macros, x) is None,
    ensures
        next(st, cross) == (
            Ok::<Option<TokenView>, ErrorView>(
                Some(
                    TokenView {
                        text: x,
                        quoted: false,
                        file: st.stack.last().name,
                        line: st.stack.last().line,
                    },
                ),
            ),
            moved(st, b, st.stack.last().line),
        ),
{
    let f = st.stack.last();
    assert(super::lexer::frame_sound(st.stack[st.stack.len() - 1], st.longest));
    let none = Seq::<WaitView>::empty();
    blanks_are_passed(f.buf, f.pos, a, f.line, cross);
    letters_go_on(f, st.variables, a, a, b);
    assert(f.buf.subrange(a, a) =~= Seq::empty());
    vstd::utf8::encode_utf8_valid_utf8(x);
    vstd::utf8::encode_utf8_decode_utf8(x);
    assert(sound_with(st, none));
}

/// A text between quotes is a token, blanks and all.
pub proof fn quoted_texts_are_tokens(st: LexState, x: Seq<char>, a: int, b: int, cross: bool)
    requires
        sound(st),
        st.pending is None,
        st.stack.len() > 0,
        ({
            let f = st.stack.last();
            &&& f.pos <= a < b < f.buf.len()
            &&& b - a <= MAX_TOKEN
            &&& forall|i: int| f.pos <= i < a ==> #[trigger] f.buf[i] <= 32 && f.buf[i] != 0x0A
            &&& f.buf[a] == 0x22 && f.buf[b] == 0x22
            &&& f.buf.subrange(a + 1, b) == encode_utf8(x)
            &&& forall|i: int| a < i < b ==> #[trigger] f.buf[i] != 0x22
        }),
        lower(x) != lower("$include"@),
        lower(x) != lower("$definemacro"@),
        lower(x) != lower("$definevariable"@),
        called(st.macros, x) is None,
    ensures
        next(st, cross) == (
            Ok::<Option<TokenView>, ErrorView>(
                Some(
                    TokenView {
                        text: x,
                        quoted: true,
                        file: st.stack.last().name,
                        line: st.stack.last().line,
                    },
                ),
            ),
            moved(st, b + 1, st.stack.last().line),
        ),
{
    let f = st.stack.last();
    assert(super::lexer::frame_sound(st.stack[st.stack.len() - 1], st.longest));
    let none = Seq::<WaitView>::empty();
    blanks_are_passed(f.buf, f.pos, a, f.line, cross);
    quote_goes_on(f.buf, a + 1, b);
    vstd::utf8::encode_utf8_valid_utf8(x);
    vstd::utf8::encode_utf8_decode_utf8(x);
    assert(sound_with(st, none));
}

proof fn quote_goes_on(buf: Seq<u8>, p: int, b: int)
    requires
        0 <= p <= b < buf.len(),
        forall|i: int| p <= i < b ==> #[trigger] buf[i] != 0x22,
        buf[b] == 0x22,
    ensures
        super::lexer::quote_end(buf, p) == b,
    decreases b - p,
{
    if p < b {
        quote_goes_on(buf, p + 1, b);
    }
}

proof fn line_goes_on(buf: Seq<u8>, p: int, e: int)
    requires
        0 <= p <= e < buf.len(),
        forall|i: int| p <= i < e ==> #[trigger] buf[i] != 0x0A,
        buf[e] == 0x0A,
    ensures
        line_end(buf, p) == e,
    decreases e - p,
{
    if p < e {
        line_goes_on(buf, p + 1, e);
    }
}

/// Where tokens may stand on further lines, a remark behind `;`, `#` or `//` is passed over up to
/// the end of its line, and the line is counted.
pub proof fn remarks_end_with_their_line(buf: Seq<u8>, p: int, e: int, line: nat)
    requires
        0 <= p < e < buf.len(),
        buf[p] == 0x3B || buf[p] == 0x23 || (buf[p] == 0x2F && buf[p + 1] == 0x2F),
        forall|i: int| p <= i < e ==> #[trigger] buf[i] != 0x0A,
        buf[e] == 0x0A,
        line < usize::MAX,
    ensures
        skip(buf, p, line, true) == skip(buf, e + 1, line + 1, true),
        skip(buf, e, line, true) == skip(buf, e + 1, line + 1, true),
        skip(buf, p, line, false) == (Skip::Comment { pos: p, line }),
{
    line_goes_on(buf, p, e);
}

proof fn block_goes_on(buf: Seq<u8>, p: int, e: int, line: nat)
    requires
        0 <= p <= e,
        e + 1 < buf.len(),
        forall|i: int|
            p <= i < e ==> #[trigger] buf[i] != 0x0A && !(buf[i] == 0x2A && buf[i + 1] == 0x2F),
        buf[e] == 0x2A,
        buf[e + 1] == 0x2F,
    ensures
        block_end(buf, p, line) == (Some(e + 2), line),
    decreases e - p,
{
    if p < e {
        block_goes_on(buf, p + 1, e, line);
    }
}

/// A remark between `/*` and `*/` is passed over, wherever it stands.
pub proof fn remarks_end_with_their_mark(buf: Seq<u8>, p: int, e: int, line: nat, cross: bool)
    requires
        0 <= p,
        p + 2 <= e,
        e + 1 < buf.len(),
        buf[p] == 0x2F && buf[p + 1] == 0x2A,
        forall|i: int|
            p + 2 <= i < e ==> #[trigger] buf[i] != 0x0A && !(buf[i] == 0x2A && buf[i + 1]
                == 0x2F),
        buf[e] == 0x2A,
        buf[e + 1] == 0x2F,
    ensures
        skip(buf, p, line, cross) == skip(buf, e + 2, line, cross),
{
    block_goes_on(buf, p + 2, e, line);
}

/// A parameter of a macro between dollar signs stands for the value that the call gives it.
pub proof fn parameters_stand_for_values(
    f: FrameView,
    vars: Seq<VariableView>,
    x: Seq<char>,
    p: int,
    b: int,
    i: int,
)
    requires
        0 <= p,
        p + 1 < b,
        b < f.buf.len(),
        f.buf[p] == 0x24 && f.buf[b] == 0x24,
        forall|k: int| p < k < b ==> #[trigger] f.buf[k] > 32 && f.buf[k] != 0x24,
        b + 1 < f.buf.len() ==> f.buf[b + 1] <= 32,
        f.buf.subrange(p + 1, b) == encode_utf8(x),
        0 <= i < f.params.len(),
        f.values.len() == f.params.len(),
        lower(f.params[i]) == lower(x),
        forall|k: int| 0 <= k < i ==> lower(#[trigger] f.params[k]) != lower(x),
    ensures
        bare_letters(f, vars, p, Seq::empty()) == (Letters::Done {
            text: encode_utf8(f.values[i]),
            pos: b + 1,
        }),
{
    name_goes_on(f.buf, p + 1, b);
    vstd::utf8::encode_utf8_valid_utf8(x);
    vstd::utf8::encode_utf8_decode_utf8(x);
    parameter_found(f.params, x, 0, i);
    let v = encode_utf8(f.values[i]);
    assert(Seq::<u8>::empty() + v =~= v);
    reveal_with_fuel(bare_letters, 3);
}

proof fn parameter_found(names: Seq<Seq<char>>, x: Seq<char>, k: int, i: int)
    requires
        0 <= k <= i < names.len(),
        lower(names[i]) == lower(x),
        forall|j: int| k <= j < i ==> lower(#[trigger] names[j]) != lower(x),
    ensures
        find_name(names, x, k) == Some(i),
    decreases i - k,
{
    if k < i {
        parameter_found(names, x, k + 1, i);
    }
}

/// Paths are taken from the directory of the script, but for those from the root.
pub proof fn paths_start_at_the_directory(dir: Seq<char>, path: Seq<char>)
    requires
        dir.len() > 0,
        dir.last() != '/',
        path.len() > 0,
    ensures
        path[0] != '/' ==> join(dir, path) == dir + seq!['/'] + path,
        path[0] == '/' ==> join(dir, path) == path,
        join(Seq::empty(), path) == path,
{
    assert(dir.push('/') + path =~= dir + seq!['/'] + path);
}

/// `$definevariable <name> <value>` adds a variable with that name and that value behind those
/// before it, and reading goes on behind the value.
pub proof fn variables_are_defined(
    st: LexState,
    waits: Seq<WaitView>,
    t: TokenView,
    x: TokenView,
    y: TokenView,
)
    requires
        lower(t.text) == lower("$definevariable"@),
    ensures
        ({
            let one = obey(st, waits, t);
            &&& one matches Step::Go { st: a, waits: v } && a == st && v.len() == waits.len() + 1 && (
            feed(st, v, x) matches Step::Go { st: b, waits: u } && b == st && u.len() == waits.len()
                + 1 && feed(st, u, y) == (Step::Go {
                st: LexState {
                    variables: st.variables.push(VariableView { param: x.text, value: y.text }),
                    ..st
                },
                waits,
            }))
        }),
{
    assert("$include"@.len() == 8 && "$definemacro"@.len() == 12 && "$definevariable"@.len() == 15)
        by {
        reveal_strlit("$include");
        reveal_strlit("$definemacro");
        reveal_strlit("$definevariable");
    }
    assert(lower("$include"@).len() == 8 && lower("$definemacro"@).len() == 12 && lower(
        "$definevariable"@,
    ).len() == 15);
    let v = waits.push(WaitView::VariableName);
    assert(v.drop_last() =~= waits);
    let u = waits.push(WaitView::VariableValue { name: x.text });
    assert(u.drop_last() =~= waits);
}

/// A variable between dollar signs stands for its value.
pub proof fn variables_stand_for_values(
    f: FrameView,
    v: VariableView,
    p: int,
    b: int,
)
    requires
        f.params.len() == 0,
        0 <= p,
        p + 1 < b,
        b < f.buf.len(),
        f.buf[p] == 0x24 && f.buf[b] == 0x24,
        forall|k: int| p < k < b ==> #[trigger] f.buf[k] > 32 && f.buf[k] != 0x24,
        b + 1 < f.buf.len() ==> f.buf[b + 1] <= 32,
        f.buf.subrange(p + 1, b) == encode_utf8(v.param),
    ensures
        bare_letters(f, seq![v], p, Seq::empty()) == (Letters::Done {
            text: encode_utf8(v.value),
            pos: b + 1,
        }),
{
    name_goes_on(f.buf, p + 1, b);
    vstd::utf8::encode_utf8_valid_utf8(v.param);
    vstd::utf8::encode_utf8_decode_utf8(v.param);
    assert(find_variable(seq![v], v.param, 0) == Some(0int));
    let x = encode_utf8(v.value);
    assert(Seq::<u8>::empty() + x =~= x);
    reveal_with_fuel(bare_letters, 3);
}

/// A file that a script takes in is read in place: from its first byte, on its first line, under its
/// path from the directory of the script.
pub proof fn files_are_read_in_place(st: LexState, waits: Seq<WaitView>, t: TokenView, i: int)
    requires
        st.stack.len() + 1 < 16,
        0 <= i < st.sources.len(),
        st.sources[i].path == join(st.qdir, t.text),
        st.sources[i].failure is None,
        forall|k: int| 0 <= k < i ==> (#[trigger] st.sources[k]).path != st.sources[i].path,
        st.sources[i].bytes.len() == 0 || st.sources[i].bytes[0] != 0xEF,
    ensures
        feed(st, waits.push(WaitView::FileName), t) == (Step::Go {
            st: LexState {
                stack: st.stack.push(
                    FrameView {
                        name: st.sources[i].path,
                        buf: st.sources[i].bytes,
                        pos: 0,
                        line: 1,
                        params: Seq::empty(),
                        values: Seq::empty(),
                    },
                ),
                loaded: st.loaded.push(st.sources[i].path),
                ..st
            },
            waits,
        }),
{
    source_is_found(st.sources, st.sources[i].path, 0, i);
    assert(waits.push(WaitView::FileName).drop_last() =~= waits);
}

proof fn source_is_found(sources: Seq<SourceView>, path: Seq<char>, k: int, i: int)
    requires
        0 <= k <= i < sources.len(),
        sources[i].path == path,
        forall|j: int| k <= j < i ==> (#[trigger] sources[j]).path != path,
    ensures
        find_source(sources, path, k) == Some(i),
    decreases i - k,
{
    if k < i {
        source_is_found(sources, path, k + 1, i);
    }
}

/// A macro that is called has its body read in place, with the values of the call, in order, for its
/// parameters.
pub proof fn macros_are_read_in_place(
    st: LexState,
    waits: Seq<WaitView>,
    text: Seq<char>,
    m: MacroView,
    x: TokenView,
    y: TokenView,
)
    requires
        st.stack.len() + 1 < 16,
        m.body.len() == 0 || m.body[0] != 0xEF,
    ensures
        m.params.len() == 0 ==> call_macro(st, waits, text, m) == (Step::Go {
            st: LexState {
                stack: st.stack.push(
                    FrameView {
                        name: text,
                        buf: m.body,
                        pos: 0,
                        line: m.line,
                        params: m.params,
                        values: Seq::empty(),
                    },
                ),
                ..st
            },
            waits,
        }),
        m.params.len() == 2 ==> (call_macro(st, waits, text, m) matches Step::Go { st: a, waits: v }
            && a == st && (feed(st, v, x) matches Step::Go { st: b, waits: u } && b == st && feed(
            st,
            u,
            y,
        ) == (Step::Go {
            st: LexState {
                stack: st.stack.push(
                    FrameView {
                        name: text,
                        buf: m.body,
                        pos: 0,
                        line: m.line,
                        params: m.params,
                        values: seq![x.text, y.text],
                    },
                ),
                ..st
            },
            waits,
        }))),
{
    let none = Seq::<Seq<char>>::empty();
    let w = |values: Seq<Seq<char>>|
        WaitView::Values {
            text,
            params: m.params,
            body: m.body,
            line: m.line,
            values,
            level: st.stack.len(),
        };
    assert(waits.push(w(none)).drop_last() =~= waits);
    assert(waits.push(w(none.push(x.text))).drop_last() =~= waits);
    assert(none.push(x.text).push(y.text) =~= seq![x.text, y.text]);
}

} // verus!
