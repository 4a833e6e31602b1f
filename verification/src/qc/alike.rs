//! Lexers that have the same text before them read the same.
use vstd::prelude::*;

use super::error::ErrorView;
use super::flexrule::{
    confirmation, fetched, first_byte, infix, is_percent, next_piece, next_piece_leaves_less,
    operation, split, Names, OpView, MAX_OPS,
};
use super::lexer::{
    add_macro, available, bare_letters, block_end, block_end_bounds, bump, byte_at, called,
    close_text, comment_at, expansion, expect, feed, find_macro, letters_at, letters_bounds,
    line_end, line_end_bounds, more_at, more_params, moved, name_end, name_end_bounds, next,
    next_leaves_less, obey, open_macro, quote_end, quote_end_bounds, quoted_letters, reference_at,
    run, skip, skip_bounds, sound, sound_with, step, step_leaves_less, text_of, work, FrameView,
    Letters, LexState, MacroView, Skip, Step, TokenView, VariableView, WaitView, MAX_TOKEN,
};

verus! {

/// From `p` on `a` is what `b` is from `q` on.
pub open spec fn same_from(a: Seq<u8>, p: int, b: Seq<u8>, q: int) -> bool {
    &&& 0 <= p <= a.len()
    &&& 0 <= q <= b.len()
    &&& a.skip(p) == b.skip(q)
}

/// The same bytes are before two texts, whatever lines they are counted on.
pub open spec fn texts_alike(a: FrameView, b: FrameView) -> bool {
    &&& a.name == b.name
    &&& a.params == b.params
    &&& a.values == b.values
    &&& same_from(a.buf, a.pos, b.buf, b.pos)
}

/// Two macros do the same.
pub open spec fn macros_alike(a: MacroView, b: MacroView) -> bool {
    a.name == b.name && a.body == b.body && a.params == b.params
}

/// Two tokens say the same.
pub open spec fn tokens_alike(a: TokenView, b: TokenView) -> bool {
    a.text == b.text && a.quoted == b.quoted && a.file == b.file
}

/// Two commands wait for the same.
pub open spec fn waits_alike(a: WaitView, b: WaitView) -> bool {
    match (a, b) {
        (
            WaitView::Values { text, params, body, values, level, .. },
            WaitView::Values { text: t, params: p, body: o, values: v, level: l, .. },
        ) => text == t && params == p && body == o && values == v && level == l,
        _ => a == b,
    }
}

/// The same commands wait.
pub open spec fn all_waits_alike(a: Seq<WaitView>, b: Seq<WaitView>) -> bool {
    &&& a.len() == b.len()
    &&& forall|i: int| 0 <= i < a.len() ==> waits_alike(#[trigger] a[i], b[i])
}

/// Two lexers have the same before them, whatever lines it is counted on.
#[verifier::opaque]
pub open spec fn alike(a: LexState, b: LexState) -> bool {
    &&& a.stack.len() == b.stack.len()
    &&& forall|i: int| 0 <= i < a.stack.len() ==> texts_alike(#[trigger] a.stack[i], b.stack[i])
    &&& a.qdir == b.qdir
    &&& a.macros.len() == b.macros.len()
    &&& forall|i: int|
        0 <= i < a.macros.len() ==> macros_alike(#[trigger] a.macros[i], b.macros[i])
    &&& a.variables == b.variables
    &&& match (a.pending, b.pending) {
        (Some(s), Some(t)) => tokens_alike(s, t),
        (None, None) => true,
        _ => false,
    }
    &&& a.sources == b.sources
}

/// Two outcomes are alike.
pub open spec fn outcomes_alike(
    a: Result<Option<TokenView>, ErrorView>,
    b: Result<Option<TokenView>, ErrorView>,
) -> bool {
    match (a, b) {
        (Ok(Some(s)), Ok(Some(t))) => tokens_alike(s, t),
        (Ok(None), Ok(None)) => true,
        (Err(_), Err(_)) => true,
        _ => false,
    }
}

/// Two steps are alike.
pub open spec fn steps_alike(a: Step, b: Step) -> bool {
    match (a, b) {
        (Step::Done { out: o, st: s }, Step::Done { out: p, st: t }) => {
            outcomes_alike(o, p) && alike(s, t)
        },
        (Step::Go { st: s, waits: v }, Step::Go { st: t, waits: w }) => {
            alike(s, t) && all_waits_alike(v, w)
        },
        _ => false,
    }
}

/// What is the same from two places on is the same behind them.
proof fn same_behind(a: Seq<u8>, p: int, b: Seq<u8>, q: int, k: int)
    requires
        same_from(a, p, b, q),
        0 <= k <= a.len() - p,
    ensures
        same_from(a, p + k, b, q + k),
        byte_at(a, p + k) == byte_at(b, q + k),
        a.len() - p == b.len() - q,
{
    assert(a.skip(p).len() == b.skip(q).len());
    let x = a.skip(p + k);
    let y = b.skip(q + k);
    assert forall|i: int| 0 <= i < x.len() implies #[trigger] x[i] == y[i] by {
        assert(a.skip(p)[i + k] == b.skip(q)[i + k]);
    }
    assert(x =~= y);
    if k < a.len() - p {
        assert(a.skip(p)[k] == b.skip(q)[k]);
    }
}

proof fn line_ends_alike(a: Seq<u8>, p: int, b: Seq<u8>, q: int)
    requires
        same_from(a, p, b, q),
    ensures
        line_end(a, p) - p == line_end(b, q) - q,
    decreases a.len() - p,
{
    same_behind(a, p, b, q, 0);
    if p < a.len() && a[p] != 0x0A {
        same_behind(a, p, b, q, 1);
        line_ends_alike(a, p + 1, b, q + 1);
    }
}

proof fn quote_ends_alike(a: Seq<u8>, p: int, b: Seq<u8>, q: int)
    requires
        same_from(a, p, b, q),
    ensures
        quote_end(a, p) - p == quote_end(b, q) - q,
    decreases a.len() - p,
{
    same_behind(a, p, b, q, 0);
    if p < a.len() && a[p] != 0x22 {
        same_behind(a, p, b, q, 1);
        quote_ends_alike(a, p + 1, b, q + 1);
    }
}

proof fn name_ends_alike(a: Seq<u8>, p: int, b: Seq<u8>, q: int)
    requires
        same_from(a, p, b, q),
    ensures
        name_end(a, p) - p == name_end(b, q) - q,
    decreases a.len() - p,
{
    same_behind(a, p, b, q, 0);
    if p < a.len() && a[p] > 32 && a[p] != 0x24 {
        same_behind(a, p, b, q, 1);
        name_ends_alike(a, p + 1, b, q + 1);
    }
}

proof fn block_ends_alike(a: Seq<u8>, p: int, b: Seq<u8>, q: int, k: nat, l: nat)
    requires
        same_from(a, p, b, q),
    ensures
        match (block_end(a, p, k).0, block_end(b, q, l).0) {
            (Some(e), Some(f)) => e - p == f - q,
            (None, None) => true,
            _ => false,
        },
    decreases a.len() - p,
{
    same_behind(a, p, b, q, 0);
    if p < a.len() {
        same_behind(a, p, b, q, 1);
        if !(a[p] == 0x2A && byte_at(a, p + 1) == 0x2F) {
            block_ends_alike(
                a,
                p + 1,
                b,
                q + 1,
                if a[p] == 0x0A {
                    bump(k)
                } else {
                    k
                },
                if a[p] == 0x0A {
                    bump(l)
                } else {
                    l
                },
            );
        }
    }
}

/// A token is left on the line or not.
pub proof fn same_more(a: Seq<u8>, p: int, b: Seq<u8>, q: int)
    requires
        same_from(a, p, b, q),
    ensures
        more_at(a, p) == more_at(b, q),
    decreases a.len() - p,
{
    same_behind(a, p, b, q, 0);
    if p < a.len() {
        same_behind(a, p, b, q, 1);
        if a[p] <= 32 {
            same_more(a, p + 1, b, q + 1);
        }
    }
}

/// Where the next token starts is the same, seen from here.
spec fn skips_alike(x: Skip, p: int, y: Skip, q: int) -> bool {
    match (x, y) {
        (Skip::At { pos: a, .. }, Skip::At { pos: b, .. }) => a - p == b - q,
        (Skip::End { pos: a, .. }, Skip::End { pos: b, .. }) => a - p == b - q,
        (Skip::LineOver { pos: a, .. }, Skip::LineOver { pos: b, .. }) => a - p == b - q,
        (Skip::Comment { pos: a, .. }, Skip::Comment { pos: b, .. }) => a - p == b - q,
        _ => false,
    }
}

proof fn same_skip(a: Seq<u8>, p: int, b: Seq<u8>, q: int, k: nat, l: nat, cross: bool)
    requires
        same_from(a, p, b, q),
        k <= usize::MAX,
        l <= usize::MAX,
    ensures
        skips_alike(skip(a, p, k, cross), p, skip(b, q, l, cross), q),
    decreases a.len() - p,
{
    same_behind(a, p, b, q, 0);
    if p < a.len() {
        same_behind(a, p, b, q, 1);
        if a[p] <= 32 {
            if a[p] == 0x0A {
                if cross {
                    same_skip(a, p + 1, b, q + 1, bump(k), bump(l), cross);
                }
            } else {
                same_skip(a, p + 1, b, q + 1, k, l, cross);
            }
        } else if comment_at(a, p) {
            if cross {
                line_end_bounds(a, p);
                line_ends_alike(a, p, b, q);
                let e = line_end(a, p) - p;
                if p + e < a.len() {
                    same_behind(a, p, b, q, e + 1);
                    same_skip(a, p + e + 1, b, q + e + 1, bump(k), bump(l), cross);
                }
            }
        } else if a[p] == 0x2F && byte_at(a, p + 1) == 0x2A {
            same_behind(a, p, b, q, 2);
            block_ends_alike(a, p + 2, b, q + 2, k, l);
            block_end_bounds(a, p + 2, k);
            block_end_bounds(b, q + 2, l);
            let d = block_end(a, p + 2, k);
            let e = block_end(b, q + 2, l);
            match d.0 {
                Some(r) => {
                    same_behind(a, p, b, q, r - p);
                    same_skip(a, r, b, q + (r - p), d.1, e.1, cross);
                },
                None => {},
            }
        }
    }
}

/// The letters of a token are the same, and so is the place behind them, seen from here.
spec fn letters_alike(x: Letters, p: int, y: Letters, q: int) -> bool {
    match (x, y) {
        (Letters::Done { text: s, pos: a }, Letters::Done { text: t, pos: b }) => {
            s == t && a - p == b - q
        },
        (Letters::Bad { pos: a, .. }, Letters::Bad { pos: b, .. }) => a - p == b - q,
        _ => false,
    }
}

proof fn same_bare(
    f: FrameView,
    p: int,
    g: FrameView,
    q: int,
    vars: Seq<VariableView>,
    out: Seq<u8>,
)
    requires
        same_from(f.buf, p, g.buf, q),
        f.params == g.params,
        f.values == g.values,
    ensures
        letters_alike(bare_letters(f, vars, p, out), p, bare_letters(g, vars, q, out), q),
    decreases f.buf.len() - p,
{
    let a = f.buf;
    let b = g.buf;
    same_behind(a, p, b, q, 0);
    if p < a.len() && a[p] > 32 && a[p] != 0x3B {
        same_behind(a, p, b, q, 1);
        name_end_bounds(a, p + 1);
        name_ends_alike(a, p + 1, b, q + 1);
        let e = name_end(a, p + 1);
        let d = name_end(b, q + 1);
        same_behind(a, p, b, q, e - p);
        if reference_at(a, p) {
            let s = a.subrange(p + 1, e);
            let t = b.subrange(q + 1, d);
            assert forall|i: int| 0 <= i < s.len() implies s[i] == t[i] by {
                assert(a.skip(p)[i + 1] == b.skip(q)[i + 1]);
            }
            assert(s =~= t);
            match expansion(f, vars, text_of(s)) {
                Ok(v) => {
                    same_behind(a, p, b, q, e + 1 - p);
                    same_bare(f, e + 1, g, d + 1, vars, out + vstd::utf8::encode_utf8(v));
                },
                Err(_) => {},
            }
        } else if out.len() < MAX_TOKEN {
            same_bare(f, p + 1, g, q + 1, vars, out.push(a[p]));
        }
    }
}

proof fn same_quoted(a: Seq<u8>, p: int, b: Seq<u8>, q: int)
    requires
        same_from(a, p, b, q),
    ensures
        letters_alike(quoted_letters(a, p), p, quoted_letters(b, q), q),
{
    quote_end_bounds(a, p);
    quote_ends_alike(a, p, b, q);
    let e = quote_end(a, p);
    let d = quote_end(b, q);
    same_behind(a, p, b, q, e - p);
    let s = a.subrange(p, e);
    let t = b.subrange(q, d);
    assert forall|i: int| 0 <= i < s.len() implies s[i] == t[i] by {
        assert(a.skip(p)[i] == b.skip(q)[i]);
    }
    assert(s =~= t);
}

/// Lexers that moved by the same are alike.
proof fn moved_alike(a: LexState, b: LexState, p: int, q: int, k: nat, l: nat)
    requires
        alike(a, b),
        a.stack.len() > 0,
        p - a.stack.last().pos == q - b.stack.last().pos,
        a.stack.last().pos <= p <= a.stack.last().buf.len(),
    ensures
        alike(moved(a, p, k), moved(b, q, l)),
        texts_alike(a.stack.last(), b.stack.last()),
        b.stack.len() == a.stack.len(),
{
    reveal(alike);
    let n = a.stack.len() - 1;
    let f = a.stack[n];
    let g = b.stack[n];
    assert(texts_alike(f, g));
    same_behind(f.buf, f.pos, g.buf, g.pos, p - f.pos);
    let x = moved(a, p, k);
    let y = moved(b, q, l);
    assert forall|i: int| 0 <= i < x.stack.len() implies texts_alike(
        #[trigger] x.stack[i],
        y.stack[i],
    ) by {
        if i < n {
            assert(texts_alike(a.stack[i], b.stack[i]));
        }
    }
}

/// Lexers that opened the same text are alike.
proof fn opened_alike(a: LexState, b: LexState, f: FrameView, g: FrameView, x: LexState, y: LexState)
    requires
        alike(a, b),
        texts_alike(f, g),
        x == (LexState { stack: a.stack.push(f), loaded: x.loaded, ..a }),
        y == (LexState { stack: b.stack.push(g), loaded: y.loaded, ..b }),
    ensures
        alike(x, y),
{
    reveal(alike);
    assert forall|i: int| 0 <= i < x.stack.len() implies texts_alike(
        #[trigger] x.stack[i],
        y.stack[i],
    ) by {
        if i < a.stack.len() {
            assert(texts_alike(a.stack[i], b.stack[i]));
        }
    }
}

proof fn pushed_alike(a: Seq<WaitView>, b: Seq<WaitView>, x: WaitView, y: WaitView)
    requires
        all_waits_alike(a, b),
        waits_alike(x, y),
    ensures
        all_waits_alike(a.push(x), b.push(y)),
{
    assert forall|i: int| 0 <= i < a.push(x).len() implies waits_alike(
        #[trigger] a.push(x)[i],
        b.push(y)[i],
    ) by {
        if i < a.len() {
            assert(waits_alike(a[i], b[i]));
        }
    }
}

proof fn popped_alike(a: Seq<WaitView>, b: Seq<WaitView>)
    requires
        all_waits_alike(a, b),
        a.len() > 0,
    ensures
        all_waits_alike(a.drop_last(), b.drop_last()),
        waits_alike(a.last(), b.last()),
{
    assert(waits_alike(a[a.len() - 1], b[a.len() - 1]));
    assert forall|i: int| 0 <= i < a.drop_last().len() implies waits_alike(
        #[trigger] a.drop_last()[i],
        b.drop_last()[i],
    ) by {
        assert(waits_alike(a[i], b[i]));
    }
}

proof fn available_alike(a: LexState, b: LexState)
    requires
        alike(a, b),
    ensures
        available(a) == available(b),
{
    reveal(alike);
    if a.stack.len() > 0 {
        let n = a.stack.len() - 1;
        assert(texts_alike(a.stack[n], b.stack[n]));
        same_more(a.stack[n].buf, a.stack[n].pos, b.stack[n].buf, b.stack[n].pos);
    }
}

proof fn macros_found_alike(a: Seq<MacroView>, b: Seq<MacroView>, name: Seq<char>, i: int)
    requires
        a.len() == b.len(),
        forall|j: int| 0 <= j < a.len() ==> macros_alike(#[trigger] a[j], b[j]),
    ensures
        find_macro(a, name, i) == find_macro(b, name, i),
        find_macro(a, name, i) matches Some(k) ==> 0 <= k < a.len(),
    decreases a.len() - i,
{
    if 0 <= i < a.len() {
        assert(macros_alike(a[i], b[i]));
        macros_found_alike(a, b, name, i + 1);
    }
}

proof fn add_macro_alike(
    a: LexState,
    b: LexState,
    v: Seq<WaitView>,
    w: Seq<WaitView>,
    name: Seq<char>,
    params: Seq<Seq<char>>,
)
    requires
        alike(a, b),
        all_waits_alike(v, w),
        a.stack.len() > 0,
    ensures
        steps_alike(add_macro(a, v, name, params), add_macro(b, w, name, params)),
{
    let f = a.stack.last();
    let g = b.stack.last();
    assert(texts_alike(f, g)) by {
        reveal(alike);
        assert(texts_alike(a.stack[a.stack.len() - 1], b.stack[a.stack.len() - 1]));
    }
    line_end_bounds(f.buf, f.pos);
    line_end_bounds(g.buf, g.pos);
    line_ends_alike(f.buf, f.pos, g.buf, g.pos);
    let e = line_end(f.buf, f.pos);
    let d = line_end(g.buf, g.pos);
    moved_alike(a, b, e, d, f.line, g.line);
    let s = f.buf.subrange(f.pos, e);
    let t = g.buf.subrange(g.pos, d);
    assert forall|i: int| 0 <= i < s.len() implies s[i] == t[i] by {
        assert(f.buf.skip(f.pos)[i] == g.buf.skip(g.pos)[i]);
    }
    assert(s =~= t);
    reveal(alike);
    let x = a.macros.push(MacroView { name, body: s, params, line: f.line });
    let y = b.macros.push(MacroView { name, body: t, params, line: g.line });
    assert forall|i: int| 0 <= i < x.len() implies macros_alike(#[trigger] x[i], y[i]) by {
        if i < a.macros.len() {
            assert(macros_alike(a.macros[i], b.macros[i]));
        }
    }
}

proof fn more_params_alike(
    a: LexState,
    b: LexState,
    v: Seq<WaitView>,
    w: Seq<WaitView>,
    name: Seq<char>,
    params: Seq<Seq<char>>,
)
    requires
        alike(a, b),
        all_waits_alike(v, w),
        a.stack.len() > 0,
    ensures
        steps_alike(more_params(a, v, name, params), more_params(b, w, name, params)),
{
    available_alike(a, b);
    add_macro_alike(a, b, v, w, name, params);
    let m = WaitView::MacroParams { name, params };
    pushed_alike(v, w, m, m);
}

/// Opening the text of a macro.
proof fn open_macro_alike(
    a: LexState,
    b: LexState,
    v: Seq<WaitView>,
    w: Seq<WaitView>,
    text: Seq<char>,
    params: Seq<Seq<char>>,
    body: Seq<u8>,
    k: nat,
    l: nat,
    values: Seq<Seq<char>>,
)
    requires
        alike(a, b),
        all_waits_alike(v, w),
    ensures
        steps_alike(
            open_macro(a, v, text, params, body, k, values),
            open_macro(b, w, text, params, body, l, values),
        ),
{
    let s = super::lexer::fresh(text, body);
    let f = FrameView { line: k, params, values, ..s };
    let g = FrameView { line: l, params, values, ..s };
    assert(texts_alike(f, g));
    opened_alike(
        a,
        b,
        f,
        g,
        LexState { stack: a.stack.push(f), ..a },
        LexState { stack: b.stack.push(g), ..b },
    );
}

#[verifier::spinoff_prover]
proof fn feed_alike(
    a: LexState,
    b: LexState,
    v: Seq<WaitView>,
    w: Seq<WaitView>,
    s: TokenView,
    t: TokenView,
)
    requires
        alike(a, b),
        all_waits_alike(v, w),
        tokens_alike(s, t),
        a.stack.len() > 0,
    ensures
        steps_alike(feed(a, v, s), feed(b, w, t)),
{
    if v.len() > 0 {
        popped_alike(v, w);
        let x = v.drop_last();
        let y = w.drop_last();
        match v.last() {
            WaitView::FileName => {
                reveal(alike);
                let full = super::lexer::join(a.qdir, s.text);
                match super::lexer::find_source(a.sources, full, 0) {
                    None => {},
                    Some(i) => {
                        let f = super::lexer::fresh(full, a.sources[i].bytes);
                        assert(texts_alike(f, f));
                        opened_alike(
                            a,
                            b,
                            f,
                            f,
                            LexState {
                                stack: a.stack.push(f),
                                loaded: a.loaded.push(full),
                                ..a
                            },
                            LexState {
                                stack: b.stack.push(f),
                                loaded: b.loaded.push(full),
                                ..b
                            },
                        );
                    },
                }
            },
            WaitView::MacroName => {
                more_params_alike(a, b, x, y, s.text, Seq::empty());
            },
            WaitView::MacroParams { name, params } => {
                add_macro_alike(a, b, x, y, name, params);
                more_params_alike(a, b, x, y, name, params.push(s.text));
            },
            WaitView::VariableName => {
                let m = WaitView::VariableValue { name: s.text };
                pushed_alike(x, y, m, m);
            },
            WaitView::VariableValue { name } => {
                reveal(alike);
            },
            WaitView::Values { text, params, body, line, values, level } => {
                let l = w.last()->Values_line;
                let got = values.push(s.text);
                open_macro_alike(a, b, x, y, text, params, body, line, l, got);
                pushed_alike(
                    x,
                    y,
                    WaitView::Values { text, params, body, line, values: got, level },
                    WaitView::Values { text, params, body, line: l, values: got, level },
                );
            },
        }
    }
}

#[verifier::spinoff_prover]
proof fn obey_alike(
    a: LexState,
    b: LexState,
    v: Seq<WaitView>,
    w: Seq<WaitView>,
    s: TokenView,
    t: TokenView,
)
    requires
        alike(a, b),
        all_waits_alike(v, w),
        tokens_alike(s, t),
        a.stack.len() > 0,
    ensures
        steps_alike(obey(a, v, s), obey(b, w, t)),
{
    pushed_alike(v, w, WaitView::FileName, WaitView::FileName);
    pushed_alike(v, w, WaitView::MacroName, WaitView::MacroName);
    pushed_alike(v, w, WaitView::VariableName, WaitView::VariableName);
    feed_alike(a, b, v, w, s, t);
    let name = s.text.skip(1);
    assert(a.stack.len() == b.stack.len() && called(a.macros, s.text) == called(b.macros, t.text))
        by {
        reveal(alike);
        macros_found_alike(a.macros, b.macros, name, 0);
    }
    match called(a.macros, s.text) {
        None => {},
        Some(i) => {
            let m = a.macros[i];
            let n = b.macros[i];
            assert(macros_alike(m, n)) by {
                reveal(alike);
                macros_found_alike(a.macros, b.macros, name, 0);
                assert(macros_alike(a.macros[i], b.macros[i]));
            }
            open_macro_alike(
                a,
                b,
                v,
                w,
                s.text,
                m.params,
                m.body,
                m.line,
                n.line,
                Seq::empty(),
            );
            pushed_alike(
                v,
                w,
                WaitView::Values {
                    text: s.text,
                    params: m.params,
                    body: m.body,
                    line: m.line,
                    values: Seq::empty(),
                    level: a.stack.len(),
                },
                WaitView::Values {
                    text: s.text,
                    params: m.params,
                    body: m.body,
                    line: n.line,
                    values: Seq::empty(),
                    level: a.stack.len(),
                },
            );
        },
    }
}

proof fn close_alike(
    a: LexState,
    b: LexState,
    v: Seq<WaitView>,
    w: Seq<WaitView>,
    cross: bool,
)
    requires
        alike(a, b),
        all_waits_alike(v, w),
        a.stack.len() > 0,
    ensures
        steps_alike(close_text(a, v, cross), close_text(b, w, cross)),
{
    reveal(alike);
    let x = a.stack.drop_last();
    let y = b.stack.drop_last();
    assert forall|i: int| 0 <= i < x.len() implies texts_alike(#[trigger] x[i], y[i]) by {
        assert(texts_alike(a.stack[i], b.stack[i]));
    }
}

/// Alike lexers take alike steps.
#[verifier::spinoff_prover]
proof fn step_alike(a: LexState, b: LexState, v: Seq<WaitView>, w: Seq<WaitView>, cross: bool)
    requires
        alike(a, b),
        all_waits_alike(v, w),
        sound_with(a, v),
        sound_with(b, w),
    ensures
        steps_alike(step(a, v, cross), step(b, w, cross)),
{
    if a.stack.len() == 0 {
        reveal(alike);
    } else {
        let f = a.stack.last();
        let g = b.stack.last();
        let free = cross && v.len() == 0;
        assert(super::lexer::frame_sound(a.stack[a.stack.len() - 1], a.longest));
        moved_alike(a, b, f.pos, g.pos, 0, 0);
        assert(super::lexer::frame_sound(b.stack[b.stack.len() - 1], b.longest));
        skip_bounds(f.buf, f.pos, f.line, free);
        skip_bounds(g.buf, g.pos, g.line, free);
        same_skip(f.buf, f.pos, g.buf, g.pos, f.line, g.line, free);
        match (skip(f.buf, f.pos, f.line, free), skip(g.buf, g.pos, g.line, free)) {
            (Skip::LineOver { pos: p, line: k }, Skip::LineOver { pos: q, line: l }) => {
                moved_alike(a, b, p, q, k, l);
            },
            (Skip::Comment { pos: p, line: k }, Skip::Comment { pos: q, line: l }) => {
                moved_alike(a, b, p, q, k, l);
            },
            (Skip::End { pos: p, line: k }, Skip::End { pos: q, line: l }) => {
                moved_alike(a, b, p, q, k, l);
                close_alike(moved(a, p, k), moved(b, q, l), v, w, free);
            },
            (Skip::At { pos: p, line: k }, Skip::At { pos: q, line: l }) => {
                same_behind(f.buf, f.pos, g.buf, g.pos, p - f.pos);
                letters_bounds(a, p);
                assert(a.variables == b.variables) by {
                    reveal(alike);
                }
                if byte_at(f.buf, p) == 0x22 {
                    same_behind(f.buf, p, g.buf, q, 1);
                    same_quoted(f.buf, p + 1, g.buf, q + 1);
                } else {
                    same_bare(f, p, g, q, a.variables, Seq::empty());
                }
                match (letters_at(a, p), letters_at(b, q)) {
                    (Letters::Bad { pos: c, .. }, Letters::Bad { pos: d, .. }) => {
                        moved_alike(a, b, c, d, k, l);
                    },
                    (Letters::Done { text, pos: c }, Letters::Done { pos: d, .. }) => {
                        moved_alike(a, b, c, d, k, l);
                        let quoted = byte_at(f.buf, p) == 0x22;
                        obey_alike(
                            moved(a, c, k),
                            moved(b, d, l),
                            v,
                            w,
                            TokenView { text: text_of(text), quoted, file: f.name, line: k },
                            TokenView { text: text_of(text), quoted, file: g.name, line: l },
                        );
                    },
                    _ => {},
                }
            },
            _ => {},
        }
    }
}

proof fn run_alike(a: LexState, b: LexState, v: Seq<WaitView>, w: Seq<WaitView>, cross: bool)
    requires
        alike(a, b),
        all_waits_alike(v, w),
        sound_with(a, v),
        sound_with(b, w),
    ensures
        outcomes_alike(run(a, v, cross).0, run(b, w, cross).0),
        alike(run(a, v, cross).1, run(b, w, cross).1),
    decreases work(a, v), a.stack.len(),
{
    step_alike(a, b, v, w, cross);
    step_leaves_less(a, v, cross);
    step_leaves_less(b, w, cross);
    match (step(a, v, cross), step(b, w, cross)) {
        (Step::Go { st: s, waits: x }, Step::Go { st: t, waits: y }) => {
            run_alike(s, t, x, y, cross);
        },
        _ => {},
    }
}

/// Alike lexers give alike tokens.
pub proof fn next_alike(a: LexState, b: LexState, cross: bool)
    requires
        alike(a, b),
        sound(a),
        sound(b),
    ensures
        outcomes_alike(next(a, cross).0, next(b, cross).0),
        alike(next(a, cross).1, next(b, cross).1),
{
    assert((a.pending is None) == (b.pending is None)) by {
        reveal(alike);
    }
    if a.pending is None {
        run_alike(a, b, Seq::empty(), Seq::empty(), cross);
    } else {
        reveal(alike);
    }
}

proof fn next_piece_alike(a: LexState, b: LexState, buf: Seq<Seq<char>>, cross: bool)
    requires
        alike(a, b),
        sound(a),
        sound(b),
    ensures
        match (next_piece(a, buf, cross).0, next_piece(b, buf, cross).0) {
            (Ok(p), Ok(q)) => p == q,
            (Err(_), Err(_)) => true,
            _ => false,
        },
        alike(next_piece(a, buf, cross).1, next_piece(b, buf, cross).1),
    decreases super::lexer::left(a),
{
    if buf.len() == 0 {
        next_alike(a, b, cross);
        next_leaves_less(a, cross);
        next_leaves_less(b, cross);
        match (expect(a, cross).0, expect(b, cross).0) {
            (Ok(s), Ok(t)) => {
                assert(split(s) == split(t));
                next_piece_alike(expect(a, cross).1, expect(b, cross).1, split(s), cross);
            },
            _ => {},
        }
    }
}

/// Alike lexers give the same expressions.
#[verifier::spinoff_prover]
#[verifier::rlimit(60)]
pub proof fn infix_alike(
    names: Names,
    a: LexState,
    b: LexState,
    buf: Seq<Seq<char>>,
    ops: Seq<OpView>,
    cont: bool,
)
    requires
        alike(a, b),
        sound(a),
        sound(b),
    ensures
        match (infix(names, a, buf, ops, cont).0, infix(names, b, buf, ops, cont).0) {
            (Ok(x), Ok(y)) => x == y,
            (Err(_), Err(_)) => true,
            _ => false,
        },
    decreases super::lexer::left(a), buf.len(),
{
    available_alike(a, b);
    if !(!cont && buf.len() == 0 && !available(a)) {
        next_piece_alike(a, b, buf, cont);
        next_piece_leaves_less(a, buf, cont);
        next_piece_leaves_less(b, buf, cont);
        let m = next_piece(a, buf, cont);
        let n = next_piece(b, buf, cont);
        match m.0 {
            Err(_) => {},
            Ok((p, more)) => {
                next_leaves_less(m.1, false);
                next_leaves_less(n.1, false);
                next_piece_leaves_less(m.1, more, false);
                next_piece_leaves_less(n.1, more, false);
                if first_byte(p) == 0x5C {
                    next_alike(m.1, n.1, false);
                    let c = confirmation(m.1, more);
                    let d = confirmation(n.1, more);
                    match c.0 {
                        Err(_) => {},
                        Ok(text) => {
                            assert(d.0 == Ok::<Seq<char>, ErrorView>(text));
                            infix_alike(names, c.1, d.1, Seq::empty(), ops, true);
                        },
                    }
                } else if ops.len() < MAX_OPS {
                    if is_percent(p) {
                        next_piece_alike(m.1, n.1, more, false);
                        let x = next_piece(m.1, more, false);
                        let y = next_piece(n.1, more, false);
                        match x.0 {
                            Err(_) => {},
                            Ok((q, rest)) => match fetched(names, q) {
                                Ok(op) => {
                                    infix_alike(names, x.1, y.1, rest, ops.push(op), false);
                                },
                                Err(_) => {},
                            },
                        }
                    } else {
                        match operation(names, ops, p) {
                            Ok(op) => {
                                infix_alike(names, m.1, n.1, more, ops.push(op), false);
                            },
                            Err(_) => {},
                        }
                    }
                }
            },
        }
    }
}

} // verus!
