//! Flex rules that go on with the next line.
use vstd::prelude::*;

use super::alike::{alike, infix_alike, same_from, texts_alike};
use super::error::ErrorView;
use super::flexrule::{
    confirmation, fetched, first_byte, in_number, in_word, infix, is_percent, joined, next_piece,
    next_piece_leaves_less, number_end, operation, piece_end, pieces, remark_at, rule, split,
    word_end, Names, OpView, MAX_OPS,
};
use super::lexer::{
    add_macro, available, bare_letters, block_end, block_end_bounds, bump, byte_at, called,
    comment_at, expansion, expect, feed, frame_sound, left, letters_at, letters_bounds, line_end,
    line_end_bounds, more_at, more_params, moved, name_end, name_end_bounds, next, next_leaves_less,
    obey, reference_at, run, skip, skip_bounds, sound, sound_with, step, step_leaves_less, text_of,
    work, FrameView, Letters, LexState, Skip, Step, TokenView, VariableView, WaitView, MAX_TOKEN,
};
use crate::text::lower;

verus! {

/// Only white space is left in every text.
pub open spec fn nothing_left(st: LexState) -> bool {
    &&& st.pending is None
    &&& forall|i: int, r: int|
        0 <= i < st.stack.len() && st.stack[i].pos <= r < st.stack[i].buf.len()
            ==> #[trigger] st.stack[i].buf[r] <= 32
}

/// The pieces of an expression can be taken one by one until none is left, and none of them waits
/// for another: no percent sign for a name, no backslash for a second one, and no command of the
/// lexer for what it needs. `buf` and `cont` are as in reading the expression.
pub open spec fn may_end(st: LexState, buf: Seq<Seq<char>>, cont: bool) -> bool
    decreases left(st), buf.len(),
        when sound(st)
        via may_end_ends
{
    if buf.len() == 0 && (if cont {
        nothing_left(st)
    } else {
        !available(st)
    }) {
        true
    } else {
        let n = next_piece(st, buf, cont);
        match n.0 {
            Err(_) => false,
            Ok((p, more)) => if first_byte(p) == 0x5C {
                let c = confirmation(n.1, more);
                match c.0 {
                    Err(_) => false,
                    Ok(text) => text.len() > 0 && text[0] == '\\' && may_end(
                        c.1,
                        Seq::empty(),
                        true,
                    ),
                }
            } else if is_percent(p) {
                let m = next_piece(n.1, more, false);
                match m.0 {
                    Err(_) => false,
                    Ok((_, rest)) => may_end(m.1, rest, false),
                }
            } else {
                may_end(n.1, more, false)
            },
        }
    }
}

#[via_fn]
proof fn may_end_ends(st: LexState, buf: Seq<Seq<char>>, cont: bool) {
    next_piece_leaves_less(st, buf, cont);
    let n = next_piece(st, buf, cont);
    match n.0 {
        Ok((p, more)) => {
            next_leaves_less(n.1, false);
            next_piece_leaves_less(n.1, more, false);
        },
        Err(_) => {},
    }
}

/// The equals sign and the expression of a rule can be taken until nothing is left.
pub open spec fn rule_may_end(st: LexState) -> bool {
    expect(st, false).0 is Ok && may_end(expect(st, false).1, Seq::empty(), false)
}

/// Texts that were read to their end.
pub open spec fn read_out(s: Seq<FrameView>) -> Seq<FrameView> {
    Seq::new(s.len(), |i: int| FrameView { pos: s[i].buf.len() as int, ..s[i] })
}

/// The lexer with another innermost text.
pub open spec fn reading_from(st: LexState, f: FrameView) -> LexState {
    LexState { stack: st.stack.drop_last().push(f), ..st }
}

/// The lexer with another innermost text, and nothing more below it.
pub open spec fn reading_only(st: LexState, f: FrameView) -> LexState {
    LexState { stack: read_out(st.stack.drop_last()).push(f), ..st }
}

/// What stands where a line goes on: a blank.
pub open spec fn on_one_line(rest: Seq<u8>) -> Seq<u8> {
    seq![0x20u8] + rest
}

/// What stands where a line is broken: a blank, two backslashes and a line end.
pub open spec fn on_two_lines(rest: Seq<u8>) -> Seq<u8> {
    seq![0x20u8, 0x5Cu8, 0x5Cu8, 0x0Au8] + rest
}

/// The lexer stands in a text at depth `d`, or above it. That text is cut off, has no more quotes,
/// and the texts below it are read.
#[verifier::opaque]
spec fn cut_off(c: LexState, d: int) -> bool {
    &&& 0 <= d < c.stack.len()
    &&& forall|i: int| 0 <= i < d ==> (#[trigger] c.stack[i]).pos == c.stack[i].buf.len()
    &&& 0 <= c.stack[d].pos <= c.stack[d].buf.len()
    &&& forall|r: int| c.stack[d].pos <= r < c.stack[d].buf.len() ==> c.stack[d].buf[r] != 0x22
}

/// The lexer with `more` behind the text that is cut off, and `below` below it.
spec fn with_more(c: LexState, below: Seq<FrameView>, more: Seq<u8>) -> LexState {
    let d = below.len() as int;
    let f = c.stack[d];
    LexState {
        stack: below.push(FrameView { buf: f.buf + more, ..f }) + c.stack.skip(d + 1),
        ..c
    }
}

/// More text starts with a blank.
spec fn starts_blank(more: Seq<u8>) -> bool {
    more.len() > 0 && more[0] == 0x20
}

proof fn line_end_with_more(a: Seq<u8>, more: Seq<u8>, p: int)
    requires
        0 <= p <= a.len(),
        line_end(a, p) < a.len(),
    ensures
        line_end(a + more, p) == line_end(a, p),
    decreases a.len() - p,
{
    if p < a.len() {
        assert((a + more)[p] == a[p]);
        if a[p] != 0x0A {
            line_end_with_more(a, more, p + 1);
        }
    }
}

proof fn block_end_with_more(a: Seq<u8>, more: Seq<u8>, p: int, line: nat)
    requires
        0 <= p,
        block_end(a, p, line).0 is Some,
    ensures
        block_end(a + more, p, line) == block_end(a, p, line),
    decreases a.len() - p,
{
    if p < a.len() {
        let b = a + more;
        assert(b[p] == a[p]);
        if p + 1 < a.len() {
            assert(b[p + 1] == a[p + 1]);
        }
        if !(a[p] == 0x2A && byte_at(a, p + 1) == 0x2F) {
            let l = if a[p] == 0x0A {
                bump(line)
            } else {
                line
            };
            if p + 1 >= a.len() {
                assert(block_end(a, p + 1, l).0 is None);
            }
            block_end_with_more(a, more, p + 1, l);
        }
    }
}

proof fn name_end_with_more(a: Seq<u8>, more: Seq<u8>, p: int)
    requires
        0 <= p <= a.len(),
        starts_blank(more),
    ensures
        name_end(a + more, p) == name_end(a, p),
    decreases a.len() - p,
{
    let b = a + more;
    if p < a.len() {
        assert(b[p] == a[p]);
        if a[p] > 32 && a[p] != 0x24 {
            name_end_with_more(a, more, p + 1);
        }
    } else {
        assert(b[p] == more[0]);
    }
}

/// A token that starts in a text that is cut off starts there in the whole text.
proof fn skip_with_more(a: Seq<u8>, more: Seq<u8>, p: int, line: nat, cross: bool)
    requires
        0 <= p <= a.len(),
        line <= usize::MAX,
        starts_blank(more),
        skip(a, p, line, cross) is At,
    ensures
        skip(a + more, p, line, cross) == skip(a, p, line, cross),
    decreases a.len() - p,
{
    let b = a + more;
    if p < a.len() {
        assert(b[p] == a[p]);
        if p + 1 < a.len() {
            assert(b[p + 1] == a[p + 1]);
        } else {
            assert(b[p + 1] == more[0]);
        }
        if a[p] <= 32 {
            skip_with_more(
                a,
                more,
                p + 1,
                if a[p] == 0x0A {
                    bump(line)
                } else {
                    line
                },
                cross,
            );
        } else if comment_at(a, p) {
            line_end_bounds(a, p);
            line_end_with_more(a, more, p);
            skip_with_more(a, more, line_end(a, p) + 1, bump(line), cross);
        } else if a[p] == 0x2F && byte_at(a, p + 1) == 0x2A {
            block_end_bounds(a, p + 2, line);
            block_end_with_more(a, more, p + 2, line);
            let e = block_end(a, p + 2, line);
            skip_with_more(a, more, e.0->0, e.1, cross);
        }
    }
}

/// The letters of a token do not change.
proof fn bare_with_more(
    f: FrameView,
    more: Seq<u8>,
    vars: Seq<VariableView>,
    p: int,
    out: Seq<u8>,
)
    requires
        0 <= p <= f.buf.len(),
        starts_blank(more),
    ensures
        bare_letters(FrameView { buf: f.buf + more, ..f }, vars, p, out) == bare_letters(
            f,
            vars,
            p,
            out,
        ),
    decreases f.buf.len() - p,
{
    let a = f.buf;
    let b = a + more;
    let g = FrameView { buf: b, ..f };
    if p < a.len() {
        assert(b[p] == a[p]);
        if a[p] > 32 && a[p] != 0x3B {
            name_end_bounds(a, p + 1);
            name_end_with_more(a, more, p + 1);
            let e = name_end(a, p + 1);
            if e < a.len() {
                assert(b[e] == a[e]);
            } else {
                assert(b[e] == more[0]);
            }
            assert(reference_at(b, p) == reference_at(a, p));
            if reference_at(a, p) {
                assert(b.subrange(p + 1, e) =~= a.subrange(p + 1, e));
                match expansion(f, vars, text_of(a.subrange(p + 1, e))) {
                    Ok(v) => {
                        bare_with_more(f, more, vars, e + 1, out + vstd::utf8::encode_utf8(v));
                    },
                    Err(_) => {},
                }
            } else if out.len() < MAX_TOKEN {
                bare_with_more(f, more, vars, p + 1, out.push(a[p]));
            }
        }
    } else {
        assert(b[p] == more[0]);
    }
}

/// Only white space is left of a text; line ends count as such if `cross` allows it.
spec fn blank_from(a: Seq<u8>, p: int, cross: bool) -> bool {
    forall|r: int| p <= r < a.len() ==> #[trigger] a[r] <= 32 && (cross || a[r] != 0x0A)
}

/// Where no token is left on the line, none is in the whole text, unless the text is cut off on
/// that line.
proof fn available_with_more(a: Seq<u8>, more: Seq<u8>, p: int)
    requires
        0 <= p <= a.len(),
        starts_blank(more),
    ensures
        more_at(a, p) ==> more_at(a + more, p),
        !more_at(a, p) ==> blank_from(a, p, false) || !more_at(a + more, p),
        !more_at(a, p) && line_end(a, p) < a.len() ==> !more_at(a + more, p),
    decreases a.len() - p,
{
    let b = a + more;
    if p < a.len() {
        assert(b[p] == a[p]);
        if p + 1 < a.len() {
            assert(b[p + 1] == a[p + 1]);
        } else {
            assert(b[p + 1] == more[0]);
        }
        if a[p] <= 32 && a[p] != 0x0A {
            available_with_more(a, more, p + 1);
        }
    }
}

/// Lexers that are in the same state but for what is cut off are taken by a step to such lexers.
spec fn extends(x: Step, y: Step, below: Seq<FrameView>, more: Seq<u8>) -> bool {
    let d = below.len() as int;
    match (x, y) {
        (Step::Done { out: o, st: s }, Step::Done { out: p, st: t }) => {
            o == p && t == with_more(s, below, more) && cut_off(s, d)
        },
        (Step::Go { st: s, waits: v }, Step::Go { st: t, waits: w }) => {
            v == w && t == with_more(s, below, more) && cut_off(s, d)
        },
        _ => false,
    }
}

/// The text that is cut off is read to its end.
spec fn used_up(c: LexState, d: int) -> bool {
    cut_off(c, d) && c.stack.len() == d + 1 && c.stack[d].pos == c.stack[d].buf.len()
}

/// Moving in a text.
proof fn moved_with_more(
    c: LexState,
    below: Seq<FrameView>,
    more: Seq<u8>,
    p: int,
    line: nat,
)
    requires
        cut_off(c, below.len() as int),
        c.stack.last().pos <= p <= c.stack.last().buf.len(),
    ensures
        cut_off(moved(c, p, line), below.len() as int),
        moved(with_more(c, below, more), p, line) == with_more(moved(c, p, line), below, more),
{
    reveal(cut_off);
    let s = with_more(c, below, more);
    let x = moved(s, p, line);
    let y = with_more(moved(c, p, line), below, more);
    assert(x.stack =~= y.stack);
}

/// Opening a text.
proof fn opened_with_more(c: LexState, below: Seq<FrameView>, more: Seq<u8>, f: FrameView)
    requires
        cut_off(c, below.len() as int),
    ensures
        cut_off(LexState { stack: c.stack.push(f), ..c }, below.len() as int),
        with_more(LexState { stack: c.stack.push(f), ..c }, below, more).stack == with_more(
            c,
            below,
            more,
        ).stack.push(f),
{
    reveal(cut_off);
    let x = with_more(LexState { stack: c.stack.push(f), ..c }, below, more);
    assert(x.stack =~= with_more(c, below, more).stack.push(f));
}

/// Only the stack decides what is cut off.
proof fn cut_off_by_stack(a: LexState, b: LexState, below: Seq<FrameView>, more: Seq<u8>)
    requires
        cut_off(a, below.len() as int),
        a.stack == b.stack,
    ensures
        cut_off(b, below.len() as int),
        with_more(b, below, more) == (LexState { stack: with_more(a, below, more).stack, ..b }),
{
    reveal(cut_off);
}

proof fn depth_with_more(c: LexState, below: Seq<FrameView>, more: Seq<u8>)
    requires
        cut_off(c, below.len() as int),
    ensures
        with_more(c, below, more).stack.len() == c.stack.len(),
        c.stack.len() > below.len(),
        c.stack.len() > below.len() + 1 ==> with_more(c, below, more).stack.last()
            == c.stack.last(),
        c.stack.len() == below.len() + 1 ==> {
            &&& with_more(c, below, more).stack.last() == FrameView {
                buf: c.stack.last().buf + more,
                ..c.stack.last()
            }
            &&& 0 <= c.stack.last().pos <= c.stack.last().buf.len()
        },
{
    reveal(cut_off);
}

/// Defining a macro, if that leaves anything of the text that is cut off.
proof fn add_macro_with_more(
    c: LexState,
    below: Seq<FrameView>,
    more: Seq<u8>,
    waits: Seq<WaitView>,
    name: Seq<char>,
    params: Seq<Seq<char>>,
)
    requires
        cut_off(c, below.len() as int),
        0 <= c.stack.last().pos <= c.stack.last().buf.len(),
        starts_blank(more),
    ensures
        ({
            let x = add_macro(c, waits, name, params);
            ||| extends(x, add_macro(with_more(c, below, more), waits, name, params), below, more)
            ||| x matches Step::Go { st, .. } && used_up(st, below.len() as int)
        }),
        c.stack.len() == below.len() + 1 && !(line_end(c.stack.last().buf, c.stack.last().pos)
            < c.stack.last().buf.len()) ==> (add_macro(c, waits, name, params) matches Step::Go {
            st,
            ..
        } && used_up(st, below.len() as int)),
{
    let d = below.len() as int;
    let s = with_more(c, below, more);
    let f = c.stack.last();
    let e = line_end(f.buf, f.pos);
    line_end_bounds(f.buf, f.pos);
    depth_with_more(c, below, more);
    moved_with_more(c, below, more, e, f.line);
    let m = moved(c, e, f.line);
    match add_macro(c, waits, name, params) {
        Step::Go { st, .. } => {
            cut_off_by_stack(m, st, below, more);
            if c.stack.len() == d + 1 && e == f.buf.len() {
                assert(used_up(st, d)) by {
                    reveal(cut_off);
                }
            } else {
                if c.stack.len() == d + 1 {
                    line_end_with_more(f.buf, more, f.pos);
                    assert((f.buf + more).subrange(f.pos, e) =~= f.buf.subrange(f.pos, e));
                }
                assert(extends(
                    add_macro(c, waits, name, params),
                    add_macro(s, waits, name, params),
                    below,
                    more,
                ));
            }
        },
        _ => {},
    }
}

proof fn more_params_with_more(
    c: LexState,
    below: Seq<FrameView>,
    more: Seq<u8>,
    waits: Seq<WaitView>,
    name: Seq<char>,
    params: Seq<Seq<char>>,
)
    requires
        cut_off(c, below.len() as int),
        0 <= c.stack.last().pos <= c.stack.last().buf.len(),
        starts_blank(more),
    ensures
        ({
            let x = more_params(c, waits, name, params);
            ||| extends(x, more_params(with_more(c, below, more), waits, name, params), below, more)
            ||| x matches Step::Go { st, .. } && used_up(st, below.len() as int)
        }),
{
    let f = c.stack.last();
    depth_with_more(c, below, more);
    add_macro_with_more(c, below, more, waits, name, params);
    if c.stack.len() == below.len() + 1 {
        available_with_more(f.buf, more, f.pos);
    }
}

/// Handing a token on.
#[verifier::spinoff_prover]
proof fn feed_with_more(
    c: LexState,
    below: Seq<FrameView>,
    more: Seq<u8>,
    waits: Seq<WaitView>,
    t: TokenView,
)
    requires
        cut_off(c, below.len() as int),
        0 <= c.stack.last().pos <= c.stack.last().buf.len(),
        starts_blank(more),
    ensures
        ({
            let x = feed(c, waits, t);
            ||| extends(x, feed(with_more(c, below, more), waits, t), below, more)
            ||| x matches Step::Go { st, .. } && used_up(st, below.len() as int)
        }),
{
    let s = with_more(c, below, more);
    depth_with_more(c, below, more);
    assert(super::lexer::location(s) == super::lexer::location(c));
    if waits.len() > 0 {
        let rest = waits.drop_last();
        match waits.last() {
            WaitView::FileName => {
                let full = super::lexer::join(c.qdir, t.text);
                match super::lexer::find_source(c.sources, full, 0) {
                    None => {
                        cut_off_by_stack(
                            c,
                            LexState { wanted: Some(full), ..c },
                            below,
                            more,
                        );
                    },
                    Some(i) => {
                        let f = super::lexer::fresh(full, c.sources[i].bytes);
                        opened_with_more(c, below, more, f);
                        let x = LexState { stack: c.stack.push(f), ..c };
                        cut_off_by_stack(
                            x,
                            LexState { loaded: c.loaded.push(full), ..x },
                            below,
                            more,
                        );
                    },
                }
            },
            WaitView::MacroName => {
                more_params_with_more(c, below, more, rest, t.text, Seq::empty());
            },
            WaitView::MacroParams { name, params } => {
                add_macro_with_more(c, below, more, rest, name, params);
                more_params_with_more(c, below, more, rest, name, params.push(t.text));
            },
            WaitView::VariableName => {},
            WaitView::VariableValue { name } => {
                let v = super::lexer::VariableView { param: name, value: t.text };
                cut_off_by_stack(
                    c,
                    LexState { variables: c.variables.push(v), ..c },
                    below,
                    more,
                );
            },
            WaitView::Values { text, params, body, line, values, level } => {
                let g = super::lexer::fresh(text, body);
                opened_with_more(
                    c,
                    below,
                    more,
                    FrameView { line, params, values: values.push(t.text), ..g },
                );
            },
        }
    }
}

/// Obeying a token.
#[verifier::spinoff_prover]
proof fn obey_with_more(
    c: LexState,
    below: Seq<FrameView>,
    more: Seq<u8>,
    waits: Seq<WaitView>,
    t: TokenView,
)
    requires
        cut_off(c, below.len() as int),
        0 <= c.stack.last().pos <= c.stack.last().buf.len(),
        starts_blank(more),
    ensures
        ({
            let x = obey(c, waits, t);
            ||| extends(x, obey(with_more(c, below, more), waits, t), below, more)
            ||| x matches Step::Go { st, .. } && used_up(st, below.len() as int)
        }),
{
    let s = with_more(c, below, more);
    depth_with_more(c, below, more);
    assert(super::lexer::location(s) == super::lexer::location(c));
    feed_with_more(c, below, more, waits, t);
    match called(c.macros, t.text) {
        None => {},
        Some(i) => {
            let m = c.macros[i];
            let g = super::lexer::fresh(t.text, m.body);
            opened_with_more(
                c,
                below,
                more,
                FrameView { line: m.line, params: m.params, values: Seq::empty(), ..g },
            );
        },
    }
}

/// Texts that are read give no token.
proof fn read_texts_give_nothing(c: LexState, waits: Seq<WaitView>, cross: bool)
    requires
        sound_with(c, waits),
        forall|i: int|
            0 <= i < c.stack.len() ==> (#[trigger] c.stack[i]).pos == c.stack[i].buf.len(),
    ensures
        !(run(c, waits, cross).0 matches Ok(Some(_))),
    decreases c.stack.len(),
{
    step_leaves_less(c, waits, cross);
    match step(c, waits, cross) {
        Step::Done { .. } => {},
        Step::Go { st, waits: w } => {
            let f = c.stack.last();
            assert(c.stack[c.stack.len() - 1].pos == f.buf.len());
            let m = moved(c, f.pos, f.line);
            assert(st.stack =~= c.stack.drop_last());
            assert forall|i: int| 0 <= i < st.stack.len() implies (#[trigger] st.stack[i]).pos
                == st.stack[i].buf.len() by {
                assert(st.stack[i] == c.stack[i]);
            }
            read_texts_give_nothing(st, w, cross);
        },
    }
}

/// Where the text that is cut off is over, there is no token.
proof fn cut_off_gives_nothing(c: LexState, d: int, waits: Seq<WaitView>, cross: bool)
    requires
        sound_with(c, waits),
        cut_off(c, d),
        c.stack.len() == d + 1,
        skip(
            c.stack.last().buf,
            c.stack.last().pos,
            c.stack.last().line,
            cross && waits.len() == 0,
        ) is End,
    ensures
        !(run(c, waits, cross).0 matches Ok(Some(_))),
{
    reveal(cut_off);
    step_leaves_less(c, waits, cross);
    match step(c, waits, cross) {
        Step::Done { .. } => {},
        Step::Go { st, waits: w } => {
            assert(st.stack =~= c.stack.drop_last());
            assert forall|i: int| 0 <= i < st.stack.len() implies (#[trigger] st.stack[i]).pos
                == st.stack[i].buf.len() by {
                assert(st.stack[i] == c.stack[i]);
            }
            read_texts_give_nothing(st, w, cross);
        },
    }
}

/// A step on the way to a token is the same in the whole text.
#[verifier::spinoff_prover]
proof fn step_with_more(
    c: LexState,
    below: Seq<FrameView>,
    more: Seq<u8>,
    waits: Seq<WaitView>,
    cross: bool,
)
    requires
        sound_with(c, waits),
        cut_off(c, below.len() as int),
        starts_blank(more),
        run(c, waits, cross).0 matches Ok(Some(_)),
    ensures
        extends(
            step(c, waits, cross),
            step(with_more(c, below, more), waits, cross),
            below,
            more,
        ),
{
    let d = below.len() as int;
    let s = with_more(c, below, more);
    let f = c.stack.last();
    let free = cross && waits.len() == 0;
    depth_with_more(c, below, more);
    assert(frame_sound(c.stack[c.stack.len() - 1], c.longest));
    skip_bounds(f.buf, f.pos, f.line, free);
    step_leaves_less(c, waits, cross);
    match skip(f.buf, f.pos, f.line, free) {
        Skip::At { pos, line } => {
            letters_bounds(c, pos);
            if c.stack.len() == d + 1 {
                assert(byte_at(f.buf, pos) != 0x22) by {
                    reveal(cut_off);
                }
                skip_with_more(f.buf, more, f.pos, f.line, free);
                bare_with_more(f, more, c.variables, pos, Seq::empty());
                assert((f.buf + more)[pos] == f.buf[pos]);
            }
            assert(letters_at(s, pos) == letters_at(c, pos));
            match letters_at(c, pos) {
                Letters::Bad { .. } => {},
                Letters::Done { text, pos: after } => {
                    moved_with_more(c, below, more, after, line);
                    let m = moved(c, after, line);
                    let t = TokenView {
                        text: text_of(text),
                        quoted: byte_at(f.buf, pos) == 0x22,
                        file: f.name,
                        line,
                    };
                    obey_with_more(m, below, more, waits, t);
                    match obey(m, waits, t) {
                        Step::Go { st, waits: w } => {
                            if used_up(st, d) {
                                cut_off_gives_nothing(st, d, w, cross);
                            }
                        },
                        _ => {},
                    }
                },
            }
        },
        Skip::End { pos, line } => {
            if c.stack.len() == d + 1 {
                cut_off_gives_nothing(c, d, waits, cross);
            } else {
                moved_with_more(c, below, more, pos, line);
                let m = moved(c, pos, line);
                let x = LexState { stack: m.stack.drop_last(), ..m };
                assert(cut_off(x, d)) by {
                    reveal(cut_off);
                }
                assert(with_more(x, below, more).stack =~= with_more(
                    m,
                    below,
                    more,
                ).stack.drop_last());
            }
        },
        _ => {},
    }
}

proof fn run_with_more(
    c: LexState,
    below: Seq<FrameView>,
    more: Seq<u8>,
    waits: Seq<WaitView>,
    cross: bool,
)
    requires
        sound_with(c, waits),
        sound_with(with_more(c, below, more), waits),
        cut_off(c, below.len() as int),
        starts_blank(more),
        run(c, waits, cross).0 matches Ok(Some(_)),
    ensures
        ({
            let r = run(c, waits, cross);
            &&& run(with_more(c, below, more), waits, cross) == (r.0, with_more(r.1, below, more))
            &&& cut_off(r.1, below.len() as int)
        }),
    decreases work(c, waits), c.stack.len(),
{
    let s = with_more(c, below, more);
    step_with_more(c, below, more, waits, cross);
    step_leaves_less(c, waits, cross);
    step_leaves_less(s, waits, cross);
    match step(c, waits, cross) {
        Step::Done { .. } => {},
        Step::Go { st, waits: w } => {
            run_with_more(st, below, more, w, cross);
        },
    }
}

/// A token of a text that is cut off is the token of the whole text.
proof fn expect_with_more(c: LexState, below: Seq<FrameView>, more: Seq<u8>, cross: bool)
    requires
        sound(c),
        sound(with_more(c, below, more)),
        cut_off(c, below.len() as int),
        starts_blank(more),
        expect(c, cross).0 is Ok,
    ensures
        ({
            let r = expect(c, cross);
            &&& expect(with_more(c, below, more), cross) == (r.0, with_more(r.1, below, more))
            &&& cut_off(r.1, below.len() as int)
            &&& sound(r.1)
            &&& sound(with_more(r.1, below, more))
        }),
{
    next_leaves_less(c, cross);
    next_leaves_less(with_more(c, below, more), cross);
    if c.pending is None {
        run_with_more(c, below, more, Seq::empty(), cross);
    } else {
        cut_off_by_stack(c, LexState { pending: None, ..c }, below, more);
    }
}

proof fn next_piece_with_more(
    c: LexState,
    below: Seq<FrameView>,
    more: Seq<u8>,
    buf: Seq<Seq<char>>,
    cross: bool,
)
    requires
        sound(c),
        sound(with_more(c, below, more)),
        cut_off(c, below.len() as int),
        starts_blank(more),
        next_piece(c, buf, cross).0 is Ok,
    ensures
        ({
            let r = next_piece(c, buf, cross);
            &&& next_piece(with_more(c, below, more), buf, cross) == (
                r.0,
                with_more(r.1, below, more),
            )
            &&& cut_off(r.1, below.len() as int)
            &&& sound(r.1)
            &&& sound(with_more(r.1, below, more))
        }),
    decreases left(c),
{
    if buf.len() == 0 {
        next_leaves_less(c, cross);
        next_leaves_less(with_more(c, below, more), cross);
        match expect(c, cross).0 {
            Ok(t) => {
                expect_with_more(c, below, more, cross);
                next_piece_with_more(expect(c, cross).1, below, more, split(t), cross);
            },
            Err(_) => {},
        }
    }
}

/// ASCII bytes as characters.
pub open spec fn as_chars(b: Seq<u8>) -> Seq<char> {
    Seq::new(b.len(), |i: int| b[i] as char)
}

proof fn ascii_is_text(b: Seq<u8>)
    requires
        forall|i: int| 0 <= i < b.len() ==> #[trigger] b[i] < 0x80,
    ensures
        text_of(b) == as_chars(b),
        vstd::utf8::encode_utf8(as_chars(b)) == b,
{
    let c = as_chars(b);
    assert(vstd::utf8::is_ascii_chars(c));
    vstd::utf8::is_ascii_chars_encode_utf8(c);
    assert forall|i: int| 0 <= i < b.len() implies vstd::utf8::encode_utf8(c)[i] == b[i] by {
        assert(c[i] as u8 == b[i]);
    }
    assert(vstd::utf8::encode_utf8(c) =~= b);
    vstd::utf8::encode_utf8_valid_utf8(c);
    vstd::utf8::encode_utf8_decode_utf8(c);
}

/// A text that starts without a dollar sign is no command of the lexer.
proof fn no_command(t: Seq<char>)
    requires
        t.len() > 0,
        t[0] != '$',
    ensures
        lower(t) != lower("$include"@),
        lower(t) != lower("$definemacro"@),
        lower(t) != lower("$definevariable"@),
{
    reveal_strlit("$include");
    reveal_strlit("$definemacro");
    reveal_strlit("$definevariable");
    assert(lower("$include"@)[0] == '$');
    assert(lower("$definemacro"@)[0] == '$');
    assert(lower("$definevariable"@)[0] == '$');
    assert(lower(t)[0] != '$');
}

/// The letters of a token do not depend on where the lexer stands.
proof fn letters_stay(f: FrameView, g: FrameView, vars: Seq<VariableView>, p: int, out: Seq<u8>)
    requires
        f.buf == g.buf,
        f.params == g.params,
        f.values == g.values,
    ensures
        bare_letters(f, vars, p, out) == bare_letters(g, vars, p, out),
    decreases f.buf.len() - p,
{
    let buf = f.buf;
    if !(p < 0 || p >= buf.len() || buf[p] <= 32 || buf[p] == 0x3B) {
        let e = name_end(buf, p + 1);
        if reference_at(buf, p) && e >= p {
            match expansion(f, vars, text_of(buf.subrange(p + 1, e))) {
                Ok(v) => {
                    letters_stay(f, g, vars, e + 1, out + vstd::utf8::encode_utf8(v));
                },
                Err(_) => {},
            }
        } else if out.len() < MAX_TOKEN {
            letters_stay(f, g, vars, p + 1, out.push(buf[p]));
        }
    }
}

/// A lexer that stands elsewhere in its text is sound.
proof fn moved_is_sound(st: LexState, q: int, line: nat)
    requires
        sound(st),
        st.stack.len() > 0,
        0 <= q <= st.stack.last().buf.len(),
        line <= usize::MAX,
    ensures
        sound(moved(st, q, line)),
{
    let m = moved(st, q, line);
    assert(super::lexer::frame_sound(st.stack[st.stack.len() - 1], st.longest));
    assert forall|i: int| 0 <= i < m.stack.len() implies super::lexer::frame_sound(
        #[trigger] m.stack[i],
        m.longest,
    ) by {
        if i < st.stack.len() - 1 {
            assert(m.stack[i] == st.stack[i]);
        }
    }
}

/// A lexer that comes to the same from elsewhere in its text reads the same.
proof fn moved_reads_alike(st: LexState, q: int, line: nat, cross: bool)
    requires
        sound(st),
        sound(moved(st, q, line)),
        st.pending is None,
        st.stack.len() > 0,
        skip(st.stack.last().buf, st.stack.last().pos, st.stack.last().line, cross) == skip(
            st.stack.last().buf,
            q,
            line,
            cross,
        ),
    ensures
        next(st, cross) == next(moved(st, q, line), cross),
{
    let f = st.stack.last();
    let m = moved(st, q, line);
    assert(m.stack.drop_last() =~= st.stack.drop_last());
    assert(m.stack.last() == (FrameView { pos: q, line, ..f }));
    match skip(f.buf, q, line, cross) {
        Skip::At { pos, line: l } => {
            letters_stay(f, m.stack.last(), st.variables, pos, Seq::empty());
            assert(letters_at(m, pos) == letters_at(st, pos));
            match letters_at(st, pos) {
                Letters::Bad { message, pos: p } => {
                    assert(moved(m, p, l) == moved(st, p, l));
                },
                Letters::Done { text, pos: after } => {
                    assert(moved(m, after, l) == moved(st, after, l));
                },
            }
        },
        Skip::End { pos, line: l } => {
            assert(moved(m, pos, l) == moved(st, pos, l));
        },
        Skip::LineOver { pos, line: l } => {
            assert(moved(m, pos, l) == moved(st, pos, l));
        },
        Skip::Comment { pos, line: l } => {
            assert(moved(m, pos, l) == moved(st, pos, l));
        },
    }
    assert(step(st, Seq::empty(), cross) == step(m, Seq::empty(), cross));
}

/// One backslash.
spec fn backslash() -> Seq<char> {
    seq!['\\']
}

/// Two backslashes are two pieces.
proof fn two_backslashes()
    ensures
        text_of(seq![0x5Cu8, 0x5Cu8]) == seq!['\\', '\\'],
        vstd::utf8::encode_utf8(seq!['\\', '\\']) == seq![0x5Cu8, 0x5Cu8],
        pieces(seq![0x5Cu8, 0x5Cu8], 0) == seq![backslash(), backslash()],
        first_byte(backslash()) == 0x5C,
        joined(seq![backslash()]) == backslash(),
{
    let b = seq![0x5Cu8, 0x5Cu8];
    ascii_is_text(b);
    assert(as_chars(b) =~= seq!['\\', '\\']);
    let one = seq![0x5Cu8];
    ascii_is_text(one);
    assert(as_chars(one) =~= backslash());
    assert(b.subrange(0, 1) =~= one);
    assert(b.subrange(1, 2) =~= one);
    reveal_with_fuel(pieces, 3);
    assert(pieces(b, 2) =~= Seq::empty());
    assert(pieces(b, 1) =~= seq![backslash()]);
    assert(pieces(b, 0) =~= seq![backslash(), backslash()]);
    reveal_with_fuel(joined, 2);
    let l = seq![backslash()];
    assert(l.drop_last() =~= Seq::empty());
    assert(joined(l) =~= backslash());
}

/// Lexers that give the same piece give the same expression.
proof fn same_piece_same_expression(
    names: Names,
    a: LexState,
    b: LexState,
    ops: Seq<OpView>,
    k: bool,
    l: bool,
)
    requires
        sound(a),
        sound(b),
        k || available(a),
        l || available(b),
        next_piece(a, Seq::empty(), k) == next_piece(b, Seq::empty(), l),
    ensures
        infix(names, a, Seq::empty(), ops, k) == infix(names, b, Seq::empty(), ops, l),
{
    let none = Seq::<Seq<char>>::empty();
    next_piece_leaves_less(a, none, k);
    next_piece_leaves_less(b, none, l);
    let n = next_piece(a, none, k);
    match n.0 {
        Ok((p, more)) => {
            next_leaves_less(n.1, false);
            next_piece_leaves_less(n.1, more, false);
        },
        Err(_) => {},
    }
}

/// Lexers that give the same token give the same expression.
proof fn same_token_same_expression(
    names: Names,
    a: LexState,
    b: LexState,
    ops: Seq<OpView>,
    cont: bool,
)
    requires
        sound(a),
        sound(b),
        cont || available(a) && available(b),
        next(a, cont) == next(b, cont),
    ensures
        infix(names, a, Seq::empty(), ops, cont) == infix(names, b, Seq::empty(), ops, cont),
        next_piece(a, Seq::empty(), cont) == next_piece(b, Seq::empty(), cont),
{
    next_leaves_less(a, cont);
    next_leaves_less(b, cont);
    assert(expect(a, cont) == expect(b, cont));
    same_piece_same_expression(names, a, b, ops, cont, cont);
}

/// A token that is found on the line is found if the line may be left.
proof fn run_may_cross(st: LexState, waits: Seq<WaitView>)
    requires
        sound_with(st, waits),
        run(st, waits, false).0 is Ok,
    ensures
        run(st, waits, true) == run(st, waits, false),
    decreases work(st, waits), st.stack.len(),
{
    step_leaves_less(st, waits, false);
    if st.stack.len() > 0 {
        let f = st.stack.last();
        assert(frame_sound(st.stack[st.stack.len() - 1], st.longest));
        at_with_crossing(f.buf, f.pos, f.line);
    }
    assert(step(st, waits, true) == step(st, waits, false));
    match step(st, waits, false) {
        Step::Done { .. } => {},
        Step::Go { st: s, waits: w } => {
            run_may_cross(s, w);
        },
    }
}

proof fn at_with_crossing(a: Seq<u8>, p: int, line: nat)
    requires
        0 <= p <= a.len(),
        line <= usize::MAX,
    ensures
        skip(a, p, line, false) is At ==> skip(a, p, line, true) == skip(a, p, line, false),
    decreases a.len() - p,
{
    if p < a.len() {
        if a[p] <= 32 {
            if a[p] != 0x0A {
                at_with_crossing(a, p + 1, line);
            }
        } else if comment_at(a, p) {
        } else if a[p] == 0x2F && byte_at(a, p + 1) == 0x2A {
            block_end_bounds(a, p + 2, line);
            let e = block_end(a, p + 2, line);
            match e.0 {
                Some(r) => {
                    at_with_crossing(a, r, e.1);
                },
                None => {},
            }
        }
    }
}

proof fn next_piece_may_cross(st: LexState, buf: Seq<Seq<char>>)
    requires
        sound(st),
        next_piece(st, buf, false).0 is Ok,
    ensures
        next_piece(st, buf, true) == next_piece(st, buf, false),
    decreases left(st),
{
    if buf.len() == 0 {
        next_leaves_less(st, false);
        next_leaves_less(st, true);
        match expect(st, false).0 {
            Ok(t) => {
                if st.pending is None {
                    run_may_cross(st, Seq::empty());
                }
                assert(expect(st, true) == expect(st, false));
                next_piece_may_cross(expect(st, false).1, split(t));
            },
            Err(_) => {},
        }
    }
}

/// White space is skipped. Gives the line behind it.
proof fn skips_blanks(a: Seq<u8>, p: int, q: int, line: nat, cross: bool) -> (l: nat)
    requires
        0 <= p <= q <= a.len(),
        line <= usize::MAX,
        forall|r: int| p <= r < q ==> #[trigger] a[r] <= 32 && (cross || a[r] != 0x0A),
    ensures
        l <= usize::MAX,
        skip(a, p, line, cross) == skip(a, q, l, cross),
        !cross ==> more_at(a, p) == more_at(a, q),
    decreases q - p,
{
    if p == q {
        line
    } else if a[p] == 0x0A {
        skips_blanks(a, p + 1, q, bump(line), cross)
    } else {
        skips_blanks(a, p + 1, q, line, cross)
    }
}

/// The token of two backslashes.
proof fn reads_two_backslashes(st: LexState, cross: bool)
    requires
        sound(st),
        st.pending is None,
        st.stack.len() > 0,
        ({
            let f = st.stack.last();
            &&& 0 <= f.pos
            &&& f.pos + 2 < f.buf.len()
            &&& f.buf[f.pos] == 0x5C
            &&& f.buf[f.pos + 1] == 0x5C
            &&& f.buf[f.pos + 2] == 0x0A
        }),
    ensures
        ({
            let f = st.stack.last();
            let s1 = moved(st, f.pos + 2, f.line);
            &&& available(st)
            &&& next_piece(st, Seq::empty(), cross) == (
                Ok::<(Seq<char>, Seq<Seq<char>>), ErrorView>((backslash(), seq![backslash()])),
                s1,
            )
            &&& sound(s1)
        }),
{
    let f = st.stack.last();
    let s1 = moved(st, f.pos + 2, f.line);
    two_backslashes();
    reveal_with_fuel(bare_letters, 3);
    assert(!reference_at(f.buf, f.pos));
    assert(!reference_at(f.buf, f.pos + 1));
    let b = seq![0x5Cu8, 0x5Cu8];
    assert(Seq::<u8>::empty().push(0x5Cu8).push(0x5Cu8) =~= b);
    assert(letters_at(st, f.pos) == (Letters::Done { text: b, pos: f.pos + 2 }));
    let t = TokenView { text: seq!['\\', '\\'], quoted: false, file: f.name, line: f.line };
    no_command(t.text);
    assert(step(st, Seq::empty(), cross) == (Step::Done {
        out: Ok::<Option<TokenView>, ErrorView>(Some(t)),
        st: s1,
    }));
    next_leaves_less(st, cross);
    assert(expect(st, cross) == (Ok::<TokenView, ErrorView>(t), s1));
    let list = split(t);
    assert(list == seq![backslash(), backslash()]);
    assert(list.skip(1) =~= seq![backslash()]);
    assert(next_piece(st, Seq::empty(), cross) == next_piece(s1, list, cross));
}

/// Where the text that is cut off is over but for white space, the expression goes on with `rest`,
/// whether the line is broken or not.
#[verifier::spinoff_prover]
#[verifier::rlimit(60)]
proof fn same_at_the_joint(
    names: Names,
    c: LexState,
    below: Seq<FrameView>,
    rest: Seq<u8>,
    ops: Seq<OpView>,
    cont: bool,
)
    requires
        cut_off(c, below.len() as int),
        c.stack.len() == below.len() + 1,
        c.pending is None,
        blank_from(c.stack.last().buf, c.stack.last().pos, cont),
        sound(with_more(c, below, on_one_line(rest))),
        sound(with_more(c, below, on_two_lines(rest))),
        more_at(rest, 0),
        infix(names, with_more(c, below, on_one_line(rest)), Seq::empty(), ops, cont).0 is Ok,
    ensures
        infix(names, with_more(c, below, on_two_lines(rest)), Seq::empty(), ops, cont).0 == infix(
            names,
            with_more(c, below, on_one_line(rest)),
            Seq::empty(),
            ops,
            cont,
        ).0,
{
    let none = Seq::<Seq<char>>::empty();
    let one = on_one_line(rest);
    let two = on_two_lines(rest);
    let sa = with_more(c, below, one);
    let sb = with_more(c, below, two);
    depth_with_more(c, below, one);
    depth_with_more(c, below, two);
    let f = c.stack.last();
    let q = f.buf.len() as int;
    let a = f.buf + one;
    let b = f.buf + two;
    assert(frame_sound(sa.stack[sa.stack.len() - 1], sa.longest));
    assert(frame_sound(sb.stack[sb.stack.len() - 1], sb.longest));
    assert(a[q] == one[0] && b[q] == two[0]);
    assert forall|r: int| f.pos <= r < q + 1 implies #[trigger] a[r] <= 32 && (cont || a[r]
        != 0x0A) by {
        if r < q {
            assert(a[r] == f.buf[r]);
        }
    }
    assert forall|r: int| f.pos <= r < q + 1 implies #[trigger] b[r] <= 32 && (cont || b[r]
        != 0x0A) by {
        if r < q {
            assert(b[r] == f.buf[r]);
        }
    }
    // The line goes on.
    let k = skips_blanks(a, f.pos, q + 1, f.line, cont);
    let a2 = moved(sa, q + 1, k);
    moved_is_sound(sa, q + 1, k);
    moved_reads_alike(sa, q + 1, k, cont);
    assert(a.skip(q + 1) =~= rest);
    assert(rest.skip(0) =~= rest);
    super::alike::same_more(a, q + 1, rest, 0);
    same_token_same_expression(names, sa, a2, ops, cont);
    if !cont {
        assert(next_piece(a2, none, false).0 is Ok);
        next_piece_may_cross(a2, none);
        same_piece_same_expression(names, a2, a2, ops, false, true);
    }
    assert(infix(names, sa, none, ops, cont) == infix(names, a2, none, ops, true));
    // The line is broken.
    let l = skips_blanks(b, f.pos, q + 1, f.line, cont);
    let b1 = moved(sb, q + 1, l);
    moved_is_sound(sb, q + 1, l);
    moved_reads_alike(sb, q + 1, l, cont);
    assert(b[q + 1] == two[1] && b[q + 2] == two[2] && b[q + 3] == two[3]);
    reads_two_backslashes(b1, cont);
    assert(more_at(b, q + 1));
    same_token_same_expression(names, sb, b1, ops, cont);
    let s3 = moved(b1, q + 3, l);
    two_backslashes();
    assert(infix(names, b1, none, ops, cont) == infix(names, s3, none, ops, true));
    let b2 = moved(s3, q + 4, bump(l));
    moved_is_sound(s3, q + 4, bump(l));
    assert(skip(b, q + 3, l, true) == skip(b, q + 4, bump(l), true));
    moved_reads_alike(s3, q + 4, bump(l), true);
    same_token_same_expression(names, s3, b2, ops, true);
    // The same is ahead.
    assert(b.skip(q + 4) =~= rest);
    assert(same_from(a, q + 1, b, q + 4));
    assert(alike(a2, b2)) by {
        reveal(alike);
        let d = below.len() as int;
        assert forall|i: int| 0 <= i < a2.stack.len() implies texts_alike(
            #[trigger] a2.stack[i],
            b2.stack[i],
        ) by {
            if i < d {
                assert(a2.stack[i] == below[i]);
                assert(b2.stack[i] == below[i]);
                assert(sa.stack[i] == below[i]);
                assert(frame_sound(sa.stack[i], sa.longest));
            }
        }
    }
    infix_alike(names, a2, b2, none, ops, true);
}

/// A text with only white space left is closed.
proof fn closes_the_text(names: Names, st: LexState, ops: Seq<OpView>)
    requires
        sound(st),
        st.pending is None,
        st.stack.len() > 1,
        blank_from(st.stack.last().buf, st.stack.last().pos, true),
    ensures
        sound(LexState { stack: st.stack.drop_last(), ..st }),
        infix(names, st, Seq::empty(), ops, true) == infix(
            names,
            LexState { stack: st.stack.drop_last(), ..st },
            Seq::empty(),
            ops,
            true,
        ),
{
    let f = st.stack.last();
    let x = LexState { stack: st.stack.drop_last(), ..st };
    assert(frame_sound(st.stack[st.stack.len() - 1], st.longest));
    let l = skips_blanks(f.buf, f.pos, f.buf.len() as int, f.line, true);
    let m = moved(st, f.buf.len() as int, l);
    assert(m.stack.drop_last() =~= st.stack.drop_last());
    step_leaves_less(st, Seq::empty(), true);
    assert(step(st, Seq::empty(), true) == (Step::Go { st: x, waits: Seq::empty() }));
    assert(next(st, true) == next(x, true));
    same_token_same_expression(names, st, x, ops, true);
}

/// Behind two backslashes the texts above the one that is cut off are closed first.
proof fn same_above_the_joint(
    names: Names,
    c: LexState,
    below: Seq<FrameView>,
    rest: Seq<u8>,
    ops: Seq<OpView>,
)
    requires
        cut_off(c, below.len() as int),
        nothing_left(c),
        sound(with_more(c, below, on_one_line(rest))),
        sound(with_more(c, below, on_two_lines(rest))),
        more_at(rest, 0),
        infix(names, with_more(c, below, on_one_line(rest)), Seq::empty(), ops, true).0 is Ok,
    ensures
        infix(names, with_more(c, below, on_two_lines(rest)), Seq::empty(), ops, true).0 == infix(
            names,
            with_more(c, below, on_one_line(rest)),
            Seq::empty(),
            ops,
            true,
        ).0,
    decreases c.stack.len(),
{
    let d = below.len() as int;
    let n = c.stack.len() - 1;
    let one = on_one_line(rest);
    let two = on_two_lines(rest);
    depth_with_more(c, below, one);
    depth_with_more(c, below, two);
    assert forall|r: int| c.stack.last().pos <= r < c.stack.last().buf.len() implies (
    #[trigger] c.stack.last().buf[r]) <= 32 by {
        assert(c.stack[n].buf[r] <= 32);
    }
    if c.stack.len() == d + 1 {
        same_at_the_joint(names, c, below, rest, ops, true);
    } else {
        let sa = with_more(c, below, one);
        let sb = with_more(c, below, two);
        let x = LexState { stack: c.stack.drop_last(), ..c };
        assert(cut_off(x, d)) by {
            reveal(cut_off);
        }
        assert(with_more(x, below, one).stack =~= sa.stack.drop_last());
        assert(with_more(x, below, two).stack =~= sb.stack.drop_last());
        closes_the_text(names, sa, ops);
        closes_the_text(names, sb, ops);
        assert(nothing_left(x)) by {
            assert forall|i: int, r: int|
                0 <= i < x.stack.len() && x.stack[i].pos <= r
                    < x.stack[i].buf.len() implies #[trigger] x.stack[i].buf[r] <= 32 by {
                assert(c.stack[i].buf[r] <= 32);
            }
        }
        same_above_the_joint(names, x, below, rest, ops);
    }
}

/// An expression comes to the same, whether the line is broken or not where it is cut off.
#[verifier::spinoff_prover]
#[verifier::rlimit(60)]
proof fn same_expression(
    names: Names,
    c: LexState,
    below: Seq<FrameView>,
    rest: Seq<u8>,
    buf: Seq<Seq<char>>,
    ops: Seq<OpView>,
    cont: bool,
)
    requires
        sound(c),
        cut_off(c, below.len() as int),
        may_end(c, buf, cont),
        sound(with_more(c, below, on_one_line(rest))),
        sound(with_more(c, below, on_two_lines(rest))),
        more_at(rest, 0),
        infix(names, with_more(c, below, on_one_line(rest)), buf, ops, cont).0 is Ok,
    ensures
        infix(names, with_more(c, below, on_two_lines(rest)), buf, ops, cont).0 == infix(
            names,
            with_more(c, below, on_one_line(rest)),
            buf,
            ops,
            cont,
        ).0,
    decreases left(c), buf.len(),
{
    let d = below.len() as int;
    let one = on_one_line(rest);
    let two = on_two_lines(rest);
    let sa = with_more(c, below, one);
    let sb = with_more(c, below, two);
    let f = c.stack.last();
    depth_with_more(c, below, one);
    depth_with_more(c, below, two);
    if buf.len() == 0 && cont && nothing_left(c) {
        assert(buf =~= Seq::empty());
        same_above_the_joint(names, c, below, rest, ops);
    } else if buf.len() == 0 && !cont && !available(c) {
        assert(buf =~= Seq::empty());
        if c.stack.len() == d + 1 {
            available_with_more(f.buf, one, f.pos);
            available_with_more(f.buf, two, f.pos);
            if blank_from(f.buf, f.pos, false) {
                same_at_the_joint(names, c, below, rest, ops, false);
            }
        }
    } else {
        assert(buf.len() == 0 && !cont ==> available(sa) && available(sb)) by {
            if c.stack.len() == d + 1 {
                available_with_more(f.buf, one, f.pos);
                available_with_more(f.buf, two, f.pos);
            }
        }
        next_piece_leaves_less(c, buf, cont);
        let n = next_piece(c, buf, cont);
        next_piece_with_more(c, below, one, buf, cont);
        next_piece_with_more(c, below, two, buf, cont);
        let (p, more) = n.0->Ok_0;
        let na = with_more(n.1, below, one);
        let nb = with_more(n.1, below, two);
        next_piece_leaves_less(sa, buf, cont);
        next_piece_leaves_less(sb, buf, cont);
        next_leaves_less(n.1, false);
        next_leaves_less(na, false);
        next_leaves_less(nb, false);
        next_piece_leaves_less(n.1, more, false);
        next_piece_leaves_less(na, more, false);
        next_piece_leaves_less(nb, more, false);
        if first_byte(p) == 0x5C {
            let e = confirmation(n.1, more);
            if more.len() == 0 {
                expect_with_more(n.1, below, one, false);
                expect_with_more(n.1, below, two, false);
            }
            same_expression(names, e.1, below, rest, Seq::empty(), ops, true);
        } else if ops.len() < MAX_OPS {
            if is_percent(p) {
                next_piece_with_more(n.1, below, one, more, false);
                next_piece_with_more(n.1, below, two, more, false);
                let m = next_piece(n.1, more, false);
                let (q, left_over) = m.0->Ok_0;
                match fetched(names, q) {
                    Ok(op) => {
                        same_expression(names, m.1, below, rest, left_over, ops.push(op), false);
                    },
                    Err(_) => {},
                }
            } else {
                match operation(names, ops, p) {
                    Ok(op) => {
                        same_expression(names, n.1, below, rest, more, ops.push(op), false);
                    },
                    Err(_) => {},
                }
            }
        }
    }
}

/// A rule may be written on two lines: where a blank gives way to a blank, two backslashes and a
/// line end, the same rule is read. `u` is what stands before the blank, from the equals sign on,
/// and `head` what was read before; `rest` is all that follows, and a token of it stands on the
/// line. There are no quotes in `u`, and it may end there: what is read of it, by itself, is read
/// without anything that waits for more.
pub proof fn double_backslash_joins_lines(
    names: Names,
    st: LexState,
    f: FrameView,
    head: Seq<u8>,
    u: Seq<u8>,
    rest: Seq<u8>,
)
    requires
        ({
            let p = head.len() as int;
            let whole = FrameView { buf: head + u + on_one_line(rest), pos: p, ..f };
            let broken = FrameView { buf: head + u + on_two_lines(rest), pos: p, ..f };
            let only = FrameView { buf: head + u, pos: p, ..f };
            &&& sound(reading_from(st, whole))
            &&& sound(reading_from(st, broken))
            &&& rule(names, reading_from(st, whole)).0 is Ok
            &&& rule_may_end(reading_only(st, only))
        }),
        st.stack.len() > 0,
        !u.contains(0x22),
        more_at(rest, 0),
    ensures
        ({
            let p = head.len() as int;
            let whole = FrameView { buf: head + u + on_one_line(rest), pos: p, ..f };
            let broken = FrameView { buf: head + u + on_two_lines(rest), pos: p, ..f };
            rule(names, reading_from(st, broken)).0 == rule(names, reading_from(st, whole)).0
        }),
{
    let p = head.len() as int;
    let one = on_one_line(rest);
    let two = on_two_lines(rest);
    let whole = FrameView { buf: head + u + one, pos: p, ..f };
    let broken = FrameView { buf: head + u + two, pos: p, ..f };
    let only = FrameView { buf: head + u, pos: p, ..f };
    let below = st.stack.drop_last();
    let d = below.len() as int;
    let sa = reading_from(st, whole);
    let sb = reading_from(st, broken);
    let c = reading_only(st, only);
    assert(with_more(c, below, one).stack =~= sa.stack);
    assert(with_more(c, below, two).stack =~= sb.stack);
    assert(cut_off(c, d)) by {
        reveal(cut_off);
        assert forall|r: int| p <= r < only.buf.len() implies only.buf[r] != 0x22 by {
            assert(only.buf[r] == u[r - p]);
            assert(u.contains(u[r - p]));
        }
    }
    assert(sound(c)) by {
        assert forall|i: int| 0 <= i < c.stack.len() implies frame_sound(
            #[trigger] c.stack[i],
            c.longest,
        ) by {
            assert(frame_sound(sa.stack[i], sa.longest));
        }
        assert forall|i: int| 0 <= i < c.macros.len() implies (#[trigger] c.macros[i]).body.len()
            <= c.longest && c.macros[i].line <= usize::MAX by {
            assert(sa.macros[i].body.len() <= sa.longest);
        }
        assert forall|i: int| 0 <= i < c.sources.len() implies (
        #[trigger] c.sources[i]).bytes.len() <= c.longest by {
            assert(sa.sources[i].bytes.len() <= sa.longest);
        }
    }
    expect_with_more(c, below, one, false);
    expect_with_more(c, below, two, false);
    same_expression(
        names,
        expect(c, false).1,
        below,
        rest,
        Seq::empty(),
        Seq::empty(),
        false,
    );
}

/// A piece ends behind its start, in its token.
proof fn piece_bounds(b: Seq<u8>, i: int)
    requires
        0 <= i < b.len(),
    ensures
        i < piece_end(b, i) <= b.len(),
{
    word_end_bounds(b, i + 1);
    number_end_bounds(b, i + 1);
}

proof fn word_end_bounds(b: Seq<u8>, i: int)
    requires
        0 <= i <= b.len(),
    ensures
        i <= word_end(b, i) <= b.len(),
    decreases b.len() - i,
{
    if i < b.len() && in_word(b[i]) {
        word_end_bounds(b, i + 1);
    }
}

proof fn number_end_bounds(b: Seq<u8>, i: int)
    requires
        0 <= i <= b.len(),
    ensures
        i <= number_end(b, i) <= b.len(),
    decreases b.len() - i,
{
    if i < b.len() && in_number(b[i]) {
        number_end_bounds(b, i + 1);
    }
}

/// A word of an expression: UTF-8 without backslashes and comments that does not start with a
/// dollar sign.
pub open spec fn is_plain(b: Seq<u8>) -> bool {
    &&& b.len() > 0
    &&& vstd::utf8::valid_utf8(b)
    &&& b[0] != 0x24
    &&& forall|i: int| 0 <= i < b.len() ==> #[trigger] b[i] != 0x5C && b[i] != 0x23
    &&& forall|i: int| 0 <= i < b.len() - 1 && #[trigger] b[i] == 0x2F ==> b[i + 1] != 0x2F
}

/// The first place from `i` on that is no white space.
pub open spec fn word_at(s: Seq<u8>, i: int) -> int
    decreases s.len() - i,
{
    if i < 0 || i >= s.len() || s[i] > 32 {
        i
    } else {
        word_at(s, i + 1)
    }
}

/// The words of a text from `i` on are plain, with what stands for their references put in, and
/// the last does not end with a percent sign.
pub open spec fn words_plain(f: FrameView, vars: Seq<VariableView>, i: int) -> bool
    decreases f.buf.len() - i,
{
    let j = word_at(f.buf, i);
    if i < 0 || j >= f.buf.len() {
        true
    } else {
        &&& f.buf[j] != 0x22
        &&& !comment_at(f.buf, j)
        &&& !(f.buf[j] == 0x2F && byte_at(f.buf, j + 1) == 0x2A)
        &&& match bare_letters(f, vars, j, Seq::empty()) {
            Letters::Done { text, pos } => {
                &&& is_plain(text)
                &&& i < pos <= f.buf.len()
                &&& word_at(f.buf, pos) >= f.buf.len() ==> text.last() != 0x25
                &&& words_plain(f, vars, pos)
            },
            Letters::Bad { .. } => false,
        }
    }
}

proof fn word_bounds(s: Seq<u8>, i: int)
    requires
        0 <= i <= s.len(),
    ensures
        i <= word_at(s, i) <= s.len(),
        word_at(s, i) < s.len() ==> s[word_at(s, i)] > 32,
        forall|k: int| i <= k < word_at(s, i) ==> #[trigger] s[k] <= 32,
    decreases s.len() - i,
{
    if i < s.len() && s[i] <= 32 {
        word_bounds(s, i + 1);
    }
}

/// No piece starts with a backslash.
spec fn no_backslash(list: Seq<Seq<char>>) -> bool {
    forall|k: int| 0 <= k < list.len() ==> first_byte(#[trigger] list[k]) != 0x5C
}

/// The replacement character starts with another byte than a percent sign or a backslash.
proof fn replacement_is_no_sign()
    ensures
        first_byte(seq!['\u{fffd}']) != 0x25,
        first_byte(seq!['\u{fffd}']) != 0x5C,
{
    let s = seq!['\u{fffd}'];
    assert(0xE0u8 | ((0xFFFDu32 >> 12) & 0x0F) as u8 >= 0xE0u8) by (bit_vector);
    assert(s[0] as u32 == 0xFFFD);
    assert(vstd::utf8::encode_utf8(s)[0] == vstd::utf8::leading_byte_width_3(0xFFFD));
}

/// A byte above ASCII is no text by itself.
proof fn byte_is_no_text(b: Seq<u8>)
    requires
        b.len() == 1,
        b[0] >= 0x80,
    ensures
        text_of(b) == seq!['\u{fffd}'],
{
    assert(!vstd::utf8::valid_utf8(b));
}

/// What a piece starts with.
proof fn piece_starts(b: Seq<u8>, i: int)
    requires
        is_plain(b),
        0 <= i < b.len(),
    ensures
        i < piece_end(b, i) <= b.len(),
        ({
            let c = first_byte(text_of(b.subrange(i, piece_end(b, i))));
            &&& c != 0x5C
            &&& c == 0x25 ==> b[i] == 0x25 && piece_end(b, i) == i + 1
        }),
{
    piece_bounds(b, i);
    let e = piece_end(b, i);
    let p = b.subrange(i, e);
    if b[i] >= 0x80 {
        byte_is_no_text(p);
        replacement_is_no_sign();
    } else {
        word_bytes(b, i + 1);
        number_bytes(b, i + 1);
        assert forall|k: int| 0 <= k < p.len() implies #[trigger] p[k] < 0x80 by {
            assert(p[k] == b[i + k]);
        }
        ascii_is_text(p);
        assert(p[0] == b[i]);
    }
}

proof fn word_bytes(b: Seq<u8>, i: int)
    requires
        0 <= i <= b.len(),
    ensures
        forall|k: int| i <= k < word_end(b, i) ==> #[trigger] b[k] < 0x80,
    decreases b.len() - i,
{
    if i < b.len() && in_word(b[i]) {
        word_bytes(b, i + 1);
    }
}

proof fn number_bytes(b: Seq<u8>, i: int)
    requires
        0 <= i <= b.len(),
    ensures
        forall|k: int| i <= k < number_end(b, i) ==> #[trigger] b[k] < 0x80,
    decreases b.len() - i,
{
    if i < b.len() && in_number(b[i]) {
        number_bytes(b, i + 1);
    }
}

/// A plain word has pieces, none starts with a backslash, and if the last starts with a percent
/// sign, the word ends with it.
proof fn word_pieces(b: Seq<u8>, i: int)
    requires
        is_plain(b),
        0 <= i < b.len(),
    ensures
        pieces(b, i).len() > 0,
        no_backslash(pieces(b, i)),
        first_byte(pieces(b, i).last()) == 0x25 ==> b.last() == 0x25,
    decreases b.len() - i,
{
    piece_starts(b, i);
    let e = piece_end(b, i);
    let p = text_of(b.subrange(i, e));
    assert(!remark_at(b, i));
    let more = pieces(b, e);
    let list = pieces(b, i);
    assert(list == seq![p] + more);
    if e < b.len() {
        word_pieces(b, e);
        assert(list.last() == more.last());
        assert forall|k: int| 0 <= k < list.len() implies first_byte(#[trigger] list[k]) != 0x5C by {
            if k > 0 {
                assert(list[k] == more[k - 1]);
            }
        }
    } else {
        assert(more =~= Seq::empty());
        assert(list =~= seq![p]);
    }
}

/// The token of a plain word.
proof fn plain_token(b: Seq<u8>)
    requires
        is_plain(b),
    ensures
        ({
            let t = text_of(b);
            &&& vstd::utf8::encode_utf8(t) == b
            &&& t.len() > 0
            &&& t[0] != '$'
        }),
{
    let t = text_of(b);
    vstd::utf8::decode_utf8_encode_utf8(b);
    assert(vstd::utf8::encode_utf8(t) == b);
    if t.len() > 0 && t[0] == '$' {
        assert((0x24u32 & 0x7F) as u8 == 0x24u8) by (bit_vector);
        assert(t[0] as u32 == 0x24);
        assert(b[0] == vstd::utf8::leading_byte_width_1(0x24));
    }
}

/// The lexer stands at `i` of a text, with nothing given back.
spec fn stands_at(st: LexState, f: FrameView, i: int) -> bool {
    &&& sound(st)
    &&& st.pending is None
    &&& st.stack.len() > 0
    &&& st.stack.last() == FrameView { pos: i, ..f }
    &&& 0 <= i <= f.buf.len()
    &&& forall|r: int| i <= r < f.buf.len() ==> #[trigger] f.buf[r] != 0x0A
}

/// Whether a token is left on the line.
proof fn word_is_available(st: LexState, f: FrameView, i: int)
    requires
        stands_at(st, f, i),
        words_plain(f, st.variables, i),
    ensures
        available(st) == (word_at(f.buf, i) < f.buf.len()),
{
    let j = word_at(f.buf, i);
    word_bounds(f.buf, i);
    let l = skips_blanks(f.buf, i, j, 0, false);
}

/// The next token is the next word.
#[verifier::spinoff_prover]
proof fn next_is_the_word(st: LexState, f: FrameView, i: int)
    requires
        stands_at(st, f, i),
        words_plain(f, st.variables, i),
        word_at(f.buf, i) < f.buf.len(),
    ensures
        ({
            let j = word_at(f.buf, i);
            match bare_letters(f, st.variables, j, Seq::empty()) {
                Letters::Done { text, pos } => {
                    let r = expect(st, false);
                    &&& r.0 matches Ok(t)
                    &&& t.text == text_of(text)
                    &&& !t.quoted
                    &&& r.1.variables == st.variables
                    &&& stands_at(r.1, f, pos)
                },
                Letters::Bad { .. } => false,
            }
        }),
{
    let j = word_at(f.buf, i);
    let g = st.stack.last();
    word_bounds(f.buf, i);
    assert(frame_sound(st.stack[st.stack.len() - 1], st.longest));
    skips_to_the_word(f.buf, i, j, g.line);
    letters_stay(f, g, st.variables, j, Seq::empty());
    letters_bounds(st, j);
    match bare_letters(f, st.variables, j, Seq::empty()) {
        Letters::Done { text, pos } => {
            plain_token(text);
            no_command(text_of(text));
            next_leaves_less(st, false);
            let m = moved(st, pos, g.line);
            assert(m.stack.last() == (FrameView { pos, ..f }));
            let t = TokenView {
                text: text_of(text),
                quoted: false,
                file: g.name,
                line: g.line,
            };
            assert(step(st, Seq::empty(), false) == (Step::Done {
                out: Ok::<Option<TokenView>, ErrorView>(Some(t)),
                st: m,
            }));
        },
        Letters::Bad { .. } => {},
    }
}

proof fn skips_to_the_word(a: Seq<u8>, p: int, q: int, line: nat)
    requires
        0 <= p <= q < a.len(),
        forall|r: int| p <= r < q ==> #[trigger] a[r] <= 32 && a[r] != 0x0A,
        a[q] > 32,
        !comment_at(a, q),
        !(a[q] == 0x2F && byte_at(a, q + 1) == 0x2A),
    ensures
        skip(a, p, line, false) == (Skip::At { pos: q, line }),
    decreases q - p,
{
    if p < q {
        skips_to_the_word(a, p + 1, q, line);
    }
}

/// Plain words may end an expression.
#[verifier::spinoff_prover]
proof fn plain_words_may_end(st: LexState, f: FrameView, i: int, buf: Seq<Seq<char>>)
    requires
        stands_at(st, f, i),
        words_plain(f, st.variables, i),
        no_backslash(buf),
        buf.len() > 0 && first_byte(buf.last()) == 0x25 ==> word_at(f.buf, i) < f.buf.len(),
    ensures
        may_end(st, buf, false),
    decreases left(st), buf.len(),
{
    word_is_available(st, f, i);
    if buf.len() > 0 || available(st) {
        let (j, more) = plain_piece(st, f, i, buf);
        let n = next_piece(st, buf, false);
        next_piece_leaves_less(st, buf, false);
        let p = n.0->Ok_0.0;
        if is_percent(p) {
            let (k, rest) = plain_piece(n.1, f, j, more);
            next_piece_leaves_less(n.1, more, false);
            plain_words_may_end(next_piece(n.1, more, false).1, f, k, rest);
        } else {
            plain_words_may_end(n.1, f, j, more);
        }
    }
}

/// The next piece, in plain words. Gives the place behind its token and what is left of that.
proof fn plain_piece(st: LexState, f: FrameView, i: int, buf: Seq<Seq<char>>) -> (r: (
    int,
    Seq<Seq<char>>,
))
    requires
        stands_at(st, f, i),
        words_plain(f, st.variables, i),
        no_backslash(buf),
        buf.len() > 0 || word_at(f.buf, i) < f.buf.len(),
        buf.len() > 0 && first_byte(buf.last()) == 0x25 ==> word_at(f.buf, i) < f.buf.len(),
    ensures
        ({
            let n = next_piece(st, buf, false);
            &&& n.0 matches Ok((p, more))
            &&& more == r.1
            &&& first_byte(p) != 0x5C
            &&& stands_at(n.1, f, r.0)
            &&& words_plain(f, n.1.variables, r.0)
            &&& no_backslash(more)
            &&& (more.len() > 0 ==> (first_byte(more.last()) == 0x25 ==> word_at(f.buf, r.0)
                < f.buf.len()))
            &&& more.len() == 0 && first_byte(p) == 0x25 ==> word_at(f.buf, r.0) < f.buf.len()
        }),
{
    if buf.len() > 0 {
        let more = buf.skip(1);
        assert forall|k: int| 0 <= k < more.len() implies first_byte(#[trigger] more[k]) != 0x5C by {
            assert(more[k] == buf[k + 1]);
        }
        if more.len() > 0 {
            assert(more.last() == buf.last());
        } else {
            assert(buf[0] == buf.last());
        }
        (i, more)
    } else {
        next_is_the_word(st, f, i);
        next_leaves_less(st, false);
        let j = word_at(f.buf, i);
        match bare_letters(f, st.variables, j, Seq::empty()) {
            Letters::Done { text, pos } => {
                plain_token(text);
                word_pieces(text, 0);
                let list = pieces(text, 0);
                let t = expect(st, false).0->Ok_0;
                assert(split(t) == list);
                let more = list.skip(1);
                assert(next_piece(st, buf, false) == next_piece(expect(st, false).1, list, false));
                assert forall|k: int| 0 <= k < more.len() implies first_byte(#[trigger] more[k])
                    != 0x5C by {
                    assert(more[k] == list[k + 1]);
                }
                if more.len() > 0 {
                    assert(more.last() == list.last());
                } else {
                    assert(list[0] == list.last());
                }
                (pos, more)
            },
            Letters::Bad { .. } => (i, buf),
        }
    }
}

/// The part of a rule before a line is broken may end there, if its words are plain: references
/// to values that are plain, and letters of every kind, among them.
pub proof fn plain_rules_may_end(st: LexState, f: FrameView, head: Seq<u8>, u: Seq<u8>)
    requires
        ({
            let only = FrameView { buf: head + u, pos: head.len() as int, ..f };
            &&& sound(reading_only(st, only))
            &&& words_plain(only, st.variables, head.len() as int)
            &&& word_at(head + u, head.len() as int) < head.len() + u.len()
        }),
        st.pending is None,
        !u.contains(0x0A),
    ensures
        rule_may_end(
            reading_only(st, FrameView { buf: head + u, pos: head.len() as int, ..f }),
        ),
{
    let i = head.len() as int;
    let only = FrameView { buf: head + u, pos: i, ..f };
    let c = reading_only(st, only);
    assert(c.stack.last() == only);
    assert forall|r: int| i <= r < only.buf.len() implies #[trigger] only.buf[r] != 0x0A by {
        assert(only.buf[r] == u[r - i]);
        assert(u.contains(u[r - i]));
    }
    next_is_the_word(c, only, i);
    match bare_letters(only, c.variables, word_at(only.buf, i), Seq::empty()) {
        Letters::Done { text, pos } => {
            plain_words_may_end(expect(c, false).1, only, pos, Seq::empty());
        },
        Letters::Bad { .. } => {},
    }
}

} // verus!
