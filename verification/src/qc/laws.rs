//! What holds of every script: facts about tokens and flex rules.
use vstd::prelude::*;

use super::flexrule::{
    commas, emptied, infix, postfix, settled, shunt, shunt_one, unstack_tighter, unstack_to_open,
    without_commas, FlexOpKind, Names, OpView, MAX_OPS,
};
use super::lexer::{
    available, byte_at, feed, find_source, join, location, more_at, next, quote_end, skip, sound,
    started, without_mark, Letters, LexState, Step, TokenView, WaitView, MAX_TOKEN,
};

verus! {

/// A token that was given back is the next one, and nothing else has changed.
pub proof fn given_back_token_comes_next(st: LexState, t: TokenView, cross: bool)
    ensures
        next(LexState { pending: Some(t), ..st }, cross) == (
            Ok::<Option<TokenView>, super::error::ErrorView>(Some(t)),
            LexState { pending: None, ..st },
        ),
{
}

/// Characters with the same number are the same.
proof fn same_number_same_character(a: char, b: char)
    requires
        a as u32 == b as u32,
    ensures
        a == b,
{
    let x = seq![a];
    let y = seq![b];
    assert(x.drop_first() =~= y.drop_first());
    vstd::utf8::encode_utf8_decode_utf8(x);
    vstd::utf8::encode_utf8_decode_utf8(y);
    assert(x[0] == y[0]);
}

/// The byte order mark takes three bytes, which no other character starts with.
proof fn mark_is_three_bytes(text: Seq<char>)
    ensures
        vstd::utf8::encode_scalar(0xFEFF) =~= seq![0xEFu8, 0xBBu8, 0xBFu8],
        text.len() > 0 && text[0] != '\u{feff}' ==> without_mark(vstd::utf8::encode_utf8(text))
            == vstd::utf8::encode_utf8(text),
{
    assert(0xE0u8 | ((0xFEFFu32 >> 12) & 0x0F) as u8 == 0xEFu8) by (bit_vector);
    assert(0x80u8 | ((0xFEFFu32 >> 6) & 0x3F) as u8 == 0xBBu8) by (bit_vector);
    assert(0x80u8 | (0xFEFFu32 & 0x3F) as u8 == 0xBFu8) by (bit_vector);
    if text.len() > 0 {
        vstd::utf8::encode_utf8_first_scalar(text);
        let b = vstd::utf8::encode_utf8(text);
        if b.len() >= 3 && b[0] == 0xEF && b[1] == 0xBB && b[2] == 0xBF {
            assert((((0xEFu8 & 0x0F) as u32) << 12) | (((0xBBu8 & 0x3F) as u32) << 6) | ((0xBFu8
                & 0x3F) as u32) == 0xFEFFu32) by (bit_vector);
            assert(vstd::utf8::decode_first_scalar(b) == 0xFEFF);
            assert(text[0] as u32 == 0xFEFF);
            same_number_same_character(text[0], '\u{feff}');
        }
    }
}

/// A byte order mark at the start of a text changes nothing: the lexer is in the same state as
/// without it, so every later token is the same.
pub proof fn byte_order_mark_is_passed_over(st: LexState, name: Seq<char>, text: Seq<char>)
    requires
        text.len() > 0 ==> text[0] != '\u{feff}',
    ensures
        started(st, name, vstd::utf8::encode_utf8(seq!['\u{feff}'] + text)) == started(
            st,
            name,
            vstd::utf8::encode_utf8(text),
        ),
{
    let marked = seq!['\u{feff}'] + text;
    let bytes = vstd::utf8::encode_utf8(text);
    mark_is_three_bytes(text);
    assert(marked.drop_first() =~= text);
    assert(marked[0] as u32 == 0xFEFF);
    assert(without_mark(vstd::utf8::encode_utf8(marked)) =~= bytes);
    assert(without_mark(bytes) == bytes);
}

/// A text that is loaded starts on its first line, and a token that was given back before is gone.
pub proof fn loaded_text_starts_afresh(st: LexState, name: Seq<char>, text: Seq<char>)
    ensures
        location(started(st, name, vstd::utf8::encode_utf8(text))) == (name, 1nat),
        !started(st, name, vstd::utf8::encode_utf8(text)).ended,
        started(st, name, vstd::utf8::encode_utf8(text)).pending is None,
        started(st, name, vstd::utf8::encode_utf8(text)).loaded == st.loaded,
        started(st, name, vstd::utf8::encode_utf8(text)).qdir == st.qdir,
{
}

/// A carriage return ends no line: it counts as a blank.
pub proof fn carriage_return_is_a_blank(buf: Seq<u8>, pos: int, line: nat, cross: bool)
    requires
        0 <= pos < buf.len(),
        buf[pos] == 0x0D,
    ensures
        skip(buf, pos, line, cross) == skip(buf, pos + 1, line, cross),
        more_at(buf, pos) == more_at(buf, pos + 1),
{
}

/// Where no token is left on the line, none is found without crossing it.
proof fn nothing_on_the_line(buf: Seq<u8>, pos: int, line: nat)
    requires
        0 <= pos <= buf.len(),
        !more_at(buf, pos),
    ensures
        !(skip(buf, pos, line, false) is At),
    decreases buf.len() - pos,
{
    if pos < buf.len() && buf[pos] <= 32 && buf[pos] != 0x0A {
        nothing_on_the_line(buf, pos + 1, line);
    }
}

/// Where no token is left on the line, asking for one on the line is an error.
pub proof fn no_token_on_the_line_is_an_error(st: LexState)
    requires
        sound(st),
        st.pending is None,
        st.stack.len() > 0,
        !available(st),
    ensures
        next(st, false).0 is Err,
{
    let f = st.stack.last();
    assert(super::lexer::frame_sound(st.stack[st.stack.len() - 1], st.longest));
    nothing_on_the_line(f.buf, f.pos, f.line);
}

/// A file to take in that was not or could not be read is an error, whatever else is going on: it
/// is not passed over.
pub proof fn missing_files_are_errors(st: LexState, waits: Seq<WaitView>, t: TokenView)
    requires
        match find_source(st.sources, join(st.qdir, t.text), 0) {
            Some(i) => st.sources[i].failure is Some,
            None => true,
        },
    ensures
        feed(st, waits.push(WaitView::FileName), t) matches Step::Done { out, .. } && out is Err,
{
    assert(waits.push(WaitView::FileName).last() == WaitView::FileName);
}

/// In quotes nothing is replaced: the token is what stands between them, whatever variables and
/// parameters there are.
pub proof fn quotes_keep_the_text(st: LexState, pos: int)
    requires
        st.stack.len() > 0,
        byte_at(st.stack.last().buf, pos) == 0x22,
        quote_end(st.stack.last().buf, pos + 1) - (pos + 1) <= MAX_TOKEN,
    ensures
        super::lexer::letters_at(st, pos) matches Letters::Done { text, .. } && text
            == st.stack.last().buf.subrange(pos + 1, quote_end(st.stack.last().buf, pos + 1)),
{
}

/// A minus sign at the start of an expression takes a difference; it turns no sign.
pub proof fn first_minus_is_a_difference(
    names: Names,
    st: LexState,
    buf: Seq<Seq<char>>,
    ops: Seq<OpView>,
    cont: bool,
)
    requires
        sound(st),
        ops.len() > 0 ==> ops[0].op != FlexOpKind::Neg,
    ensures
        infix(names, st, buf, ops, cont).0 matches Ok(all) ==> all.len() > 0 ==> all[0].op
            != FlexOpKind::Neg,
    decreases super::lexer::left(st), buf.len(),
{
    super::flexrule::next_piece_leaves_less(st, buf, cont);
    let n = super::flexrule::next_piece(st, buf, cont);
    if cont || buf.len() > 0 || available(st) {
        match n.0 {
            Err(_) => {},
            Ok((p, more)) => {
                super::lexer::next_leaves_less(n.1, false);
                super::flexrule::next_piece_leaves_less(n.1, more, false);
                if super::flexrule::first_byte(p) == 0x5C {
                    let c = super::flexrule::confirmation(n.1, more);
                    match c.0 {
                        Ok(text) => {
                            if text.len() > 0 && text[0] == '\\' {
                                first_minus_is_a_difference(names, c.1, Seq::empty(), ops, true);
                            }
                        },
                        Err(_) => {},
                    }
                } else if ops.len() < MAX_OPS {
                    if super::flexrule::is_percent(p) {
                        let m = super::flexrule::next_piece(n.1, more, false);
                        match m.0 {
                            Ok((q, rest)) => match super::flexrule::fetched(names, q) {
                                Ok(op) => {
                                    first_minus_is_a_difference(
                                        names,
                                        m.1,
                                        rest,
                                        ops.push(op),
                                        false,
                                    );
                                },
                                Err(_) => {},
                            },
                            Err(_) => {},
                        }
                    } else {
                        match super::flexrule::operation(names, ops, p) {
                            Ok(op) => {
                                first_minus_is_a_difference(names, n.1, more, ops.push(op), false);
                            },
                            Err(_) => {},
                        }
                    }
                }
            },
        }
    }
}

/// No closing bracket among operations.
pub open spec fn no_closes(ops: Seq<OpView>) -> bool {
    forall|i: int| 0 <= i < ops.len() ==> (#[trigger] ops[i]).op != FlexOpKind::Close
}

proof fn unstacked_has_no_closes(stack: Seq<OpView>, out: Seq<OpView>)
    requires
        no_closes(stack),
        no_closes(out),
    ensures
        no_closes(unstack_to_open(stack, out).0),
        no_closes(unstack_to_open(stack, out).1),
    decreases stack.len(),
{
    if stack.len() > 0 && stack.last().op != FlexOpKind::Open {
        assert(stack[stack.len() - 1].op != FlexOpKind::Close);
        assert(no_closes(stack.drop_last()));
        unstacked_has_no_closes(stack.drop_last(), out.push(stack.last()));
    }
}

proof fn tighter_has_no_closes(kind: FlexOpKind, stack: Seq<OpView>, out: Seq<OpView>)
    requires
        no_closes(stack),
        no_closes(out),
    ensures
        no_closes(unstack_tighter(kind, stack, out).0),
        no_closes(unstack_tighter(kind, stack, out).1),
    decreases stack.len(),
{
    if stack.len() > 0 {
        assert(stack[stack.len() - 1].op != FlexOpKind::Close);
        assert(no_closes(stack.drop_last()));
        tighter_has_no_closes(kind, stack.drop_last(), out.push(stack.last()));
    }
}

proof fn shunted_has_no_closes(
    flex: Seq<char>,
    ops: Seq<OpView>,
    k: int,
    stack: Seq<OpView>,
    out: Seq<OpView>,
)
    requires
        0 <= k,
        no_closes(stack),
        no_closes(out),
        out.len() < MAX_OPS,
    ensures
        shunt(flex, ops, k, stack, out) matches Ok((s, o)) ==> no_closes(s) && no_closes(o)
            && o.len() < MAX_OPS,
    decreases ops.len() - k,
{
    if k < ops.len() && stack.len() < MAX_OPS {
        let op = settled(ops, k);
        let next = if k + 1 < ops.len() {
            Some(ops[k + 1])
        } else {
            None
        };
        unstacked_has_no_closes(stack, out);
        tighter_has_no_closes(op.op, stack, out);
        match shunt_one(op, next, stack, out) {
            Some((s, o)) => {
                assert(no_closes(s));
                assert(no_closes(o));
                if o.len() < MAX_OPS {
                    shunted_has_no_closes(flex, ops, k + 1, s, o);
                }
            },
            None => {},
        }
    }
}

proof fn emptied_has_no_closes(flex: Seq<char>, stack: Seq<OpView>, out: Seq<OpView>)
    requires
        no_closes(stack),
        no_closes(out),
        out.len() < MAX_OPS,
    ensures
        emptied(flex, stack, out) matches Ok(all) ==> no_closes(all) && all.len() < MAX_OPS,
    decreases stack.len(),
{
    if stack.len() > 0 && out.len() + 1 < MAX_OPS {
        assert(stack[stack.len() - 1].op != FlexOpKind::Close);
        assert(no_closes(stack.drop_last()));
        emptied_has_no_closes(flex, stack.drop_last(), out.push(stack.last()));
    }
}

proof fn left_without_commas(out: Seq<OpView>, n: int)
    requires
        0 <= n <= out.len(),
        no_closes(out),
    ensures
        without_commas(out, n) matches Some(done) ==> no_closes(done) && done.len() <= n,
    decreases n,
{
    if n > 0 {
        left_without_commas(out, n - 1);
        assert(out[n - 1].op != FlexOpKind::Close);
    }
}

proof fn no_commas_counted(ops: Seq<OpView>)
    requires
        commas(ops) == 0,
    ensures
        forall|i: int| 0 <= i < ops.len() ==> (#[trigger] ops[i]).op != FlexOpKind::Comma,
    decreases ops.len(),
{
    if ops.len() > 0 {
        no_commas_counted(ops.drop_last());
        assert forall|i: int| 0 <= i < ops.len() implies (#[trigger] ops[i]).op
            != FlexOpKind::Comma by {
            if i < ops.len() - 1 {
                assert(ops.drop_last()[i] == ops[i]);
            }
        }
    }
}

/// In postfix order there are no commas and no closing brackets, and no more operations than
/// are allowed.
pub proof fn postfix_is_plain(flex: Seq<char>, ops: Seq<OpView>)
    ensures
        postfix(flex, ops) matches Ok(done) ==> {
            &&& done.len() < MAX_OPS
            &&& forall|i: int|
                0 <= i < done.len() ==> (#[trigger] done[i]).op != FlexOpKind::Comma && done[i].op
                    != FlexOpKind::Close
        },
{
    let empty = Seq::<OpView>::empty();
    shunted_has_no_closes(flex, ops, 0, empty, empty);
    match shunt(flex, ops, 0, empty, empty) {
        Err(_) => {},
        Ok((stack, out)) => {
            emptied_has_no_closes(flex, stack, out);
            match emptied(flex, stack, out) {
                Err(_) => {},
                Ok(all) => {
                    left_without_commas(all, all.len() as int);
                    match without_commas(all, all.len() as int) {
                        None => {},
                        Some(done) => {
                            if commas(done) == 0 {
                                no_commas_counted(done);
                            }
                        },
                    }
                },
            }
        },
    }
}

} // verus!
