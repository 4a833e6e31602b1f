//! Flex rules: infix expressions turned into a list of operations in postfix order.
use vstd::prelude::*;

use super::error::{ErrorView, QcError};
use super::lexer::{
    available, error_at, expect, find_name, left, next, next_leaves_less, sound, text_of, texts,
    LexState, Lexer, Token, TokenView,
};
use crate::single::{digits_end, negate, negated, reading};
use crate::text::{lower, same_but_case};

verus! {

/// The most operations an expression may have.
pub const MAX_OPS: usize = 512;

/// What an operation does.
#[derive(Debug, Clone, Copy, PartialEq, Eq, Structural)]
pub enum FlexOpKind {
    /// A number.
    Const,
    /// The value of a controller.
    Fetch1,
    /// The value of a flex.
    Fetch2,
    /// Sum.
    Add,
    /// Difference.
    Sub,
    /// Product.
    Mul,
    /// Quotient.
    Div,
    /// The other sign.
    Neg,
    /// Power.
    Exp,
    /// Opening bracket.
    Open,
    /// Closing bracket.
    Close,
    /// Comma.
    Comma,
    /// The larger of two.
    Max,
    /// The smaller of two.
    Min,
}

/// An operation.
#[derive(Debug, Clone, PartialEq)]
pub struct FlexOp {
    /// What it does.
    pub op: FlexOpKind,
    /// The number, as a bit pattern.
    pub value: Option<u32>,
    /// The controller.
    pub controller: Option<String>,
    /// The flex.
    pub flexdesc: Option<String>,
}

/// An operation as a mathematical value.
#[verifier::ext_equal]
pub struct OpView {
    /// What it does.
    pub op: FlexOpKind,
    /// The number, as a bit pattern.
    pub value: Option<u32>,
    /// The controller.
    pub controller: Option<Seq<char>>,
    /// The flex.
    pub flexdesc: Option<Seq<char>>,
}

impl View for FlexOp {
    type V = OpView;

    open spec fn view(&self) -> OpView {
        OpView {
            op: self.op,
            value: self.value,
            controller: super::lexer::text_if(self.controller),
            flexdesc: super::lexer::text_if(self.flexdesc),
        }
    }
}

/// A rule: what a flex is made of.
#[derive(Debug, Clone, PartialEq)]
pub struct FlexRule {
    /// The flex.
    pub flex: String,
    /// The operations, in postfix order.
    pub ops: Vec<FlexOp>,
}

/// A rule as a mathematical value.
#[verifier::ext_equal]
pub struct RuleView {
    /// The flex.
    pub flex: Seq<char>,
    /// The operations, in postfix order.
    pub ops: Seq<OpView>,
}

/// Operations as mathematical values.
pub open spec fn op_views(s: Seq<FlexOp>) -> Seq<OpView> {
    Seq::new(s.len(), |i: int| s[i]@)
}

impl View for FlexRule {
    type V = RuleView;

    open spec fn view(&self) -> RuleView {
        RuleView { flex: self.flex@, ops: op_views(self.ops@) }
    }
}

/// How tightly an operation binds.
pub open spec fn precedence_of(kind: FlexOpKind) -> int {
    match kind {
        FlexOpKind::Add | FlexOpKind::Sub => 1,
        FlexOpKind::Mul | FlexOpKind::Div => 2,
        FlexOpKind::Exp => 3,
        FlexOpKind::Neg => 4,
        FlexOpKind::Max | FlexOpKind::Min => 5,
        _ => 0,
    }
}

/// How tightly an operation binds.
fn precedence(kind: FlexOpKind) -> (r: u8)
    ensures
        r == precedence_of(kind),
{
    match kind {
        FlexOpKind::Add | FlexOpKind::Sub => 1,
        FlexOpKind::Mul | FlexOpKind::Div => 2,
        FlexOpKind::Exp => 3,
        FlexOpKind::Neg => 4,
        FlexOpKind::Max | FlexOpKind::Min => 5,
        _ => 0,
    }
}

/// `c` is an ASCII letter or an underscore.
pub open spec fn starts_word(c: u8) -> bool {
    0x41 <= c <= 0x5A || 0x61 <= c <= 0x7A || c == 0x5F
}

/// `c` is a digit or a point.
pub open spec fn in_number(c: u8) -> bool {
    0x30 <= c <= 0x39 || c == 0x2E
}

/// `c` can go on a word.
pub open spec fn in_word(c: u8) -> bool {
    starts_word(c) || 0x30 <= c <= 0x39
}

/// The first place from `i` on that does not go on a word.
pub open spec fn word_end(b: Seq<u8>, i: int) -> int
    decreases b.len() - i,
{
    if i < 0 || i >= b.len() || !in_word(b[i]) {
        i
    } else {
        word_end(b, i + 1)
    }
}

/// The first place from `i` on that does not go on a number.
pub open spec fn number_end(b: Seq<u8>, i: int) -> int
    decreases b.len() - i,
{
    if i < 0 || i >= b.len() || !in_number(b[i]) {
        i
    } else {
        number_end(b, i + 1)
    }
}

/// Where the piece of an expression ends that starts at `i`.
pub open spec fn piece_end(b: Seq<u8>, i: int) -> int {
    if starts_word(b[i]) {
        word_end(b, i + 1)
    } else if in_number(b[i]) {
        number_end(b, i + 1)
    } else {
        i + 1
    }
}

/// A comment starts at `i`.
pub open spec fn remark_at(b: Seq<u8>, i: int) -> bool {
    b[i] == 0x23 || b[i] == 0x2F && i + 1 < b.len() && b[i + 1] == 0x2F
}

/// The pieces of a token from `i` on: words, numbers and single bytes, up to a comment.
pub open spec fn pieces(b: Seq<u8>, i: int) -> Seq<Seq<char>>
    decreases b.len() - i,
{
    if i < 0 || i >= b.len() || remark_at(b, i) {
        Seq::empty()
    } else {
        let e = piece_end(b, i);
        if i < e <= b.len() {
            seq![text_of(b.subrange(i, e))] + pieces(b, e)
        } else {
            Seq::empty()
        }
    }
}

/// The pieces of a token; a token in quotes is one piece.
pub open spec fn split(t: TokenView) -> Seq<Seq<char>> {
    if t.quoted {
        seq![t.text]
    } else {
        pieces(vstd::utf8::encode_utf8(t.text), 0)
    }
}

/// The first byte of a text; 0 where it is empty.
pub open spec fn first_byte(s: Seq<char>) -> u8 {
    if s.len() == 0 {
        0
    } else {
        vstd::utf8::encode_utf8(s)[0]
    }
}

/// The next piece: one that is left of a token, or the first of the next token that has any.
pub open spec fn next_piece(st: LexState, buf: Seq<Seq<char>>, cross: bool) -> (
    Result<(Seq<char>, Seq<Seq<char>>), ErrorView>,
    LexState,
)
    decreases left(st),
        when sound(st)
        via next_piece_ends
{
    if buf.len() > 0 {
        (Ok((buf[0], buf.skip(1))), st)
    } else {
        let r = expect(st, cross);
        match r.0 {
            Ok(t) => next_piece(r.1, split(t), cross),
            Err(e) => (Err(e), r.1),
        }
    }
}

#[via_fn]
proof fn next_piece_ends(st: LexState, buf: Seq<Seq<char>>, cross: bool) {
    next_leaves_less(st, cross);
}

/// A piece is taken from what is left of a token, or leaves less of the script to read.
pub proof fn next_piece_leaves_less(st: LexState, buf: Seq<Seq<char>>, cross: bool)
    requires
        sound(st),
    ensures
        sound(next_piece(st, buf, cross).1),
        left(next_piece(st, buf, cross).1) <= left(st),
        next_piece(st, buf, cross).0 matches Ok((_, more)) ==> {
            ||| left(next_piece(st, buf, cross).1) < left(st)
            ||| more.len() < buf.len()
        },
    decreases left(st),
{
    if buf.len() == 0 {
        next_leaves_less(st, cross);
        let r = expect(st, cross);
        match r.0 {
            Ok(t) => {
                next_piece_leaves_less(r.1, split(t), cross);
            },
            Err(_) => {},
        }
    }
}

/// All pieces in one text.
pub open spec fn joined(buf: Seq<Seq<char>>) -> Seq<char>
    decreases buf.len(),
{
    if buf.len() == 0 {
        Seq::empty()
    } else {
        joined(buf.drop_last()) + buf.last()
    }
}

/// What follows the backslash that goes on with the next line.
pub open spec fn confirmation(st: LexState, buf: Seq<Seq<char>>) -> (
    Result<Seq<char>, ErrorView>,
    LexState,
) {
    if buf.len() > 0 {
        (Ok(joined(buf)), st)
    } else {
        let r = expect(st, false);
        match r.0 {
            Ok(t) => (Ok(t.text), r.1),
            Err(e) => (Err(e), r.1),
        }
    }
}

/// The digits at the start of a text, with at most one sign before them and one point among or
/// behind them.
pub open spec fn number_prefix(s: Seq<char>) -> Seq<char> {
    let start: int = if s.len() > 0 && (s[0] == '+' || s[0] == '-') {
        1
    } else {
        0
    };
    let i = digits_end(s, start);
    let e = if i < s.len() && s[i] == '.' {
        digits_end(s, i + 1)
    } else {
        i
    };
    s.subrange(0, e)
}

/// The number at the start of a text; zero where there is none.
pub open spec fn leading_number(s: Seq<char>) -> u32 {
    match reading(number_prefix(s)) {
        Some(b) => b,
        None => 0,
    }
}

/// An operation without an operand.
pub open spec fn plain(op: FlexOpKind) -> OpView {
    OpView { op, value: None, controller: None, flexdesc: None }
}

/// A minus sign: it turns the sign of what follows where an operand is due, but never at the
/// start.
pub open spec fn minus_kind(ops: Seq<OpView>) -> FlexOpKind {
    if ops.len() > 0 && (match ops.last().op {
        FlexOpKind::Open
        | FlexOpKind::Add
        | FlexOpKind::Sub
        | FlexOpKind::Mul
        | FlexOpKind::Div
        | FlexOpKind::Comma => true,
        _ => false,
    }) {
        FlexOpKind::Neg
    } else {
        FlexOpKind::Sub
    }
}

/// The names that an expression can use.
#[verifier::ext_equal]
pub struct Names {
    /// The flex that the rule is for.
    pub flex: Seq<char>,
    /// The controllers.
    pub controllers: Seq<Seq<char>>,
    /// The flexes.
    pub flexdescs: Seq<Seq<char>>,
}

/// What a piece that needs no other stands for, behind the operations `ops`. A percent sign needs
/// another piece.
pub open spec fn operation(names: Names, ops: Seq<OpView>, p: Seq<char>) -> Result<
    OpView,
    Seq<char>,
> {
    let c = first_byte(p);
    if c == 0x28 {
        Ok(plain(FlexOpKind::Open))
    } else if c == 0x29 {
        Ok(plain(FlexOpKind::Close))
    } else if c == 0x2B {
        Ok(plain(FlexOpKind::Add))
    } else if c == 0x2D {
        Ok(plain(minus_kind(ops)))
    } else if c == 0x2A {
        Ok(plain(FlexOpKind::Mul))
    } else if c == 0x2F {
        Ok(plain(FlexOpKind::Div))
    } else if 0x30 <= c <= 0x39 {
        Ok(OpView { value: Some(leading_number(p)), ..plain(FlexOpKind::Const) })
    } else if c == 0x2C {
        Ok(plain(FlexOpKind::Comma))
    } else if lower(p) == lower("max"@) {
        Ok(plain(FlexOpKind::Max))
    } else if lower(p) == lower("min"@) {
        Ok(plain(FlexOpKind::Min))
    } else {
        match find_name(names.controllers, p, 0) {
            Some(i) => Ok(
                OpView {
                    controller: Some(names.controllers[i]),
                    ..plain(FlexOpKind::Fetch1)
                },
            ),
            None => Err("unknown controller "@ + p),
        }
    }
}

/// The value of the flex that a piece names.
pub open spec fn fetched(names: Names, p: Seq<char>) -> Result<OpView, Seq<char>> {
    match find_name(names.flexdescs, p, 0) {
        Some(i) => Ok(OpView { flexdesc: Some(names.flexdescs[i]), ..plain(FlexOpKind::Fetch2) }),
        None => Err("unknown flex "@ + p),
    }
}

/// A piece that names a flex with the one behind it.
pub open spec fn is_percent(p: Seq<char>) -> bool {
    first_byte(p) == 0x25 && lower(p) != lower("max"@) && lower(p) != lower("min"@)
}

/// The complaint about an expression with too many operations.
pub open spec fn too_complicated(flex: Seq<char>) -> Seq<char> {
    "expression for \""@ + flex + "\" too complicated"@
}

/// The operations of an expression in the order in which they are written, behind `ops`. `cont`
/// says that the expression goes on with the next line.
pub open spec fn infix(
    names: Names,
    st: LexState,
    buf: Seq<Seq<char>>,
    ops: Seq<OpView>,
    cont: bool,
) -> (Result<Seq<OpView>, ErrorView>, LexState)
    decreases left(st), buf.len(),
        when sound(st)
        via infix_ends
{
    if !cont && buf.len() == 0 && !available(st) {
        (Ok(ops), st)
    } else {
        let n = next_piece(st, buf, cont);
        match n.0 {
            Err(e) => (Err(e), n.1),
            Ok((p, more)) => if first_byte(p) == 0x5C {
                let c = confirmation(n.1, more);
                match c.0 {
                    Err(e) => (Err(e), c.1),
                    Ok(text) => if text.len() > 0 && text[0] == '\\' {
                        infix(names, c.1, Seq::empty(), ops, true)
                    } else {
                        (Err(error_at(c.1, "unknown expression token '\\"@ + text)), c.1)
                    },
                }
            } else if ops.len() >= MAX_OPS {
                (Err(error_at(n.1, too_complicated(names.flex))), n.1)
            } else if is_percent(p) {
                let m = next_piece(n.1, more, false);
                match m.0 {
                    Err(e) => (Err(e), m.1),
                    Ok((q, rest)) => match fetched(names, q) {
                        Ok(op) => infix(names, m.1, rest, ops.push(op), false),
                        Err(message) => (Err(error_at(m.1, message)), m.1),
                    },
                }
            } else {
                match operation(names, ops, p) {
                    Ok(op) => infix(names, n.1, more, ops.push(op), false),
                    Err(message) => (Err(error_at(n.1, message)), n.1),
                }
            },
        }
    }
}

#[via_fn]
proof fn infix_ends(
    names: Names,
    st: LexState,
    buf: Seq<Seq<char>>,
    ops: Seq<OpView>,
    cont: bool,
) {
    next_piece_leaves_less(st, buf, cont);
    let n = next_piece(st, buf, cont);
    match n.0 {
        Ok((p, more)) => {
            next_leaves_less(n.1, false);
            next_piece_leaves_less(n.1, more, false);
        },
        Err(_) => {},
    }
}

/// Takes from the stack, onto the output, all that is above the innermost opening bracket.
pub open spec fn unstack_to_open(stack: Seq<OpView>, out: Seq<OpView>) -> (
    Seq<OpView>,
    Seq<OpView>,
)
    decreases stack.len(),
{
    if stack.len() == 0 || stack.last().op == FlexOpKind::Open {
        (stack, out)
    } else {
        unstack_to_open(stack.drop_last(), out.push(stack.last()))
    }
}

/// Takes from the stack, onto the output, all that binds at least as tightly as `kind`.
pub open spec fn unstack_tighter(kind: FlexOpKind, stack: Seq<OpView>, out: Seq<OpView>) -> (
    Seq<OpView>,
    Seq<OpView>,
)
    decreases stack.len(),
{
    if stack.len() == 0 || precedence_of(kind) > precedence_of(stack.last().op) {
        (stack, out)
    } else {
        unstack_tighter(kind, stack.drop_last(), out.push(stack.last()))
    }
}

/// What one operation does to the stack and the output; nothing where a bracket closes that was
/// never opened. `next` is the operation behind it.
pub open spec fn shunt_one(
    op: OpView,
    next: Option<OpView>,
    stack: Seq<OpView>,
    out: Seq<OpView>,
) -> Option<(Seq<OpView>, Seq<OpView>)> {
    match op.op {
        FlexOpKind::Const | FlexOpKind::Fetch1 | FlexOpKind::Fetch2 => Some((stack, out.push(op))),
        FlexOpKind::Open | FlexOpKind::Max | FlexOpKind::Min => Some((stack.push(op), out)),
        FlexOpKind::Close => {
            let u = unstack_to_open(stack, out);
            if u.0.len() == 0 {
                None
            } else {
                Some((u.0.drop_last(), u.1))
            }
        },
        FlexOpKind::Comma => {
            let u = unstack_to_open(stack, out);
            Some((u.0.push(op), u.1))
        },
        FlexOpKind::Add | FlexOpKind::Sub | FlexOpKind::Mul | FlexOpKind::Div => {
            let u = unstack_tighter(op.op, stack, out);
            Some((u.0.push(op), u.1))
        },
        FlexOpKind::Neg => if next matches Some(n) && n.op == FlexOpKind::Const {
            Some((stack, out))
        } else {
            Some((stack.push(op), out))
        },
        FlexOpKind::Exp => Some((stack, out)),
    }
}

/// The operation at `k`: a number behind a sign that is turned takes the sign on.
pub open spec fn settled(ops: Seq<OpView>, k: int) -> OpView {
    let op = ops[k];
    if k > 0 && ops[k - 1].op == FlexOpKind::Neg && op.op == FlexOpKind::Const {
        OpView {
            value: Some(
                negated(
                    match op.value {
                        Some(v) => v,
                        None => 0,
                    },
                ),
            ),
            ..op
        }
    } else {
        op
    }
}

/// Postfix order, from operation `k` on: what the stack and the output hold in the end, or a
/// complaint.
pub open spec fn shunt(
    flex: Seq<char>,
    ops: Seq<OpView>,
    k: int,
    stack: Seq<OpView>,
    out: Seq<OpView>,
) -> Result<(Seq<OpView>, Seq<OpView>), Seq<char>>
    decreases ops.len() - k,
{
    if k < 0 || k >= ops.len() {
        Ok((stack, out))
    } else if stack.len() >= MAX_OPS {
        Err("expression "@ + flex + " too complicated"@)
    } else {
        let next = if k + 1 < ops.len() {
            Some(ops[k + 1])
        } else {
            None
        };
        match shunt_one(settled(ops, k), next, stack, out) {
            None => Err("unmatched closed parentheses"@),
            Some((s, o)) => if o.len() >= MAX_OPS {
                Err(too_complicated(flex))
            } else {
                shunt(flex, ops, k + 1, s, o)
            },
        }
    }
}

/// The output with the stack emptied onto it.
pub open spec fn emptied(flex: Seq<char>, stack: Seq<OpView>, out: Seq<OpView>) -> Result<
    Seq<OpView>,
    Seq<char>,
>
    decreases stack.len(),
{
    if stack.len() == 0 {
        Ok(out)
    } else if out.len() + 1 >= MAX_OPS {
        Err(too_complicated(flex))
    } else {
        emptied(flex, stack.drop_last(), out.push(stack.last()))
    }
}

/// The operation takes the larger or the smaller of two.
pub open spec fn is_choice(op: OpView) -> bool {
    op.op == FlexOpKind::Max || op.op == FlexOpKind::Min
}

/// The first `n` operations without the commas that a choice of two takes up; nothing where a
/// choice has no comma before it.
pub open spec fn without_commas(out: Seq<OpView>, n: int) -> Option<Seq<OpView>>
    decreases n,
{
    if n <= 0 {
        Some(Seq::empty())
    } else {
        match without_commas(out, n - 1) {
            None => None,
            Some(done) => if is_choice(out[n - 1]) {
                if done.len() > 0 && done.last().op == FlexOpKind::Comma {
                    Some(done.drop_last().push(out[n - 1]))
                } else {
                    None
                }
            } else {
                Some(done.push(out[n - 1]))
            },
        }
    }
}

/// The commas among operations.
pub open spec fn commas(ops: Seq<OpView>) -> nat
    decreases ops.len(),
{
    if ops.len() == 0 {
        0
    } else {
        commas(ops.drop_last()) + if ops.last().op == FlexOpKind::Comma {
            1nat
        } else {
            0nat
        }
    }
}

/// Infix operations in postfix order, or a complaint.
pub open spec fn postfix(flex: Seq<char>, ops: Seq<OpView>) -> Result<Seq<OpView>, Seq<char>> {
    match shunt(flex, ops, 0, Seq::empty(), Seq::empty()) {
        Err(m) => Err(m),
        Ok((stack, out)) => match emptied(flex, stack, out) {
            Err(m) => Err(m),
            Ok(all) => match without_commas(all, all.len() as int) {
                None => Err("missing comma"@),
                Some(done) => if commas(done) != 0 {
                    Err("too many comma's"@)
                } else {
                    Ok(done)
                },
            },
        },
    }
}

/// The rule that the script gives next, behind the name of its flex: a token that stands for the
/// equals sign, and an expression up to the end of the line.
pub open spec fn rule(names: Names, st: LexState) -> (Result<RuleView, ErrorView>, LexState) {
    let r = expect(st, false);
    match r.0 {
        Err(e) => (Err(e), r.1),
        Ok(_) => {
            let i = infix(names, r.1, Seq::empty(), Seq::empty(), false);
            match i.0 {
                Err(e) => (Err(e), i.1),
                Ok(ops) => match postfix(names.flex, ops) {
                    Err(m) => (Err(error_at(i.1, m)), i.1),
                    Ok(done) => (Ok(RuleView { flex: names.flex, ops: done }), i.1),
                },
            }
        },
    }
}

fn is_word_start(c: u8) -> (r: bool)
    ensures
        r == starts_word(c),
{
    (0x41 <= c && c <= 0x5A) || (0x61 <= c && c <= 0x7A) || c == 0x5F
}

fn is_in_number(c: u8) -> (r: bool)
    ensures
        r == in_number(c),
{
    (0x30 <= c && c <= 0x39) || c == 0x2E
}

/// Where the piece that starts at `i` ends.
fn find_piece_end(b: &Vec<u8>, i: usize) -> (r: usize)
    requires
        i < b@.len(),
    ensures
        r == piece_end(b@, i as int),
        i < r <= b@.len(),
{
    let n: usize = b.len();
    let mut e: usize = i + 1;
    if is_word_start(b[i]) {
        while e < n && (is_word_start(b[e]) || (0x30 <= b[e] && b[e] <= 0x39))
            invariant
                i < e <= n,
                n == b@.len(),
                word_end(b@, e as int) == word_end(b@, i + 1),
            decreases n - e,
        {
            e = e + 1;
        }
    } else if is_in_number(b[i]) {
        while e < n && is_in_number(b[e])
            invariant
                i < e <= n,
                n == b@.len(),
                number_end(b@, e as int) == number_end(b@, i + 1),
            decreases n - e,
        {
            e = e + 1;
        }
    }
    e
}

/// The pieces of a token.
fn split_expr_tokens(t: &Token) -> (r: Vec<String>)
    ensures
        texts(r@) == split(t@),
{
    let mut out: Vec<String> = Vec::new();
    if t.quoted {
        out.push(t.text.clone());
        assert(texts(out@) =~= split(t@));
        return out;
    }
    let mut b: Vec<u8> = Vec::new();
    super::lexer::put_utf8(&mut b, t.text.as_str());
    assert(b@ =~= vstd::utf8::encode_utf8(t.text@));
    let mut i: usize = 0;
    assert(texts(out@) + pieces(b@, 0) =~= pieces(b@, 0));
    while i < b.len() && b[i] != 0x23 && !(b[i] == 0x2F && i + 1 < b.len() && b[i + 1] == 0x2F)
        invariant
            i <= b@.len(),
            texts(out@) + pieces(b@, i as int) == pieces(b@, 0),
        decreases b@.len() - i,
    {
        let e: usize = find_piece_end(&b, i);
        let piece: Vec<u8> = super::lexer::copy_bytes(&b, i, e);
        let text: String = super::lexer::text_from(&piece);
        let ghost before = texts(out@);
        out.push(text);
        assert(texts(out@) =~= before.push(text@));
        assert(texts(out@) + pieces(b@, e as int) =~= before + pieces(b@, i as int));
        i = e;
    }
    assert(pieces(b@, i as int) =~= Seq::empty());
    assert(texts(out@) =~= pieces(b@, 0));
    out
}

/// Reads the pieces of an expression.
struct ExprStream {
    /// What is left of a token.
    buf: Vec<String>,
}

impl ExprStream {
    /// The next piece.
    fn next(&mut self, lex: &mut Lexer, crossline: bool) -> (r: Result<String, QcError>)
        requires
            old(lex).wf(),
        ensures
            final(lex).wf(),
            left(final(lex)@) <= left(old(lex)@),
            final(lex)@ == next_piece(old(lex)@, texts(old(self).buf@), crossline).1,
            match (r, next_piece(old(lex)@, texts(old(self).buf@), crossline).0) {
                (Ok(p), Ok((q, more))) => p@ == q && texts(final(self).buf@) == more,
                (Err(e), Err(f)) => e@ == f,
                _ => false,
            },
    {
        let ghost start = next_piece(lex@, texts(self.buf@), crossline);
        while self.buf.len() == 0
            invariant
                lex.wf(),
                next_piece(lex@, texts(self.buf@), crossline) == start,
                start == next_piece(old(lex)@, texts(old(self).buf@), crossline),
                left(lex@) <= left(old(lex)@),
            decreases left(lex@),
        {
            match lex.expect_token(crossline) {
                Ok(t) => {
                    self.buf = split_expr_tokens(&t);
                },
                Err(e) => {
                    return Err(e);
                },
            }
        }
        let ghost before = texts(self.buf@);
        let p: String = self.buf.remove(0);
        assert(before[0] == p@);
        assert(texts(self.buf@) =~= before.skip(1));
        Ok(p)
    }

    /// What follows the backslash that goes on with the next line.
    fn take_continuation_confirm(&mut self, lex: &mut Lexer) -> (r: Result<String, QcError>)
        requires
            old(lex).wf(),
        ensures
            final(lex).wf(),
            left(final(lex)@) <= left(old(lex)@),
            final(lex)@ == confirmation(old(lex)@, texts(old(self).buf@)).1,
            match (r, confirmation(old(lex)@, texts(old(self).buf@)).0) {
                (Ok(p), Ok(q)) => p@ == q && final(self).buf@.len() == 0,
                (Err(e), Err(f)) => e@ == f,
                _ => false,
            },
    {
        if self.buf.len() > 0 {
            let ghost all = texts(self.buf@);
            let mut out: String = String::new();
            let mut i: usize = 0;
            assert(all.take(0) =~= Seq::empty());
            while i < self.buf.len()
                invariant
                    i <= self.buf@.len(),
                    all == texts(self.buf@),
                    out@ == joined(all.take(i as int)),
                decreases self.buf@.len() - i,
            {
                assert(all.take(i + 1).drop_last() =~= all.take(i as int));
                out.push_str(self.buf[i].as_str());
                i = i + 1;
            }
            assert(all.take(i as int) =~= all);
            self.buf = Vec::new();
            return Ok(out);
        }
        match lex.expect_token(false) {
            Ok(t) => Ok(t.text),
            Err(e) => Err(e),
        }
    }
}

/// An operation without an operand.
fn plain_op(op: FlexOpKind) -> (r: FlexOp)
    ensures
        r@ == plain(op),
{
    FlexOp { op, value: None, controller: None, flexdesc: None }
}

/// The first byte of a text; 0 where it is empty.
fn first_of(s: &str) -> (r: u8)
    ensures
        r == first_byte(s@),
{
    let b: &[u8] = s.as_bytes();
    if b.len() == 0 {
        proof {
            if s@.len() > 0 {
                vstd::utf8::encode_utf8_first_scalar(s@);
            }
        }
        0
    } else {
        b[0]
    }
}

/// The number at the start of a text; zero where there is none.
pub fn c_atof_prefix(text: &str) -> (r: u32)
    ensures
        r == leading_number(text@),
{
    let s: Vec<char> = crate::text::chars_of(text);
    let start: usize = if s.len() > 0 && (s[0] == '+' || s[0] == '-') {
        1
    } else {
        0
    };
    let i: usize = crate::single::skip_digits(&s, start);
    let e: usize = if i < s.len() && s[i] == '.' {
        crate::single::skip_digits(&s, i + 1)
    } else {
        i
    };
    let prefix: String = crate::text::string_of(&s, 0, e);
    match crate::single::parse(prefix.as_str()) {
        Some(b) => b,
        None => 0,
    }
}

/// The kind of a minus sign.
fn minus(ops: &Vec<FlexOp>) -> (r: FlexOpKind)
    ensures
        r == minus_kind(op_views(ops@)),
{
    let n: usize = ops.len();
    if n == 0 {
        return FlexOpKind::Sub;
    }
    assert(op_views(ops@).last() == ops@[n - 1]@);
    match ops[n - 1].op {
        FlexOpKind::Open
        | FlexOpKind::Add
        | FlexOpKind::Sub
        | FlexOpKind::Mul
        | FlexOpKind::Div
        | FlexOpKind::Comma => FlexOpKind::Neg,
        _ => FlexOpKind::Sub,
    }
}

/// A message made of two parts.
fn message(a: &str, b: &str) -> (r: String)
    ensures
        r@ == a@ + b@,
{
    let mut m: String = a.to_owned();
    m.push_str(b);
    m
}

/// What a piece that needs no other stands for.
fn classify(ops: &Vec<FlexOp>, p: &str, controllers: &Vec<String>, Ghost(names): Ghost<Names>) -> (r:
    Result<FlexOp, String>)
    requires
        names.controllers == texts(controllers@),
    ensures
        match (r, operation(names, op_views(ops@), p@)) {
            (Ok(a), Ok(b)) => a@ == b,
            (Err(a), Err(b)) => a@ == b,
            _ => false,
        },
{
    let c: u8 = first_of(p);
    if c == 0x28 {
        Ok(plain_op(FlexOpKind::Open))
    } else if c == 0x29 {
        Ok(plain_op(FlexOpKind::Close))
    } else if c == 0x2B {
        Ok(plain_op(FlexOpKind::Add))
    } else if c == 0x2D {
        Ok(plain_op(minus(ops)))
    } else if c == 0x2A {
        Ok(plain_op(FlexOpKind::Mul))
    } else if c == 0x2F {
        Ok(plain_op(FlexOpKind::Div))
    } else if 0x30 <= c && c <= 0x39 {
        Ok(
            FlexOp {
                op: FlexOpKind::Const,
                value: Some(c_atof_prefix(p)),
                controller: None,
                flexdesc: None,
            },
        )
    } else if c == 0x2C {
        Ok(plain_op(FlexOpKind::Comma))
    } else if same_but_case(p, "max") {
        Ok(plain_op(FlexOpKind::Max))
    } else if same_but_case(p, "min") {
        Ok(plain_op(FlexOpKind::Min))
    } else {
        match super::lexer::name_index(controllers, p) {
            Some(i) => Ok(
                FlexOp {
                    op: FlexOpKind::Fetch1,
                    value: None,
                    controller: Some(controllers[i].clone()),
                    flexdesc: None,
                },
            ),
            None => Err(message("unknown controller ", p)),
        }
    }
}

/// The value of the flex that a piece names.
fn fetch(p: &str, flexdescs: &Vec<String>, Ghost(names): Ghost<Names>) -> (r: Result<
    FlexOp,
    String,
>)
    requires
        names.flexdescs == texts(flexdescs@),
    ensures
        match (r, fetched(names, p@)) {
            (Ok(a), Ok(b)) => a@ == b,
            (Err(a), Err(b)) => a@ == b,
            _ => false,
        },
{
    match super::lexer::name_index(flexdescs, p) {
        Some(i) => Ok(
            FlexOp {
                op: FlexOpKind::Fetch2,
                value: None,
                controller: None,
                flexdesc: Some(flexdescs[i].clone()),
            },
        ),
        None => Err(message("unknown flex ", p)),
    }
}

/// The complaint about an expression with too many operations.
fn complain(flex: &str) -> (r: String)
    ensures
        r@ == too_complicated(flex@),
{
    let mut m: String = "expression for \"".to_owned();
    m.push_str(flex);
    m.push_str("\" too complicated");
    m
}

/// The operations of an expression in the order in which they are written.
fn read_infix(
    lex: &mut Lexer,
    flex: &str,
    controllers: &Vec<String>,
    flexdescs: &Vec<String>,
    Ghost(names): Ghost<Names>,
) -> (r: Result<Vec<FlexOp>, QcError>)
    requires
        old(lex).wf(),
        names == (Names {
            flex: flex@,
            controllers: texts(controllers@),
            flexdescs: texts(flexdescs@),
        }),
    ensures
        final(lex).wf(),
        left(final(lex)@) <= left(old(lex)@),
        final(lex)@ == infix(names, old(lex)@, Seq::empty(), Seq::empty(), false).1,
        match (r, infix(names, old(lex)@, Seq::empty(), Seq::empty(), false).0) {
            (Ok(a), Ok(b)) => op_views(a@) == b && b.len() <= MAX_OPS,
            (Err(a), Err(b)) => a@ == b,
            _ => false,
        },
{
    let ghost want = infix(names, lex@, Seq::empty(), Seq::empty(), false);
    let mut s = ExprStream { buf: Vec::new() };
    let mut ops: Vec<FlexOp> = Vec::new();
    let mut cont: bool = false;
    assert(texts(s.buf@) =~= Seq::empty());
    assert(op_views(ops@) =~= Seq::empty());
    while cont || s.buf.len() > 0 || lex.token_available()
        invariant
            lex.wf(),
            names == (Names {
                flex: flex@,
                controllers: texts(controllers@),
                flexdescs: texts(flexdescs@),
            }),
            infix(names, lex@, texts(s.buf@), op_views(ops@), cont) == want,
            want == infix(names, old(lex)@, Seq::empty(), Seq::empty(), false),
            ops@.len() <= MAX_OPS,
            left(lex@) <= left(old(lex)@),
        decreases left(lex@), s.buf@.len(),
    {
        proof {
            next_piece_leaves_less(lex@, texts(s.buf@), cont);
        }
        let p: String = match s.next(lex, cont) {
            Ok(p) => p,
            Err(e) => {
                return Err(e);
            },
        };
        proof {
            next_leaves_less(lex@, false);
            next_piece_leaves_less(lex@, texts(s.buf@), false);
        }
        if first_of(p.as_str()) == 0x5C {
            let text: String = match s.take_continuation_confirm(lex) {
                Ok(text) => text,
                Err(e) => {
                    return Err(e);
                },
            };
            let chars: Vec<char> = crate::text::chars_of(text.as_str());
            if chars.len() > 0 && chars[0] == '\\' {
                assert(texts(s.buf@) =~= Seq::empty());
                cont = true;
                continue;
            }
            return Err(lex.error(message("unknown expression token '\\", text.as_str())));
        }
        cont = false;
        if ops.len() >= MAX_OPS {
            return Err(lex.error(complain(flex)));
        }
        let percent: bool = first_of(p.as_str()) == 0x25 && !same_but_case(p.as_str(), "max")
            && !same_but_case(p.as_str(), "min");
        let ghost before = op_views(ops@);
        if percent {
            let q: String = match s.next(lex, false) {
                Ok(q) => q,
                Err(e) => {
                    return Err(e);
                },
            };
            match fetch(q.as_str(), flexdescs, Ghost(names)) {
                Ok(op) => {
                    ops.push(op);
                    assert(op_views(ops@) =~= before.push(op@));
                },
                Err(m) => {
                    return Err(lex.error(m));
                },
            }
        } else {
            match classify(&ops, p.as_str(), controllers, Ghost(names)) {
                Ok(op) => {
                    ops.push(op);
                    assert(op_views(ops@) =~= before.push(op@));
                },
                Err(m) => {
                    return Err(lex.error(m));
                },
            }
        }
    }
    Ok(ops)
}

/// Takes the top of the stack to the output.
fn unstack(stack: &mut Vec<FlexOp>, out: &mut Vec<FlexOp>)
    requires
        old(stack)@.len() > 0,
    ensures
        op_views(final(stack)@) == op_views(old(stack)@).drop_last(),
        op_views(final(out)@) == op_views(old(out)@).push(op_views(old(stack)@).last()),
        final(stack)@.len() + 1 == old(stack)@.len(),
{
    match stack.pop() {
        Some(op) => out.push(op),
        None => {},
    }
    assert(op_views(stack@) =~= op_views(old(stack)@).drop_last());
    assert(op_views(out@) =~= op_views(old(out)@).push(op_views(old(stack)@).last()));
}

/// Takes from the stack all that is above the innermost opening bracket.
fn unstack_all_to_open(stack: &mut Vec<FlexOp>, out: &mut Vec<FlexOp>)
    ensures
        (op_views(final(stack)@), op_views(final(out)@)) == unstack_to_open(
            op_views(old(stack)@),
            op_views(old(out)@),
        ),
        final(stack)@.len() <= old(stack)@.len(),
{
    let ghost want = unstack_to_open(op_views(stack@), op_views(out@));
    while stack.len() > 0 && stack[stack.len() - 1].op != FlexOpKind::Open
        invariant
            unstack_to_open(op_views(stack@), op_views(out@)) == want,
            stack@.len() <= old(stack)@.len(),
        decreases stack@.len(),
    {
        assert(op_views(stack@).last() == stack@[stack@.len() - 1]@);
        unstack(stack, out);
    }
    assert(stack@.len() > 0 ==> op_views(stack@).last() == stack@[stack@.len() - 1]@);
}

/// Takes from the stack all that binds at least as tightly as `kind`.
fn unstack_all_tighter(kind: FlexOpKind, stack: &mut Vec<FlexOp>, out: &mut Vec<FlexOp>)
    ensures
        (op_views(final(stack)@), op_views(final(out)@)) == unstack_tighter(
            kind,
            op_views(old(stack)@),
            op_views(old(out)@),
        ),
        final(stack)@.len() <= old(stack)@.len(),
{
    let ghost want = unstack_tighter(kind, op_views(stack@), op_views(out@));
    while stack.len() > 0 && precedence(kind) <= precedence(stack[stack.len() - 1].op)
        invariant
            unstack_tighter(kind, op_views(stack@), op_views(out@)) == want,
            stack@.len() <= old(stack)@.len(),
        decreases stack@.len(),
    {
        assert(op_views(stack@).last() == stack@[stack@.len() - 1]@);
        unstack(stack, out);
    }
    assert(stack@.len() > 0 ==> op_views(stack@).last() == stack@[stack@.len() - 1]@);
}

/// Puts an operation on a list.
fn push_stack(stack: &mut Vec<FlexOp>, op: FlexOp)
    ensures
        op_views(final(stack)@) == op_views(old(stack)@).push(op@),
        final(stack)@.len() == old(stack)@.len() + 1,
{
    stack.push(op);
    assert(op_views(stack@) =~= op_views(old(stack)@).push(op@));
}

/// What one operation does to the stack and the output; `false` where a bracket closes that was
/// never opened.
fn shunt_op(op: FlexOp, before_number: bool, stack: &mut Vec<FlexOp>, out: &mut Vec<FlexOp>, Ghost(
    next,
): Ghost<Option<OpView>>) -> (r: bool)
    requires
        before_number == (next matches Some(n) && n.op == FlexOpKind::Const),
    ensures
        match shunt_one(op@, next, op_views(old(stack)@), op_views(old(out)@)) {
            Some((s, o)) => r && op_views(final(stack)@) == s && op_views(final(out)@) == o,
            None => !r,
        },
{
    match op.op {
        FlexOpKind::Const | FlexOpKind::Fetch1 | FlexOpKind::Fetch2 => {
            push_stack(out, op);
        },
        FlexOpKind::Open | FlexOpKind::Max | FlexOpKind::Min => {
            push_stack(stack, op);
        },
        FlexOpKind::Close => {
            unstack_all_to_open(stack, out);
            if stack.len() == 0 {
                return false;
            }
            let ghost before = op_views(stack@);
            let _ = stack.pop();
            assert(op_views(stack@) =~= before.drop_last());
        },
        FlexOpKind::Comma => {
            unstack_all_to_open(stack, out);
            push_stack(stack, op);
        },
        FlexOpKind::Add | FlexOpKind::Sub | FlexOpKind::Mul | FlexOpKind::Div => {
            unstack_all_tighter(op.op, stack, out);
            push_stack(stack, op);
        },
        FlexOpKind::Neg => {
            if !before_number {
                push_stack(stack, op);
            }
        },
        FlexOpKind::Exp => {},
    }
    true
}

/// The operation at `k`, with the sign that it takes on.
fn settle(ops: &Vec<FlexOp>, k: usize) -> (r: FlexOp)
    requires
        k < ops@.len(),
    ensures
        r@ == settled(op_views(ops@), k as int),
{
    let op: &FlexOp = &ops[k];
    assert(op_views(ops@)[k as int] == op@);
    assert(k > 0 ==> op_views(ops@)[k - 1] == ops@[k - 1]@);
    let controller: Option<String> = match &op.controller {
        Some(s) => Some(s.clone()),
        None => None,
    };
    let flexdesc: Option<String> = match &op.flexdesc {
        Some(s) => Some(s.clone()),
        None => None,
    };
    if k > 0 && ops[k - 1].op == FlexOpKind::Neg && op.op == FlexOpKind::Const {
        let v: u32 = match op.value {
            Some(v) => v,
            None => 0,
        };
        FlexOp { op: op.op, value: Some(negate(v)), controller, flexdesc }
    } else {
        FlexOp { op: op.op, value: op.value, controller, flexdesc }
    }
}

/// The output without the commas that a choice of two takes up, and how many are left.
fn eat_commas(out: Vec<FlexOp>) -> (r: Option<(Vec<FlexOp>, usize)>)
    ensures
        match r {
            Some((done, n)) => {
                &&& without_commas(op_views(out@), out@.len() as int) == Some(op_views(done@))
                &&& n == commas(op_views(done@))
            },
            None => without_commas(op_views(out@), out@.len() as int) is None,
        },
{
    let ghost all = op_views(out@);
    let n: usize = out.len();
    let mut rest: Vec<FlexOp> = out;
    let mut done: Vec<FlexOp> = Vec::new();
    let mut count: usize = 0;
    let mut i: usize = 0;
    assert(op_views(done@) =~= Seq::empty());
    while i < n
        invariant
            i <= n,
            n == all.len(),
            all == op_views(out@),
            op_views(rest@) == all.skip(i as int),
            rest@.len() == n - i,
            without_commas(all, i as int) == Some(op_views(done@)),
            count == commas(op_views(done@)),
            count <= done@.len(),
            done@.len() <= i,
        decreases n - i,
    {
        let ghost left = op_views(rest@);
        let op: FlexOp = rest.remove(0);
        assert(left[0] == op@);
        assert(left[0] == all[i as int]);
        assert(op_views(rest@) =~= left.skip(1));
        assert(left.skip(1) =~= all.skip(i + 1));
        let ghost before = op_views(done@);
        proof {
            stays_none(all, i + 1, n as int);
        }
        if op.op == FlexOpKind::Max || op.op == FlexOpKind::Min {
            let m: usize = done.len();
            assert(m > 0 ==> before.last() == done@[m - 1]@);
            if m > 0 && done[m - 1].op == FlexOpKind::Comma {
                let _ = done.pop();
                done.push(op);
                count = count - 1;
                let ghost after = op_views(done@);
                assert(after =~= before.drop_last().push(op@));
                assert(after.drop_last() =~= before.drop_last());
            } else {
                return None;
            }
        } else {
            if op.op == FlexOpKind::Comma {
                count = count + 1;
            }
            done.push(op);
            let ghost after = op_views(done@);
            assert(after =~= before.push(op@));
            assert(after.drop_last() =~= before);
        }
        i = i + 1;
    }
    Some((done, count))
}

/// Once a choice has no comma before it, nothing that follows helps.
proof fn stays_none(out: Seq<OpView>, m: int, n: int)
    requires
        0 <= m <= n,
    ensures
        without_commas(out, m) is None ==> without_commas(out, n) is None,
    decreases n - m,
{
    if m < n {
        stays_none(out, m, n - 1);
    }
}

/// Infix operations in postfix order, or a complaint.
fn to_postfix(flex: &str, ops: &Vec<FlexOp>) -> (r: Result<Vec<FlexOp>, String>)
    ensures
        match (r, postfix(flex@, op_views(ops@))) {
            (Ok(a), Ok(b)) => op_views(a@) == b,
            (Err(a), Err(b)) => a@ == b,
            _ => false,
        },
{
    let ghost v = op_views(ops@);
    let ghost want = shunt(flex@, v, 0, Seq::empty(), Seq::empty());
    let mut stack: Vec<FlexOp> = Vec::new();
    let mut out: Vec<FlexOp> = Vec::new();
    let mut k: usize = 0;
    assert(op_views(stack@) =~= Seq::empty());
    while k < ops.len()
        invariant
            k <= ops@.len(),
            v == op_views(ops@),
            want == shunt(flex@, v, 0, Seq::empty(), Seq::empty()),
            shunt(flex@, v, k as int, op_views(stack@), op_views(out@)) == want,
        decreases ops@.len() - k,
    {
        if stack.len() >= MAX_OPS {
            let mut m: String = "expression ".to_owned();
            m.push_str(flex);
            m.push_str(" too complicated");
            return Err(m);
        }
        let op: FlexOp = settle(ops, k);
        let before_number: bool = k + 1 < ops.len() && ops[k + 1].op == FlexOpKind::Const;
        let ghost next = if k + 1 < v.len() {
            Some(v[k + 1])
        } else {
            None
        };
        if !shunt_op(op, before_number, &mut stack, &mut out, Ghost(next)) {
            return Err("unmatched closed parentheses".to_owned());
        }
        if out.len() >= MAX_OPS {
            return Err(complain(flex));
        }
        k = k + 1;
    }
    let ghost all = emptied(flex@, op_views(stack@), op_views(out@));
    while stack.len() > 0
        invariant
            emptied(flex@, op_views(stack@), op_views(out@)) == all,
            all == (match want {
                Ok((s, o)) => emptied(flex@, s, o),
                Err(_) => all,
            }),
            want is Ok,
            want == shunt(flex@, v, 0, Seq::empty(), Seq::empty()),
            v == op_views(ops@),
        decreases stack@.len(),
    {
        if out.len() >= MAX_OPS - 1 {
            return Err(complain(flex));
        }
        unstack(&mut stack, &mut out);
    }
    match eat_commas(out) {
        None => Err("missing comma".to_owned()),
        Some((done, n)) => {
            if n != 0 {
                Err("too many comma's".to_owned())
            } else {
                Ok(done)
            }
        },
    }
}

/// Reads a rule, behind the name of its flex: a token that stands for the equals sign, and an
/// expression up to the end of the line. Controllers and flexes are found by name, in any ASCII
/// case.
pub fn parse_flexrule(
    lex: &mut Lexer,
    flex_name: &str,
    controllers: &Vec<String>,
    flexdescs: &Vec<String>,
) -> (r: Result<FlexRule, QcError>)
    requires
        old(lex).wf(),
    ensures
        final(lex).wf(),
        left(final(lex)@) <= left(old(lex)@),
        ({
            let names = Names {
                flex: flex_name@,
                controllers: texts(controllers@),
                flexdescs: texts(flexdescs@),
            };
            &&& final(lex)@ == rule(names, old(lex)@).1
            &&& match (r, rule(names, old(lex)@).0) {
                (Ok(a), Ok(b)) => a@ == b,
                (Err(a), Err(b)) => a@ == b,
                _ => false,
            }
        }),
{
    let ghost names = Names {
        flex: flex_name@,
        controllers: texts(controllers@),
        flexdescs: texts(flexdescs@),
    };
    match lex.expect_token(false) {
        Ok(_) => {},
        Err(e) => {
            return Err(e);
        },
    }
    let ops: Vec<FlexOp> = match read_infix(lex, flex_name, controllers, flexdescs, Ghost(names)) {
        Ok(ops) => ops,
        Err(e) => {
            return Err(e);
        },
    };
    match to_postfix(flex_name, &ops) {
        Ok(ops) => Ok(FlexRule { flex: flex_name.to_owned(), ops }),
        Err(m) => Err(lex.error(m)),
    }
}

} // verus!
