//! Reading the words and numbers of a command.
use vstd::prelude::*;

use super::error::{ErrorView, QcError};
use super::lexer::{available, error_at, expect, left, next, LexState, Lexer, Token, TokenView};
use super::model::Vector;
use crate::single::{digits_end, digits_value, parse, read_exponent, reading, skip_digits};
use crate::text::{chars_of, string_of};
use crate::words::{integer_reading, parse_integer, shown, shown_text, trim, trimmed};

verus! {

/// Where reading stands: at a place in the script, or at an error.
pub type At = Result<LexState, ErrorView>;

/// An error at a token, unless there was one before.
pub open spec fn fail_at(s: At, t: TokenView, message: Seq<char>) -> At {
    match s {
        Ok(_) => Err(ErrorView { file: t.file, line: t.line, message }),
        Err(e) => Err(e),
    }
}

/// An error at the place where reading stands, unless there was one before.
pub open spec fn fail_here(s: At, message: Seq<char>) -> At {
    match s {
        Ok(st) => Err(error_at(st, message)),
        Err(e) => Err(e),
    }
}

/// Whether there is another word on the line.
pub open spec fn more(s: At) -> bool {
    match s {
        Ok(st) => available(st),
        Err(_) => false,
    }
}

/// How much is left to read.
pub open spec fn left_at(s: At) -> nat {
    match s {
        Ok(st) => left(st),
        Err(_) => 0,
    }
}

/// Reading went on from `b` to `a`, without an error.
pub open spec fn went_on(a: At, b: At) -> bool {
    match (a, b) {
        (Ok(x), Ok(y)) => left(x) < left(y),
        _ => false,
    }
}

/// A token of nothing.
pub open spec fn no_token() -> TokenView {
    TokenView { text: Seq::empty(), quoted: false, file: Seq::empty(), line: 0 }
}

/// A token, of which there must be one.
pub open spec fn token(s: At, cross: bool) -> (TokenView, At) {
    match s {
        Ok(st) => match expect(st, cross) {
            (Ok(t), st) => (t, Ok(st)),
            (Err(e), _) => (no_token(), Err(e)),
        },
        Err(e) => (no_token(), Err(e)),
    }
}

/// The next token, wherever it stands; `None` where the script is over.
pub open spec fn any_token(s: At) -> (Option<TokenView>, At) {
    match s {
        Ok(st) => match next(st, true) {
            (Ok(t), st) => (t, Ok(st)),
            (Err(e), _) => (None, Err(e)),
        },
        Err(e) => (None, Err(e)),
    }
}

/// A token given back.
pub open spec fn given_back(s: At, t: TokenView) -> At {
    match s {
        Ok(st) => Ok(LexState { pending: Some(t), ..st }),
        Err(e) => Err(e),
    }
}

/// A word on the line.
pub open spec fn word(s: At) -> (Seq<char>, At) {
    let (t, s) = token(s, false);
    (t.text, s)
}

/// Whether a character can stand in a number.
pub open spec fn in_number(c: char) -> bool {
    '0' <= c <= '9' || c == '.' || c == '-' || c == '+' || c == 'e' || c == 'E'
}

/// The first place from `i` on that cannot stand in a number.
pub open spec fn number_end(s: Seq<char>, i: int) -> int
    decreases s.len() - i,
{
    if i < 0 || i >= s.len() || !in_number(s[i]) {
        i
    } else {
        number_end(s, i + 1)
    }
}

/// The number that a word stands for: all of it, or else the part that can stand in a number.
pub open spec fn number_of(word: Seq<char>) -> Option<u32> {
    let t = trimmed(word);
    match reading(t) {
        Some(v) => Some(v),
        None => reading(t.take(number_end(t, 0))),
    }
}

/// The integer that a word stands for, if it is a number.
pub open spec fn bare_number(word: Seq<char>) -> Option<i32> {
    integer_reading(trimmed(word))
}

/// The integer with which a word starts, a sign and digits; 0 where it starts with none, and the
/// nearest bound where it does not fit.
pub open spec fn leading_integer(s: Seq<char>) -> i32 {
    let k = if s.len() > 0 && (s[0] == '-' || s[0] == '+') {
        1int
    } else {
        0int
    };
    let n = digits_value(s.subrange(k, digits_end(s, k))) as int;
    if s.len() > 0 && s[0] == '-' {
        if n > 2147483648 {
            i32::MIN
        } else {
            (-n) as i32
        }
    } else if n > 2147483647 {
        i32::MAX
    } else {
        n as i32
    }
}

/// The integer that a word stands for: the number that it is, or the integer with which it starts.
pub open spec fn integer_of(word: Seq<char>) -> i32 {
    match bare_number(word) {
        Some(v) => v,
        None => leading_integer(trimmed(word)),
    }
}

/// A number on the line.
pub open spec fn num(s: At) -> (u32, At) {
    let (t, s) = token(s, false);
    match number_of(t.text) {
        Some(v) => (v, s),
        None => (0u32, fail_at(s, t, "期望数字，得到 "@ + shown_text(t.text))),
    }
}

/// An integer on the line.
pub open spec fn int_on(s: At) -> (i32, At) {
    let (t, s) = token(s, false);
    (integer_of(t.text), s)
}

/// Three numbers on the line.
pub open spec fn vector(s: At) -> (Vector, At) {
    let (x, s) = num(s);
    let (y, s) = num(s);
    let (z, s) = num(s);
    (Vector { x, y, z }, s)
}

/// The rest of the line left out. What is wrong in it stays unseen.
pub open spec fn rest_skipped(st: LexState) -> LexState
    decreases left(st),
{
    if !available(st) {
        st
    } else {
        match next(st, false) {
            (Ok(Some(_)), n) => if left(n) < left(st) {
                rest_skipped(n)
            } else {
                n
            },
            (_, n) => n,
        }
    }
}

/// The rest of the line left out.
pub open spec fn line_skipped(s: At) -> At {
    match s {
        Ok(st) => Ok(rest_skipped(st)),
        Err(e) => Err(e),
    }
}

/// A block is one deeper.
pub open spec fn deeper(depth: int) -> int {
    if depth < i32::MAX {
        depth + 1
    } else {
        depth
    }
}

/// A block is one less deep.
pub open spec fn shallower(depth: int) -> int {
    if depth > i32::MIN {
        depth - 1
    } else {
        depth
    }
}

/// The next token of a command that may have a block: in the block wherever it stands, outside
/// on the line.
pub open spec fn block_token(s: At, depth: int) -> (Option<TokenView>, At) {
    if depth > 0 {
        any_token(s)
    } else if more(s) {
        let (t, n) = token(s, false);
        (if n is Ok {
            Some(t)
        } else {
            None
        }, n)
    } else {
        (None, s)
    }
}

/// Two texts around a third, which is shown in quotes.
pub open spec fn around(a: Seq<char>, name: Seq<char>, b: Seq<char>) -> Seq<char> {
    a + shown_text(name) + b
}

/// `a`, `name` in quotes, and `b`.
pub fn put_around(a: &str, name: &str, b: &str) -> (r: String)
    ensures
        r@ == around(a@, name@, b@),
{
    let mut m: String = a.to_owned();
    let q: String = shown(name);
    m.push_str(q.as_str());
    m.push_str(b);
    m
}

/// A read came to `v` and `s`: it returned `r` and left the lexer as it now is.
pub open spec fn gave<T: View>(r: Result<T, QcError>, lex: LexState, v: T::V, s: At) -> bool {
    match r {
        Ok(x) => x@ == v && s == Ok::<LexState, ErrorView>(lex),
        Err(e) => s == Err::<LexState, ErrorView>(e@),
    }
}

/// As `gave`, of a plain value.
pub open spec fn gave_value<T>(r: Result<T, QcError>, lex: LexState, v: T, s: At) -> bool {
    match r {
        Ok(x) => x == v && s == Ok::<LexState, ErrorView>(lex),
        Err(e) => s == Err::<LexState, ErrorView>(e@),
    }
}

/// A command came to `want`: it returned `r` and left the lexer and what it worked on as they now
/// are.
pub open spec fn obeyed<D>(r: Result<(), QcError>, lex: LexState, d: D, want: (D, At)) -> bool {
    match r {
        Ok(_) => d == want.0 && want.1 == Ok::<LexState, ErrorView>(lex),
        Err(e) => want.1 == Err::<LexState, ErrorView>(e@),
    }
}

/// The error at a token.
pub fn error_for(t: &Token, message: String) -> (r: QcError)
    ensures
        r@ == (ErrorView { file: t@.file, line: t@.line, message: message@ }),
{
    QcError::new(t.file.clone(), t.line, message)
}

/// Reads a token.
pub fn tok(lex: &mut Lexer, crossline: bool) -> (r: Result<Token, QcError>)
    requires
        old(lex).wf(),
    ensures
        final(lex).wf(),
        ({
            let (v, s) = token(Ok(old(lex)@), crossline);
            gave(r, final(lex)@, v, s)
        }),
        left(final(lex)@) <= left(old(lex)@),
        r is Ok ==> left(final(lex)@) < left(old(lex)@),
{
    lex.expect_token(crossline)
}

/// Reads a word on the line.
pub fn read_word(lex: &mut Lexer) -> (r: Result<String, QcError>)
    requires
        old(lex).wf(),
    ensures
        final(lex).wf(),
        ({
            let (v, s) = word(Ok(old(lex)@));
            gave(r, final(lex)@, v, s)
        }),
        left(final(lex)@) <= left(old(lex)@),
        r is Ok ==> left(final(lex)@) < left(old(lex)@),
{
    match tok(lex, false) {
        Ok(t) => Ok(t.text),
        Err(e) => Err(e),
    }
}

/// The number that a word stands for.
pub fn parse_f(s: &str) -> (r: Option<u32>)
    ensures
        r == number_of(s@),
{
    let t: String = trim(s);
    if let Some(v) = parse(t.as_str()) {
        return Some(v);
    }
    let c: Vec<char> = chars_of(t.as_str());
    let mut e: usize = 0;
    while e < c.len() && (('0' <= c[e] && c[e] <= '9') || c[e] == '.' || c[e] == '-' || c[e] == '+'
        || c[e] == 'e' || c[e] == 'E')
        invariant
            e <= c@.len(),
            c@ == t@,
            number_end(t@, e as int) == number_end(t@, 0),
        decreases c@.len() - e,
    {
        e = e + 1;
    }
    let head: String = string_of(&c, 0, e);
    assert(head@ =~= t@.take(number_end(t@, 0)));
    parse(head.as_str())
}

/// The integer that a word stands for, if it is a number.
pub fn parse_bare(s: &str) -> (r: Option<i32>)
    ensures
        r == bare_number(s@),
{
    let t: String = trim(s);
    parse_integer(t.as_str())
}

/// The integer with which a word starts.
fn parse_leading(t: &str) -> (r: i32)
    ensures
        r == leading_integer(t@),
{
    let c: Vec<char> = chars_of(t);
    let minus: bool = c.len() > 0 && c[0] == '-';
    let k: usize = if c.len() > 0 && (c[0] == '-' || c[0] == '+') {
        1
    } else {
        0
    };
    let e: usize = skip_digits(&c, k);
    let digits: Vec<char> = chars_of(string_of(&c, k, e).as_str());
    assert(digits@ =~= t@.subrange(k as int, e as int));
    assert(digits@.skip(0) =~= digits@);
    assert forall|j: int| 0 <= j < digits@.len() implies crate::single::is_digit(
        #[trigger] digits@[j],
    ) by {
        assert(crate::single::is_digit(c@[k + j]));
    }
    let n: u128 = read_exponent(&digits, 0, 0xFFFF_FFFF_FFFF);
    if minus {
        if n > 2147483648 {
            i32::MIN
        } else {
            (-(n as i64)) as i32
        }
    } else if n > 2147483647 {
        i32::MAX
    } else {
        n as i32
    }
}

/// The integer that a word stands for. Every word stands for one.
pub fn parse_i(s: &str) -> (r: Option<i32>)
    ensures
        r == Some(integer_of(s@)),
{
    if let Some(v) = parse_bare(s) {
        return Some(v);
    }
    let t: String = trim(s);
    Some(parse_leading(t.as_str()))
}

/// Reads a number on the line.
pub fn f(lex: &mut Lexer) -> (r: Result<u32, QcError>)
    requires
        old(lex).wf(),
    ensures
        final(lex).wf(),
        ({
            let (v, s) = num(Ok(old(lex)@));
            gave_value(r, final(lex)@, v, s)
        }),
        left(final(lex)@) <= left(old(lex)@),
        r is Ok ==> left(final(lex)@) < left(old(lex)@),
{
    let t: Token = match tok(lex, false) {
        Ok(t) => t,
        Err(e) => {
            return Err(e);
        },
    };
    match parse_f(t.text.as_str()) {
        Some(v) => Ok(v),
        None => {
            let mut m: String = "期望数字，得到 ".to_owned();
            let q: String = shown(t.text.as_str());
            m.push_str(q.as_str());
            Err(error_for(&t, m))
        },
    }
}

/// Reads an integer on the line.
pub fn i(lex: &mut Lexer) -> (r: Result<i32, QcError>)
    requires
        old(lex).wf(),
    ensures
        final(lex).wf(),
        ({
            let (v, s) = int_on(Ok(old(lex)@));
            gave_value(r, final(lex)@, v, s)
        }),
        left(final(lex)@) <= left(old(lex)@),
        r is Ok ==> left(final(lex)@) < left(old(lex)@),
{
    let t: Token = match tok(lex, false) {
        Ok(t) => t,
        Err(e) => {
            return Err(e);
        },
    };
    match parse_i(t.text.as_str()) {
        Some(v) => Ok(v),
        None => Ok(0),
    }
}

/// Reads three numbers on the line.
pub fn v3(lex: &mut Lexer) -> (r: Result<Vector, QcError>)
    requires
        old(lex).wf(),
    ensures
        final(lex).wf(),
        ({
            let (v, s) = vector(Ok(old(lex)@));
            gave_value(r, final(lex)@, v, s)
        }),
        left(final(lex)@) <= left(old(lex)@),
        r is Ok ==> left(final(lex)@) < left(old(lex)@),
{
    let x: u32 = match f(lex) {
        Ok(v) => v,
        Err(e) => {
            return Err(e);
        },
    };
    let y: u32 = match f(lex) {
        Ok(v) => v,
        Err(e) => {
            return Err(e);
        },
    };
    let z: u32 = match f(lex) {
        Ok(v) => v,
        Err(e) => {
            return Err(e);
        },
    };
    Ok(Vector { x, y, z })
}

/// Leaves out the rest of the line.
pub fn skip_rest_of_line(lex: &mut Lexer)
    requires
        old(lex).wf(),
    ensures
        final(lex).wf(),
        final(lex)@ == rest_skipped(old(lex)@),
        left(final(lex)@) <= left(old(lex)@),
{
    loop
        invariant
            lex.wf(),
            rest_skipped(lex@) == rest_skipped(old(lex)@),
            left(lex@) <= left(old(lex)@),
        decreases left(lex@),
    {
        if !lex.token_available() {
            return;
        }
        match lex.next_token(false) {
            Ok(Some(_)) => {},
            _ => {
                return;
            },
        }
    }
}

/// A block is one deeper.
pub fn into(depth: i32) -> (r: i32)
    ensures
        r == deeper(depth as int),
{
    if depth < i32::MAX {
        depth + 1
    } else {
        depth
    }
}

/// A block is one less deep.
pub fn out_of(depth: i32) -> (r: i32)
    ensures
        r == shallower(depth as int),
{
    if depth > i32::MIN {
        depth - 1
    } else {
        depth
    }
}

/// Reads the next token of a command that may have a block.
pub fn read_in_block(lex: &mut Lexer, depth: i32) -> (r: Result<Option<Token>, QcError>)
    requires
        old(lex).wf(),
    ensures
        final(lex).wf(),
        ({
            let (v, s) = block_token(Ok(old(lex)@), depth as int);
            match r {
                Ok(Some(t)) => v == Some(t@) && s == Ok::<LexState, ErrorView>(final(lex)@),
                Ok(None) => v is None && s == Ok::<LexState, ErrorView>(final(lex)@),
                Err(e) => v is None && s == Err::<LexState, ErrorView>(e@),
            }
        }),
        left(final(lex)@) <= left(old(lex)@),
        r matches Ok(Some(_)) ==> left(final(lex)@) < left(old(lex)@),
{
    if depth > 0 {
        lex.next_token(true)
    } else if lex.token_available() {
        match tok(lex, false) {
            Ok(t) => Ok(Some(t)),
            Err(e) => Err(e),
        }
    } else {
        Ok(None)
    }
}

} // verus!
