//! Lines of a script as words, and what the words of one are read as.
use vstd::prelude::*;

use super::error::ErrorView;
use super::lexer::{available, expect, next_leaves_less, sound, LexState};
use super::model::Vector;
use super::read::{int_on, integer_of, more, num, number_of, token, vector, went_on, word, At};

verus! {

/// The lexer behind `n` tokens of the line.
pub open spec fn after(st: LexState, n: nat) -> LexState
    decreases n,
{
    if n == 0 {
        st
    } else {
        expect(after(st, (n - 1) as nat), false).1
    }
}

/// The rest of the line is the words `w`, and the lexer stands at `end` behind them.
pub open spec fn line_is(st: LexState, w: Seq<Seq<char>>, end: LexState) -> bool {
    &&& sound(st)
    &&& after(st, w.len()) == end
    &&& !available(end)
    &&& forall|i: nat|
        i < w.len() ==> available(#[trigger] after(st, i)) && (expect(after(st, i), false).0
            matches Ok(t) && t.text == w[i as int])
}

/// The words from `from` to `to` are numbers.
pub open spec fn numbers(w: Seq<Seq<char>>, from: int, to: int) -> bool {
    forall|i: int| from <= i < to ==> number_of(#[trigger] w[i]) is Some
}

/// The number that word `i` gives.
pub open spec fn n(w: Seq<Seq<char>>, i: int) -> u32 {
    number_of(w[i])->Some_0
}

proof fn stays_sound(st: LexState, i: nat)
    requires
        sound(st),
    ensures
        sound(after(st, i)),
    decreases i,
{
    if i > 0 {
        stays_sound(st, (i - 1) as nat);
        next_leaves_less(after(st, (i - 1) as nat), false);
    }
}

/// Word `i` of a line is read, whatever it is read as.
pub proof fn read_word(st: LexState, w: Seq<Seq<char>>, end: LexState, i: nat)
    requires
        line_is(st, w, end),
        i < w.len(),
    ensures
        ({
            let s: At = Ok::<LexState, ErrorView>(after(st, i));
            let t: At = Ok::<LexState, ErrorView>(after(st, i + 1));
            &&& more(s)
            &&& went_on(t, s)
            &&& token(s, false).0.text == w[i as int]
            &&& token(s, false).1 == t
            &&& word(s) == (w[i as int], t)
            &&& int_on(s) == (integer_of(w[i as int]), t)
            &&& number_of(w[i as int]) is Some ==> num(s) == (n(w, i as int), t)
        }),
        i + 1 == w.len() ==> after(st, i + 1) == end && !available(after(st, i + 1)),
{
    stays_sound(st, i);
    let a = after(st, i);
    assert(available(after(st, i)));
    next_leaves_less(a, false);
    assert(after(st, i + 1) == expect(a, false).1);
}

/// Each word leaves less to read.
pub proof fn goes_on(st: LexState, w: Seq<Seq<char>>, end: LexState, i: nat, j: nat)
    requires
        line_is(st, w, end),
        i < j <= w.len(),
    ensures
        went_on(
            Ok::<LexState, ErrorView>(after(st, j)),
            Ok::<LexState, ErrorView>(after(st, i)),
        ),
    decreases j - i,
{
    read_word(st, w, end, (j - 1) as nat);
    if i < j - 1 {
        goes_on(st, w, end, i, (j - 1) as nat);
    }
}

/// Three words of a line are read as a vector.
pub proof fn read_vector(st: LexState, w: Seq<Seq<char>>, end: LexState, i: nat)
    requires
        line_is(st, w, end),
        i + 3 <= w.len(),
        numbers(w, i as int, (i + 3) as int),
    ensures
        vector(Ok::<LexState, ErrorView>(after(st, i))) == (
            Vector { x: n(w, i as int), y: n(w, (i + 1) as int), z: n(w, (i + 2) as int) },
            Ok::<LexState, ErrorView>(after(st, i + 3)),
        ),
        more(Ok::<LexState, ErrorView>(after(st, i))),
{
    read_word(st, w, end, i);
    read_word(st, w, end, i + 1);
    read_word(st, w, end, i + 2);
}

/// Behind the last word nothing is left on the line.
pub proof fn read_to_end(st: LexState, w: Seq<Seq<char>>, end: LexState)
    requires
        line_is(st, w, end),
    ensures
        after(st, 0) == st,
        after(st, w.len()) == end,
        !more(Ok::<LexState, ErrorView>(end)),
{
}

} // verus!
