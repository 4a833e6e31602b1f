//! What texts hold: their lines and words, and the numbers that are written in them.
use vstd::arithmetic::power2::{lemma_pow2_pos, pow2};
use vstd::prelude::*;

use crate::across::{one, rounded_rounds};
use crate::arith::exact;
use crate::qc::read::{bare_number, integer_of, number_of};
use crate::single::{
    digits_end, digits_value, is_digit, magnitude_of, reading, rounds_to, ten_to, truncated, units,
    whole, INFINITE,
};
use crate::text::{decimal, digit, forward, lower, lower_char, without_end_slashes};
use crate::words::{
    find_char, is_space, lines, lines_from, slashes_at, space_end, trimmed, whole_reading,
    without_back_quotes, without_back_space, without_front_quotes, word_end, words, words_from,
};

verus! {

proof fn char_is_found(s: Seq<char>, c: char, i: int, e: int)
    requires
        0 <= i <= e <= s.len(),
        forall|k: int| i <= k < e ==> #[trigger] s[k] != c,
        e < s.len() ==> s[e] == c,
    ensures
        find_char(s, c, i) == e,
    decreases e - i,
{
    if i < e {
        char_is_found(s, c, i + 1, e);
    }
}

proof fn chars_move(s: Seq<char>, c: char, k: int, i: int)
    requires
        0 <= k <= s.len(),
        0 <= i,
    ensures
        find_char(s, c, k + i) == k + find_char(s.skip(k), c, i),
        i <= s.len() - k ==> i <= find_char(s.skip(k), c, i) <= s.len() - k,
    decreases s.len() - k - i,
{
    if k + i < s.len() && s[k + i] != c {
        chars_move(s, c, k, i + 1);
    }
}

proof fn lines_move(s: Seq<char>, k: int, i: int)
    requires
        0 <= k <= s.len(),
        0 <= i,
    ensures
        lines_from(s, k + i) == lines_from(s.skip(k), i),
    decreases s.len() - k - i,
{
    if k + i < s.len() {
        chars_move(s, '\n', k, i);
        let e = find_char(s.skip(k), '\n', i);
        if e < s.len() - k {
            lines_move(s, k, e + 1);
            assert(s.subrange(k + i, k + e) =~= s.skip(k).subrange(i, e));
        } else {
            assert(s.subrange(k + i, s.len() as int) =~= s.skip(k).subrange(i, s.len() - k));
        }
    }
}

/// What stands before the first line end is the first line, and the lines of what stands behind it
/// are the others.
pub proof fn lines_part_at_their_ends(a: Seq<char>, rest: Seq<char>)
    requires
        !a.contains('\n'),
    ensures
        lines(a + seq!['\n'] + rest) == seq![a] + lines(rest),
        a.len() > 0 ==> lines(a) == seq![a],
        lines(Seq::empty()) == Seq::<Seq<char>>::empty(),
{
    let s = a + seq!['\n'] + rest;
    let e = a.len() as int;
    assert forall|k: int| 0 <= k < e implies #[trigger] s[k] != '\n' by {
        assert(s[k] == a[k]);
        assert(a.contains(a[k]));
    }
    assert forall|k: int| 0 <= k < e implies #[trigger] a[k] != '\n' by {
        assert(a.contains(a[k]));
    }
    char_is_found(s, '\n', 0, e);
    char_is_found(a, '\n', 0, e);
    assert(s.subrange(0, e) =~= a);
    assert(a.subrange(0, e) =~= a);
    lines_move(s, e + 1, 0);
    assert(s.skip(e + 1) =~= rest);
}

proof fn words_move(s: Seq<char>, k: int, i: int)
    requires
        0 <= k <= s.len(),
        0 <= i <= s.len() - k,
    ensures
        words_from(s, k + i) == words_from(s.skip(k), i),
    decreases s.len() - k - i,
{
    let t = s.skip(k);
    spaces_move(s, k, i);
    let a = space_end(t, i);
    ends_move(s, k, a);
    let e = word_end(t, a);
    if a < e {
        words_move(s, k, e);
        assert(s.subrange(k + a, k + e) =~= t.subrange(a, e));
    }
}

proof fn spaces_move(s: Seq<char>, k: int, i: int)
    requires
        0 <= k <= s.len(),
        0 <= i <= s.len() - k,
    ensures
        space_end(s, k + i) == k + space_end(s.skip(k), i),
        i <= space_end(s.skip(k), i) <= s.len() - k,
    decreases s.len() - k - i,
{
    if k + i < s.len() && is_space(s[k + i]) {
        spaces_move(s, k, i + 1);
    }
}

proof fn ends_move(s: Seq<char>, k: int, i: int)
    requires
        0 <= k <= s.len(),
        0 <= i <= s.len() - k,
    ensures
        word_end(s, k + i) == k + word_end(s.skip(k), i),
        i <= word_end(s.skip(k), i) <= s.len() - k,
    decreases s.len() - k - i,
{
    if k + i < s.len() && !is_space(s[k + i]) {
        ends_move(s, k, i + 1);
    }
}

proof fn word_goes_on(s: Seq<char>, i: int, e: int)
    requires
        0 <= i <= e <= s.len(),
        forall|k: int| i <= k < e ==> !is_space(#[trigger] s[k]),
        e < s.len() ==> is_space(s[e]),
    ensures
        word_end(s, i) == e,
    decreases e - i,
{
    if i < e {
        word_goes_on(s, i + 1, e);
    }
}

/// A word before a blank is the first word, and the words of what stands behind the blank are the
/// others; a blank before the first word counts for nothing.
pub proof fn words_part_at_blanks(x: Seq<char>, c: char, rest: Seq<char>)
    requires
        x.len() > 0,
        forall|k: int| 0 <= k < x.len() ==> !is_space(#[trigger] x[k]),
        is_space(c),
    ensures
        words(x + seq![c] + rest) == seq![x] + words(rest),
        words(x) == seq![x],
        words(seq![c] + rest) == words(rest),
        words(Seq::empty()) == Seq::<Seq<char>>::empty(),
{
    let s = x + seq![c] + rest;
    let e = x.len() as int;
    assert forall|k: int| 0 <= k < e implies !is_space(#[trigger] s[k]) by {
        assert(s[k] == x[k]);
    }
    word_goes_on(s, 0, e);
    word_goes_on(x, 0, e);
    assert(!is_space(s[0]) && !is_space(x[0]));
    assert(s.subrange(0, e) =~= x);
    assert(x.subrange(0, e) =~= x);
    assert(words_from(x, e) =~= Seq::empty());
    let t = seq![c] + rest;
    words_move(s, e, 0);
    assert(s.skip(e) =~= t);
    words_move(t, 1, 0);
    assert(t.skip(1) =~= rest);
    assert(space_end(t, 0) == space_end(t, 1));
    assert(words_from(t, 0) =~= words_from(t, 1)) by {
        spaces_move(t, 1, 0);
        ends_move(t, 0, space_end(t, 1));
        assert(t.skip(0) =~= t);
    }
}

/// Blanks on either side of a text are cut off, and nothing else.
pub proof fn blanks_are_cut(before: Seq<char>, x: Seq<char>, behind: Seq<char>)
    requires
        x.len() > 0,
        !is_space(x[0]),
        !is_space(x.last()),
        forall|k: int| 0 <= k < before.len() ==> is_space(#[trigger] before[k]),
        forall|k: int| 0 <= k < behind.len() ==> is_space(#[trigger] behind[k]),
    ensures
        trimmed(before + x + behind) == x,
{
    let s = before + x + behind;
    let e = before.len() as int;
    assert forall|k: int| 0 <= k < e implies is_space(#[trigger] s[k]) by {
        assert(s[k] == before[k]);
    }
    assert(s[e] == x[0]);
    space_goes_on(s, 0, e);
    assert(s.skip(e) =~= x + behind);
    back_is_cut(x, behind);
}

proof fn space_goes_on(s: Seq<char>, i: int, e: int)
    requires
        0 <= i <= e < s.len(),
        forall|k: int| i <= k < e ==> is_space(#[trigger] s[k]),
        !is_space(s[e]),
    ensures
        space_end(s, i) == e,
    decreases e - i,
{
    if i < e {
        space_goes_on(s, i + 1, e);
    }
}

proof fn back_is_cut(x: Seq<char>, behind: Seq<char>)
    requires
        x.len() > 0,
        !is_space(x.last()),
        forall|k: int| 0 <= k < behind.len() ==> is_space(#[trigger] behind[k]),
    ensures
        without_back_space(x + behind) == x,
    decreases behind.len(),
{
    if behind.len() > 0 {
        assert((x + behind).last() == behind[behind.len() - 1]);
        assert((x + behind).drop_last() =~= x + behind.drop_last());
        assert forall|k: int| 0 <= k < behind.drop_last().len() implies is_space(
            #[trigger] behind.drop_last()[k],
        ) by {
            assert(behind.drop_last()[k] == behind[k]);
        }
        back_is_cut(x, behind.drop_last());
    } else {
        assert(x + behind =~= x);
    }
}

/// Quotes round a text are cut off.
pub proof fn quotes_are_cut(x: Seq<char>)
    requires
        x.len() > 0,
        x[0] != '"',
        x.last() != '"',
    ensures
        without_back_quotes(without_front_quotes(seq!['"'] + x + seq!['"'])) == x,
        without_back_quotes(without_front_quotes(x)) == x,
{
    let s = seq!['"'] + x + seq!['"'];
    let t = x + seq!['"'];
    assert(s.skip(1) =~= t);
    assert(s[0] == '"' && t[0] == x[0]);
    assert(without_front_quotes(t) == t);
    assert(without_front_quotes(s) == t);
    assert(t.drop_last() =~= x);
    assert(t.last() == '"');
    assert(without_back_quotes(x) == x);
}

/// A remark behind two slashes is cut off.
pub proof fn slashes_start_a_remark(x: Seq<char>, rest: Seq<char>)
    requires
        !x.contains('/'),
    ensures
        ({
            let s = x + seq!['/', '/'] + rest;
            s.take(slashes_at(s, 0)) == x
        }),
        x.take(slashes_at(x, 0)) == x,
{
    let s = x + seq!['/', '/'] + rest;
    let e = x.len() as int;
    assert forall|k: int| 0 <= k < e implies #[trigger] s[k] != '/' && x[k] != '/' by {
        assert(s[k] == x[k]);
        assert(x.contains(x[k]));
    }
    assert(s[e] == '/' && s[e + 1] == '/');
    slashes_are_found(s, 0, e);
    no_slashes_are_found(x, 0);
    assert(s.take(e) =~= x);
    assert(x.take(e) =~= x);
}

proof fn slashes_are_found(s: Seq<char>, i: int, e: int)
    requires
        0 <= i <= e,
        e + 1 < s.len(),
        forall|k: int| i <= k < e ==> #[trigger] s[k] != '/',
        s[e] == '/' && s[e + 1] == '/',
    ensures
        slashes_at(s, i) == e,
    decreases e - i,
{
    if i < e {
        slashes_are_found(s, i + 1, e);
    }
}

proof fn no_slashes_are_found(s: Seq<char>, i: int)
    requires
        0 <= i <= s.len(),
        forall|k: int| 0 <= k < s.len() ==> #[trigger] s[k] != '/',
    ensures
        slashes_at(s, i) == s.len(),
    decreases s.len() - i,
{
    if i + 1 < s.len() {
        no_slashes_are_found(s, i + 1);
    }
}

/// Each character is a digit.
pub open spec fn all_digits(s: Seq<char>) -> bool {
    forall|i: int| 0 <= i < s.len() ==> is_digit(#[trigger] s[i])
}

proof fn digits_go_on(s: Seq<char>, i: int, e: int)
    requires
        0 <= i <= e <= s.len(),
        forall|k: int| i <= k < e ==> is_digit(#[trigger] s[k]),
        e < s.len() ==> !is_digit(s[e]),
    ensures
        digits_end(s, i) == e,
    decreases e - i,
{
    if i < e {
        digits_go_on(s, i + 1, e);
    }
}

/// A count that is written down and read again is the same count.
pub proof fn written_counts_read_back(n: nat)
    ensures
        digits_value(decimal(n)) == n,
        all_digits(decimal(n)),
        decimal(n).len() > 0,
        n <= i32::MAX ==> whole_reading(decimal(n)) == Some(n as i32),
        n <= 0x8000_0000 ==> whole_reading(seq!['-'] + decimal(n)) == Some((-n) as i32),
{
    decimals_are_digits(n);
    let s = decimal(n);
    digits_go_on(s, 0, s.len() as int);
    assert(s.skip(0) =~= s);
    let m = seq!['-'] + s;
    assert(m.skip(1) =~= s);
    assert forall|k: int| 1 <= k < m.len() implies is_digit(#[trigger] m[k]) by {
        assert(m[k] == s[k - 1]);
    }
    digits_go_on(m, 1, m.len() as int);
    assert(is_digit(s[0]));
}

proof fn decimals_are_digits(n: nat)
    ensures
        digits_value(decimal(n)) == n,
        all_digits(decimal(n)),
        decimal(n).len() > 0,
    decreases n,
{
    if n < 10 {
        let s = seq![digit(n as int)];
        assert(s.drop_last() =~= Seq::empty());
        reveal_with_fuel(digits_value, 2);
    } else {
        decimals_are_digits(n / 10);
        let s = decimal(n);
        assert(s.drop_last() =~= decimal(n / 10));
        assert forall|i: int| 0 <= i < s.len() implies is_digit(#[trigger] s[i]) by {
            if i < s.len() - 1 {
                assert(s[i] == decimal(n / 10)[i]);
            }
        }
    }
}

/// Digits have the value of their places.
pub proof fn digits_count_by_tens(a: Seq<char>, b: Seq<char>)
    requires
        all_digits(a),
        all_digits(b),
    ensures
        digits_value(a + b) == digits_value(a) * ten_to(b.len()) + digits_value(b),
    decreases b.len(),
{
    if b.len() == 0 {
        assert(a + b =~= a);
        assert(digits_value(a) * 1 == digits_value(a));
    } else {
        assert((a + b).drop_last() =~= a + b.drop_last());
        assert forall|i: int| 0 <= i < b.drop_last().len() implies is_digit(
            #[trigger] b.drop_last()[i],
        ) by {
            assert(b.drop_last()[i] == b[i]);
        }
        digits_count_by_tens(a, b.drop_last());
        let t = ten_to((b.len() - 1) as nat);
        assert(digits_value(a) * (10 * t) == 10 * (digits_value(a) * t)) by (nonlinear_arith);
        assert((a + b).last() == b.last());
    }
}

/// The two words for numbers without digits.
proof fn words_for_numbers(s: Seq<char>)
    requires
        s.len() > 0,
        is_digit(s[0]) || s[0] == '.',
    ensures
        lower(s) != "inf"@ && lower(s) != "infinity"@ && lower(s) != "nan"@,
{
    assert("inf"@[0] == 'i' && "infinity"@[0] == 'i' && "nan"@[0] == 'n' && "inf"@.len() == 3
        && "infinity"@.len() == 8 && "nan"@.len() == 3) by {
        reveal_strlit("inf");
        reveal_strlit("infinity");
        reveal_strlit("nan");
    }
    assert(lower(s)[0] == lower_char(s[0]));
}

/// Digits, a point and digits are read as the nearest number to what they say; a minus before them
/// sets the sign and nothing else.
pub proof fn decimals_are_read(a: Seq<char>, b: Seq<char>)
    requires
        all_digits(a),
        all_digits(b),
        a.len() > 0,
    ensures
        ({
            let r = reading(a + seq!['.'] + b);
            let m = reading(seq!['-'] + a + seq!['.'] + b);
            &&& r is Some
            &&& r->0 < 0x8000_0000
            &&& rounds_to(digits_value(a + b), ten_to(b.len()), r->0 as nat)
            &&& m == Some((r->0 + 0x8000_0000) as u32)
        }),
        ({
            let r = reading(a);
            &&& r is Some
            &&& r->0 < 0x8000_0000
            &&& rounds_to(digits_value(a), 1, r->0 as nat)
            &&& reading(seq!['-'] + a) == Some((r->0 + 0x8000_0000) as u32)
        }),
{
    let s = a + seq!['.'] + b;
    let i = a.len() as int;
    assert forall|k: int| 0 <= k < i implies is_digit(#[trigger] s[k]) by {
        assert(s[k] == a[k]);
    }
    assert(s[i] == '.');
    digits_go_on(s, 0, i);
    assert forall|k: int| i + 1 <= k < s.len() implies is_digit(#[trigger] s[k]) by {
        assert(s[k] == b[k - i - 1]);
    }
    digits_go_on(s, i + 1, s.len() as int);
    assert(s.subrange(0, i) =~= a);
    assert(s.subrange(i + 1, s.len() as int) =~= b);
    assert(is_digit(s[0]) && is_digit(a[0]));
    words_for_numbers(s);
    words_for_numbers(a);
    assert((seq!['-'] + a + seq!['.'] + b).skip(1) =~= s);
    assert((seq!['-'] + a).skip(1) =~= a);
    digits_go_on(a, 0, i);
    assert(a.subrange(0, i) =~= a);
    ten_is_positive(b.len());
    rounded_rounds(digits_value(a + b), ten_to(b.len()));
    rounded_rounds(digits_value(a), 1);
    assert(a + b == s.subrange(0, i) + s.subrange(i + 1, s.len() as int));
    assert(ten_to(0) == 1);
    assert(digits_value(a + b) * 1 == digits_value(a + b));
    assert(digits_value(a) * 1 == digits_value(a));
}

proof fn ten_is_positive(n: nat)
    ensures
        ten_to(n) > 0,
    decreases n,
{
    if n > 0 {
        ten_is_positive((n - 1) as nat);
    }
}

/// The whole part of a number lies between it and nought, less than one from it.
pub proof fn whole_parts_lie_towards_nought(b: u32)
    requires
        magnitude_of(b) < INFINITE,
        -2147483648 * one() < exact(b) < 2147483648 * one(),
    ensures
        exact(b) >= 0 ==> 0 <= truncated(b) && truncated(b) * one() <= exact(b) < (truncated(b) + 1)
            * one(),
        exact(b) <= 0 ==> truncated(b) <= 0 && (truncated(b) - 1) * one() < exact(b) <= truncated(b)
            * one(),
{
    lemma_pow2_pos(149);
    let u = units(magnitude_of(b));
    let o = pow2(149);
    let w = whole(magnitude_of(b));
    vstd::arithmetic::div_mod::lemma_fundamental_div_mod(u as int, o as int);
    vstd::arithmetic::div_mod::lemma_mod_bound(u as int, o as int);
    assert(w * o <= u < (w + 1) * o && w < 2147483648) by (nonlinear_arith)
        requires
            u == o * w + u as int % o as int,
            0 <= u as int % o as int,
            (u as int % o as int) < o,
            u < 2147483648 * o,
            o > 0,
    ;
    assert((-w) * o == -(w * o) && (-w - 1) * o == -((w + 1) * o)) by (nonlinear_arith);
    if exact(b) == 0 {
        assert(w == 0) by (nonlinear_arith)
            requires
                w * o <= 0,
                o > 0,
                w >= 0,
        ;
    }
    assert(1 * o == o && 0 * o == 0 && (-1) * o == -o);
}

/// Two texts that differ in the case of ASCII letters alone have the same lower form, and a lower
/// form is its own.
pub proof fn lower_forms_stay(s: Seq<char>)
    ensures
        lower(lower(s)) == lower(s),
        lower(s).len() == s.len(),
        forall|i: int|
            0 <= i < s.len() && !('A' <= s[i] <= 'Z') ==> #[trigger] lower(s)[i] == s[i],
        forall|i: int|
            0 <= i < s.len() && 'A' <= s[i] <= 'Z' ==> #[trigger] lower(s)[i] as u32 == s[i] as u32
                + 32,
{
    assert forall|i: int| 0 <= i < s.len() implies lower_char(#[trigger] lower(s)[i])
        == lower(s)[i] by {}
    assert(lower(lower(s)) =~= lower(s));
}

proof fn digits_are_no_blanks(s: Seq<char>)
    requires
        s.len() > 0,
        forall|i: int|
            0 <= i < s.len() ==> is_digit(#[trigger] s[i]) || s[i] == '.' || s[i] == '-',
    ensures
        trimmed(s) == s,
{
    let none = Seq::<char>::empty();
    assert(none + s + none =~= s);
    assert(s.last() == s[s.len() - 1]);
    assert(!is_space(s[0]) && !is_space(s[s.len() - 1]));
    blanks_are_cut(none, s, none);
}

/// The numbers of a script are read as what their digits say.
pub proof fn script_numbers_are_read(a: Seq<char>, b: Seq<char>, n: nat)
    requires
        all_digits(a),
        all_digits(b),
        a.len() > 0,
        n <= i32::MAX,
    ensures
        number_of(a + seq!['.'] + b) == reading(a + seq!['.'] + b),
        number_of(seq!['-'] + a + seq!['.'] + b) == reading(seq!['-'] + a + seq!['.'] + b),
        number_of(a) == reading(a),
        integer_of(decimal(n)) == n,
        integer_of(seq!['-'] + decimal(n)) == -n,
        bare_number(decimal(n)) == Some(n as i32),
{
    decimals_are_read(a, b);
    written_counts_read_back(n);
    let s = a + seq!['.'] + b;
    let m = seq!['-'] + a + seq!['.'] + b;
    let k = seq!['-'] + decimal(n);
    assert forall|i: int| 0 <= i < s.len() implies is_digit(#[trigger] s[i]) || s[i] == '.' || s[i]
        == '-' by {
        if i < a.len() {
            assert(s[i] == a[i]);
        } else if i > a.len() {
            assert(s[i] == b[i - a.len() - 1]);
        }
    }
    assert forall|i: int| 0 <= i < m.len() implies is_digit(#[trigger] m[i]) || m[i] == '.' || m[i]
        == '-' by {
        if i > 0 {
            assert(m[i] == s[i - 1]);
            assert(is_digit(s[i - 1]) || s[i - 1] == '.' || s[i - 1] == '-');
        }
    }
    assert forall|i: int| 0 <= i < k.len() implies is_digit(#[trigger] k[i]) || k[i] == '.' || k[i]
        == '-' by {
        if i > 0 {
            assert(k[i] == decimal(n)[i - 1]);
        }
    }
    digits_are_no_blanks(s);
    digits_are_no_blanks(m);
    digits_are_no_blanks(a);
    digits_are_no_blanks(k);
    digits_are_no_blanks(decimal(n));
}

/// Slashes at the end of a path are cut off, either way round, and nothing else; backslashes are
/// turned.
pub proof fn slashes_are_cut_and_turned(x: Seq<char>)
    ensures
        without_end_slashes(x.push('/')) == without_end_slashes(x),
        without_end_slashes(x.push('\\')) == without_end_slashes(x),
        x.len() > 0 && x.last() != '/' && x.last() != '\\' ==> without_end_slashes(x) == x,
        forward(x).len() == x.len(),
        forall|i: int|
            0 <= i < x.len() ==> #[trigger] forward(x)[i] == (if x[i] == '\\' {
                '/'
            } else {
                x[i]
            }),
{
    assert(x.push('/').drop_last() =~= x);
    assert(x.push('\\').drop_last() =~= x);
}

} // verus!
