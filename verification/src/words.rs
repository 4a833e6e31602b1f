//! Lines, words and whole numbers of plain text formats.
use vstd::prelude::*;

use crate::single::{digits_end, digits_value, parse, reading, skip_digits, truncate, truncated};
use crate::text::{chars_of, string_of};

verus! {

/// `c` is white space in Unicode.
pub open spec fn is_space(c: char) -> bool {
    let u = c as u32;
    ||| 0x09 <= u <= 0x0D
    ||| u == 0x20
    ||| u == 0x85
    ||| u == 0xA0
    ||| u == 0x1680
    ||| 0x2000 <= u <= 0x200A
    ||| u == 0x2028
    ||| u == 0x2029
    ||| u == 0x202F
    ||| u == 0x205F
    ||| u == 0x3000
}

/// Tells whether `c` is white space in Unicode.
pub fn space(c: char) -> (r: bool)
    ensures
        r == is_space(c),
{
    let u: u32 = c as u32;
    (0x09 <= u && u <= 0x0D) || u == 0x20 || u == 0x85 || u == 0xA0 || u == 0x1680 || (0x2000 <= u
        && u <= 0x200A) || u == 0x2028 || u == 0x2029 || u == 0x202F || u == 0x205F || u == 0x3000
}

/// The first `c` from `i` on, or the end.
pub open spec fn find_char(s: Seq<char>, c: char, i: int) -> int
    decreases s.len() - i,
{
    if i < 0 || i >= s.len() || s[i] == c {
        i
    } else {
        find_char(s, c, i + 1)
    }
}

/// The lines of `s` from `i` on. What follows the last line end is a line unless it is empty.
pub open spec fn lines_from(s: Seq<char>, i: int) -> Seq<Seq<char>>
    decreases s.len() - i,
{
    if i < 0 || i >= s.len() {
        Seq::empty()
    } else {
        let e = find_char(s, '\n', i);
        if i <= e < s.len() {
            seq![s.subrange(i, e)] + lines_from(s, e + 1)
        } else {
            seq![s.subrange(i, s.len() as int)]
        }
    }
}

/// The lines of `s`.
pub open spec fn lines(s: Seq<char>) -> Seq<Seq<char>> {
    lines_from(s, 0)
}

/// The first place from `i` on that is no white space.
pub open spec fn space_end(s: Seq<char>, i: int) -> int
    decreases s.len() - i,
{
    if i < 0 || i >= s.len() || !is_space(s[i]) {
        i
    } else {
        space_end(s, i + 1)
    }
}

/// The first white space from `i` on, or the end.
pub open spec fn word_end(s: Seq<char>, i: int) -> int
    decreases s.len() - i,
{
    if i < 0 || i >= s.len() || is_space(s[i]) {
        i
    } else {
        word_end(s, i + 1)
    }
}

/// The words of `s` from `i` on.
pub open spec fn words_from(s: Seq<char>, i: int) -> Seq<Seq<char>>
    decreases s.len() - i,
{
    let a = space_end(s, i);
    let e = word_end(s, a);
    if 0 <= i <= a < e <= s.len() {
        seq![s.subrange(a, e)] + words_from(s, e)
    } else {
        Seq::empty()
    }
}

/// The words of `s`: what stands between white space.
pub open spec fn words(s: Seq<char>) -> Seq<Seq<char>> {
    words_from(s, 0)
}

/// The characters of strings.
pub open spec fn views(s: Seq<String>) -> Seq<Seq<char>> {
    Seq::new(s.len(), |i: int| s[i]@)
}

/// The first `c` from `from` on, or the end.
pub fn index_of(s: &Vec<char>, c: char, from: usize) -> (r: usize)
    requires
        from <= s@.len(),
    ensures
        r == find_char(s@, c, from as int),
        from <= r <= s@.len(),
{
    let mut i: usize = from;
    while i < s.len() && s[i] != c
        invariant
            from <= i <= s@.len(),
            find_char(s@, c, i as int) == find_char(s@, c, from as int),
        decreases s@.len() - i,
    {
        i = i + 1;
    }
    i
}

/// The lines of a text.
pub fn split_lines(text: &str) -> (r: Vec<String>)
    ensures
        views(r@) == lines(text@),
{
    let s: Vec<char> = chars_of(text);
    let mut out: Vec<String> = Vec::new();
    let mut i: usize = 0;
    assert(views(out@) + lines_from(s@, 0) =~= lines(text@));
    while i < s.len()
        invariant
            s@ == text@,
            i <= s@.len(),
            views(out@) + lines_from(s@, i as int) == lines(text@),
        decreases s@.len() - i,
    {
        let e: usize = index_of(&s, '\n', i);
        let line: String = string_of(&s, i, e);
        let ghost before = views(out@);
        out.push(line);
        assert(views(out@) =~= before.push(line@));
        if e < s.len() {
            assert(views(out@) + lines_from(s@, e + 1) =~= before + lines_from(s@, i as int));
            i = e + 1;
        } else {
            assert(lines_from(s@, e as int) =~= Seq::empty());
            assert(views(out@) + lines_from(s@, e as int) =~= before + lines_from(s@, i as int));
            i = e;
        }
    }
    assert(lines_from(s@, i as int) =~= Seq::empty());
    assert(views(out@) =~= lines(text@));
    out
}

/// The words of a text.
pub fn split_words(text: &str) -> (r: Vec<String>)
    ensures
        views(r@) == words(text@),
{
    let s: Vec<char> = chars_of(text);
    let mut out: Vec<String> = Vec::new();
    let mut i: usize = 0;
    assert(views(out@) + words_from(s@, 0) =~= words(text@));
    loop
        invariant_except_break
            s@ == text@,
            i <= s@.len(),
            views(out@) + words_from(s@, i as int) == words(text@),
        ensures
            views(out@) == words(text@),
        decreases s@.len() - i,
    {
        let mut a: usize = i;
        while a < s.len() && space(s[a])
            invariant
                i <= a <= s@.len(),
                space_end(s@, a as int) == space_end(s@, i as int),
            decreases s@.len() - a,
        {
            a = a + 1;
        }
        let mut e: usize = a;
        while e < s.len() && !space(s[e])
            invariant
                a <= e <= s@.len(),
                word_end(s@, e as int) == word_end(s@, a as int),
            decreases s@.len() - e,
        {
            e = e + 1;
        }
        if a == e {
            assert(words_from(s@, i as int) =~= Seq::empty());
            assert(views(out@) =~= words(text@));
            break;
        }
        let word: String = string_of(&s, a, e);
        let ghost before = views(out@);
        out.push(word);
        assert(views(out@) =~= before.push(word@));
        assert(views(out@) + words_from(s@, e as int) =~= before + words_from(s@, i as int));
        i = e;
    }
    out
}

/// No word is empty, and none holds white space.
pub proof fn words_are_words(s: Seq<char>, i: int)
    requires
        0 <= i <= s.len(),
    ensures
        forall|k: int|
            0 <= k < words_from(s, i).len() ==> {
                &&& (#[trigger] words_from(s, i)[k]).len() > 0
                &&& forall|j: int|
                    0 <= j < words_from(s, i)[k].len() ==> !is_space(
                        #[trigger] words_from(s, i)[k][j],
                    )
            },
    decreases s.len() - i,
{
    let a = space_end(s, i);
    let e = word_end(s, a);
    space_end_bounds(s, i);
    word_end_bounds(s, a);
    if a < e {
        words_are_words(s, e);
        let all = words_from(s, i);
        let first = s.subrange(a, e);
        assert forall|k: int| 0 <= k < all.len() implies {
            &&& (#[trigger] all[k]).len() > 0
            &&& forall|j: int| 0 <= j < all[k].len() ==> !is_space(#[trigger] all[k][j])
        } by {
            if k == 0 {
                assert(all[0] == first);
                assert forall|j: int| 0 <= j < first.len() implies !is_space(#[trigger] first[j]) by {
                    assert(first[j] == s[a + j]);
                }
            } else {
                assert(all[k] == words_from(s, e)[k - 1]);
            }
        }
    }
}

proof fn space_end_bounds(s: Seq<char>, i: int)
    requires
        0 <= i <= s.len(),
    ensures
        i <= space_end(s, i) <= s.len(),
    decreases s.len() - i,
{
    if i < s.len() && is_space(s[i]) {
        space_end_bounds(s, i + 1);
    }
}

proof fn word_end_bounds(s: Seq<char>, i: int)
    requires
        0 <= i <= s.len(),
    ensures
        i <= word_end(s, i) <= s.len(),
        forall|k: int| i <= k < word_end(s, i) ==> !is_space(#[trigger] s[k]),
    decreases s.len() - i,
{
    if i < s.len() && !is_space(s[i]) {
        word_end_bounds(s, i + 1);
    }
}

/// The first place from `i` on where two slashes stand, or the end.
pub open spec fn slashes_at(s: Seq<char>, i: int) -> int
    decreases s.len() - i,
{
    if i < 0 || i + 1 >= s.len() {
        s.len() as int
    } else if s[i] == '/' && s[i + 1] == '/' {
        i
    } else {
        slashes_at(s, i + 1)
    }
}

/// A line up to two slashes.
pub fn before_slashes(line: &str) -> (r: String)
    ensures
        r@ == line@.take(slashes_at(line@, 0)),
{
    let s: Vec<char> = chars_of(line);
    let n: usize = s.len();
    let mut i: usize = 0;
    while i < n && n - i >= 2 && !(s[i] == '/' && s[i + 1] == '/')
        invariant
            i <= n,
            n == s@.len(),
            s@ == line@,
            slashes_at(s@, i as int) == slashes_at(s@, 0),
        decreases n - i,
    {
        i = i + 1;
    }
    let e: usize = if i < n && n - i >= 2 {
        i
    } else {
        n
    };
    let r: String = string_of(&s, 0, e);
    assert(r@ =~= line@.take(slashes_at(line@, 0)));
    r
}

/// A line up to the first `c`.
pub fn before_char(line: &str, c: char) -> (r: String)
    ensures
        r@ == line@.take(find_char(line@, c, 0)),
{
    let s: Vec<char> = chars_of(line);
    let e: usize = index_of(&s, c, 0);
    let r: String = string_of(&s, 0, e);
    assert(r@ =~= line@.take(find_char(line@, c, 0)));
    r
}

/// `s` without the quotes at its start.
pub open spec fn without_front_quotes(s: Seq<char>) -> Seq<char>
    decreases s.len(),
{
    if s.len() > 0 && s[0] == '"' {
        without_front_quotes(s.skip(1))
    } else {
        s
    }
}

/// `s` without the quotes at its end.
pub open spec fn without_back_quotes(s: Seq<char>) -> Seq<char>
    decreases s.len(),
{
    if s.len() > 0 && s.last() == '"' {
        without_back_quotes(s.drop_last())
    } else {
        s
    }
}

/// A name without the quotes around it.
pub fn unquote(s: &str) -> (r: String)
    ensures
        r@ == without_back_quotes(without_front_quotes(s@)),
{
    let c: Vec<char> = chars_of(s);
    let n: usize = c.len();
    let mut a: usize = 0;
    assert(s@.subrange(0, n as int) =~= s@);
    assert(s@.skip(0) =~= s@);
    while a < n && c[a] == '"'
        invariant
            a <= n,
            n == c@.len(),
            c@ == s@,
            without_front_quotes(s@.skip(a as int)) == without_front_quotes(s@),
        decreases n - a,
    {
        assert(s@.skip(a as int)[0] == s@[a as int]);
        assert(s@.skip(a as int).skip(1) =~= s@.skip(a + 1));
        a = a + 1;
    }
    assert(a < n ==> s@.skip(a as int)[0] == s@[a as int]);
    assert(without_front_quotes(s@) == s@.skip(a as int));
    let mut e: usize = n;
    assert(s@.subrange(a as int, n as int) =~= s@.skip(a as int));
    while e > a && c[e - 1] == '"'
        invariant
            a <= e <= n,
            n == c@.len(),
            c@ == s@,
            without_back_quotes(s@.subrange(a as int, e as int)) == without_back_quotes(
                s@.skip(a as int),
            ),
        decreases e,
    {
        let ghost cur = s@.subrange(a as int, e as int);
        assert(cur.last() == s@[e - 1]);
        assert(cur.drop_last() =~= s@.subrange(a as int, e - 1));
        e = e - 1;
    }
    assert(e > a ==> s@.subrange(a as int, e as int).last() == s@[e - 1]);
    string_of(&c, a, e)
}

/// `s` without the white space at its end.
pub open spec fn without_back_space(s: Seq<char>) -> Seq<char>
    decreases s.len(),
{
    if s.len() > 0 && is_space(s.last()) {
        without_back_space(s.drop_last())
    } else {
        s
    }
}

/// `s` without the white space around it.
pub open spec fn trimmed(s: Seq<char>) -> Seq<char> {
    without_back_space(s.skip(space_end(s, 0)))
}

/// A text without the white space around it.
pub fn trim(s: &str) -> (r: String)
    ensures
        r@ == trimmed(s@),
{
    let c: Vec<char> = chars_of(s);
    let n: usize = c.len();
    let mut a: usize = 0;
    while a < n && space(c[a])
        invariant
            a <= n,
            n == c@.len(),
            c@ == s@,
            space_end(s@, a as int) == space_end(s@, 0),
        decreases n - a,
    {
        a = a + 1;
    }
    let mut e: usize = n;
    assert(s@.subrange(a as int, n as int) =~= s@.skip(a as int));
    while e > a && space(c[e - 1])
        invariant
            a <= e <= n,
            n == c@.len(),
            c@ == s@,
            without_back_space(s@.subrange(a as int, e as int)) == without_back_space(
                s@.skip(a as int),
            ),
        decreases e,
    {
        let ghost cur = s@.subrange(a as int, e as int);
        assert(cur.last() == s@[e - 1]);
        assert(cur.drop_last() =~= s@.subrange(a as int, e - 1));
        e = e - 1;
    }
    assert(e > a ==> s@.subrange(a as int, e as int).last() == s@[e - 1]);
    string_of(&c, a, e)
}

/// The whole number that `s` reads as: a sign and digits, within 32 bits.
pub open spec fn whole_reading(s: Seq<char>) -> Option<i32> {
    let minus = s.len() > 0 && s[0] == '-';
    let k = if s.len() > 0 && (s[0] == '-' || s[0] == '+') {
        1int
    } else {
        0int
    };
    let n = digits_value(s.skip(k)) as int;
    let v = if minus {
        -n
    } else {
        n
    };
    if k < s.len() && digits_end(s, k) == s.len() && i32::MIN <= v <= i32::MAX {
        Some(v as i32)
    } else {
        None
    }
}

/// The whole number that a text reads as.
pub fn parse_whole(text: &str) -> (r: Option<i32>)
    ensures
        r == whole_reading(text@),
{
    let s: Vec<char> = chars_of(text);
    let n: usize = s.len();
    let minus: bool = n > 0 && s[0] == '-';
    let k: usize = if n > 0 && (s[0] == '-' || s[0] == '+') {
        1
    } else {
        0
    };
    if !(k < n && skip_digits(&s, k) == n) {
        return None;
    }
    proof {
        crate::single::digits_end_bounds(s@, k as int);
    }
    let m: u128 = crate::single::read_exponent(&s, k, 0xFFFF_FFFF_FFFF);
    if minus {
        if m > 2147483648 {
            None
        } else {
            Some((-(m as i64)) as i32)
        }
    } else if m > 2147483647 {
        None
    } else {
        Some(m as i32)
    }
}

/// The integer that `s` reads as: a whole number, or the whole part of any number.
pub open spec fn integer_reading(s: Seq<char>) -> Option<i32> {
    match whole_reading(s) {
        Some(v) => Some(v),
        None => match reading(s) {
            Some(b) => Some(truncated(b)),
            None => None,
        },
    }
}

/// The integer that a text reads as.
pub fn parse_integer(text: &str) -> (r: Option<i32>)
    ensures
        r == integer_reading(text@),
{
    match parse_whole(text) {
        Some(v) => Some(v),
        None => match parse(text) {
            Some(b) => Some(truncate(b)),
            None => None,
        },
    }
}

/// A text in quotes, with marks in place of what cannot be shown.
pub uninterp spec fn shown_text(s: Seq<char>) -> Seq<char>;

/// `format!("{:?}", s)` puts a text in quotes and escapes what cannot be shown; the result is
/// only named.
#[verifier::external_body]
pub(crate) fn shown(s: &str) -> (r: String)
    ensures
        r@ == shown_text(s@),
{
    format!("{:?}", s)
}

} // verus!
