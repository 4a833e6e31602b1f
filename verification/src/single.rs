//! Single-precision numbers, held as their IEEE 754 bit patterns.
use vstd::arithmetic::power2::{lemma2_to64, lemma2_to64_rest, lemma_pow2_adds, lemma_pow2_pos, lemma_pow2_unfold, pow2};
use vstd::prelude::*;

use crate::big::{Big, Compared};
use crate::text::{chars_of, lower, lowered, same, string_of};

verus! {

/// The number is neither infinite nor NaN: its exponent field is not all ones.
pub open spec fn is_finite(bits: u32) -> bool {
    (bits / 8388608) % 256 != 255
}

/// Tells whether a number is neither infinite nor NaN.
pub fn finite(bits: u32) -> (r: bool)
    ensures
        r == is_finite(bits),
{
    (bits / 8388608) % 256 != 255
}

/// The bit pattern of one.
pub const ONE: u32 = 0x3F80_0000;

/// The bit pattern of infinity.
pub const INFINITE: u32 = 0x7F80_0000;

/// The significand of a magnitude, with the bit that is not stored.
pub open spec fn significand(b: nat) -> nat {
    if b < 8388608 {
        b
    } else {
        b % 8388608 + 8388608
    }
}

/// The exponent of a magnitude, counted from that of the smallest numbers.
pub open spec fn exponent(b: nat) -> nat {
    if b < 8388608 {
        0
    } else {
        (b / 8388608 - 1) as nat
    }
}

/// What a magnitude stands for, in units of the smallest number above zero (`2^-149`). Infinity
/// stands for the number that would come next, `2^128`.
pub open spec fn units(b: nat) -> nat {
    significand(b) * pow2(exponent(b))
}

/// Twice the middle between a magnitude and the next, in units.
pub open spec fn middle(b: nat) -> nat {
    (2 * significand(b) + 1) * pow2(exponent(b))
}

/// The middle lies halfway to the next magnitude.
pub proof fn middle_is_halfway(b: nat)
    ensures
        middle(b) == units(b) + units(b + 1),
        units(b) < units(b + 1),
{
    let s = significand(b);
    let e = exponent(b);
    lemma_pow2_pos(e);
    assert((2 * s + 1) * pow2(e) == s * pow2(e) + (s + 1) * pow2(e)) by (nonlinear_arith);
    assert(s * pow2(e) < (s + 1) * pow2(e)) by (nonlinear_arith)
        requires
            pow2(e) > 0,
    ;
    assert(units(b + 1) == (s + 1) * pow2(e)) by {
        if b + 1 < 8388608 {
        } else if b < 8388608 {
            assert(b + 1 == 8388608);
            assert(significand(b + 1) == 8388608);
        } else if b % 8388608 == 8388607 {
            assert((b + 1) / 8388608 == b / 8388608 + 1);
            assert((b + 1) % 8388608 == 0);
            assert(s == 16777215);
            lemma_pow2_unfold(e + 1);
            assert(8388608 * (2 * pow2(e)) == 16777216 * pow2(e)) by (nonlinear_arith);
        } else {
            assert((b + 1) / 8388608 == b / 8388608);
            assert((b + 1) % 8388608 == b % 8388608 + 1);
        }
    }
}

pub proof fn middles_grow(a: nat, b: nat)
    requires
        a < b,
    ensures
        middle(a) < middle(b),
    decreases b - a,
{
    middle_is_halfway(a);
    middle_is_halfway(a + 1);
    if a + 1 < b {
        middles_grow(a + 1, b);
    }
}

/// `num / den` rounds to the magnitude `b`: it is no farther from `b` than from its neighbours,
/// and nearer where `b` is odd.
pub open spec fn rounds_to(num: nat, den: nat, b: nat) -> bool {
    let twice = num * pow2(150);
    &&& b <= INFINITE
    &&& b > 0 ==> middle((b - 1) as nat) * den <= twice
    &&& b > 0 && b % 2 == 1 ==> middle((b - 1) as nat) * den < twice
    &&& b < INFINITE ==> twice <= middle(b) * den
    &&& b < INFINITE && b % 2 == 1 ==> twice < middle(b) * den
}

/// A fraction rounds to one magnitude only.
pub proof fn rounding_is_unique(num: nat, den: nat, a: nat, b: nat)
    requires
        den > 0,
        rounds_to(num, den, a),
        rounds_to(num, den, b),
    ensures
        a == b,
{
    if a < b {
        no_rounding_above(num, den, a, b);
    } else if b < a {
        no_rounding_above(num, den, b, a);
    }
}

proof fn no_rounding_above(num: nat, den: nat, a: nat, b: nat)
    requires
        den > 0,
        a < b,
        rounds_to(num, den, a),
    ensures
        !rounds_to(num, den, b),
{
    let twice = num * pow2(150);
    if a + 1 < b {
        middles_grow(a, (b - 1) as nat);
        assert(middle(a) * den < middle((b - 1) as nat) * den) by (nonlinear_arith)
            requires
                middle(a) < middle((b - 1) as nat),
                den > 0,
        ;
    }
}

/// The magnitude that a fraction rounds to: the nearest, or the even one of two.
pub open spec fn rounded(num: nat, den: nat) -> u32 {
    choose|b: u32| rounds_to(num, den, b as nat)
}

/// Twice the middle above a magnitude, times a number.
fn middle_times(b: u32, d: &Big) -> (r: Big)
    requires
        b < INFINITE,
    ensures
        r@ == middle(b as nat) * d@,
{
    let (s, e): (u32, u32) = if b < 8388608 {
        (b, 0)
    } else {
        (b % 8388608 + 8388608, b / 8388608 - 1)
    };
    let r: Big = d.times_plus(2 * s + 1, 0).shifted(e);
    assert(d@ * ((2 * s + 1) as nat) * pow2(e as nat) == (((2 * s + 1) as nat) * pow2(e as nat))
        * d@) by (nonlinear_arith);
    r
}

/// A magnitude near `num / den`, from which to look for the right one.
fn guess(num: &Big, den: &Big) -> (r: u32)
    ensures
        r <= INFINITE,
{
    let (top, i): (u128, usize) = num.top();
    let (d, j): (u128, usize) = den.top();
    if top == 0 || d == 0 || i > 1000 || j > 1000 {
        return 0;
    }
    let mut e: i64 = 32 * (i as i64 - j as i64) + 117;
    let mut n: u128 = top;
    let mut k: i64 = 0;
    while n < 0x8000_0000_0000_0000_0000_0000 && k < 96
        invariant
            n < 0x1_0000_0000_0000_0000_0000_0000,
            0 <= k <= 96,
        decreases 96 - k,
    {
        n = 2 * n;
        k = k + 1;
    }
    e = e - k;
    let mut q: u128 = n * 0x1_0000_0000 / d;
    if d >= 0x1_0000_0000_0000_0000 {
        q = n * 0x1_0000_0000 / (d / 0x1_0000_0000);
        e = e - 32;
    }
    let mut odd: bool = false;
    while q >= 16777216
        invariant
            e <= 40000 + 200,
            e >= -40000,
            q >= 16777216 ==> e + 0 <= 40000,
        decreases q,
    {
        if e >= 39000 {
            return INFINITE;
        }
        odd = q % 2 == 1;
        q = q / 2;
        e = e + 1;
    }
    while e < 0 && q > 0
        invariant
            e <= 40000 + 200,
            q < 16777216,
        decreases q,
    {
        odd = q % 2 == 1;
        q = q / 2;
        e = e + 1;
    }
    while e > 0 && 0 < q && q < 8388608
        invariant
            e <= 40000 + 200,
            q < 16777216,
        decreases e,
    {
        odd = false;
        q = q * 2;
        e = e - 1;
    }
    if e < 0 {
        return 0;
    }
    if e > 253 {
        return INFINITE;
    }
    let b: u64 = if q < 8388608 {
        q as u64
    } else {
        (e as u64 + 1) * 8388608 + (q as u64 - 8388608)
    };
    let b: u64 = if odd {
        b + 1
    } else {
        b
    };
    if b >= INFINITE as u64 {
        INFINITE
    } else {
        b as u32
    }
}

/// The magnitude that a fraction rounds to.
pub fn round(num: &Big, den: &Big) -> (r: u32)
    requires
        den@ > 0,
    ensures
        rounds_to(num@, den@, r as nat),
        r == rounded(num@, den@),
{
    let twice: Big = num.shifted(150);
    let mut low: u32 = 0;
    let mut high: u32 = INFINITE;
    let near: u32 = guess(num, den);
    if near > 0 {
        match twice.compare(&middle_times(near - 1, den)) {
            Compared::Greater => {
                low = near;
            },
            _ => {
                high = near - 1;
            },
        }
    }
    if low == near && near < INFINITE {
        match twice.compare(&middle_times(near, den)) {
            Compared::Greater => {
                low = near + 1;
            },
            _ => {
                high = near;
            },
        }
    }
    while low < high
        invariant
            den@ > 0,
            low <= high <= INFINITE,
            twice@ == num@ * pow2(150),
            low > 0 ==> middle((low - 1) as nat) * den@ < twice@,
            high < INFINITE ==> twice@ <= middle(high as nat) * den@,
        decreases high - low,
    {
        let mid: u32 = low + (high - low) / 2;
        match twice.compare(&middle_times(mid, den)) {
            Compared::Greater => {
                low = mid + 1;
            },
            _ => {
                high = mid;
            },
        }
    }
    let mut r: u32 = low;
    if low < INFINITE && low % 2 == 1 {
        match twice.compare(&middle_times(low, den)) {
            Compared::Equal => {
                r = low + 1;
                proof {
                    middles_grow(low as nat, (low + 1) as nat);
                    assert(middle(low as nat) * den@ < middle((low + 1) as nat) * den@)
                        by (nonlinear_arith)
                        requires
                            middle(low as nat) < middle((low + 1) as nat),
                            den@ > 0,
                    ;
                }
            },
            _ => {},
        }
    }
    proof {
        assert(rounds_to(num@, den@, r as nat));
        let c = rounded(num@, den@);
        rounding_is_unique(num@, den@, r as nat, c as nat);
    }
    r
}

/// A number of `m` parts, of which `2^k` make a unit in the last place of the magnitude `b0`, rounds
/// to that magnitude or the next.
proof fn rounds_by_rest(num: nat, den: nat, b0: nat, m: nat, k: nat, p: nat)
    requires
        b0 < INFINITE,
        den > 0,
        p > 0,
        significand(b0) == m / pow2(k),
        num * pow2(149) == m * p,
        pow2(exponent(b0)) * den == pow2(k) * p,
    ensures
        2 * (m % pow2(k)) > pow2(k) || 2 * (m % pow2(k)) == pow2(k) && b0 % 2 == 1 ==> rounds_to(
            num,
            den,
            b0 + 1,
        ),
        !(2 * (m % pow2(k)) > pow2(k) || 2 * (m % pow2(k)) == pow2(k) && b0 % 2 == 1) ==> rounds_to(
            num,
            den,
            b0,
        ),
{
    let s = significand(b0);
    let e = exponent(b0);
    let w = pow2(k);
    let r = m % w;
    let twice = num * pow2(150);
    lemma_pow2_pos(k);
    lemma_pow2_unfold(150);
    vstd::arithmetic::div_mod::lemma_fundamental_div_mod(m as int, w as int);
    assert(m == s * w + r) by (nonlinear_arith)
        requires
            m == w * s + r,
    ;
    assert(num * (2 * pow2(149)) == 2 * (num * pow2(149))) by (nonlinear_arith);
    assert(twice == 2 * (m * p));
    middle_is_halfway(b0);
    middle_is_halfway(b0 + 1);
    let u = units(b0);
    let v = units(b0 + 1);
    assert(u * den == s * w * p) by (nonlinear_arith)
        requires
            u == s * pow2(e),
            pow2(e) * den == w * p,
    ;
    assert(middle(b0) * den == (2 * s + 1) * w * p) by (nonlinear_arith)
        requires
            middle(b0) == (2 * s + 1) * pow2(e),
            pow2(e) * den == w * p,
    ;
    assert(v * den == (s + 1) * w * p) by (nonlinear_arith)
        requires
            middle(b0) == u + v,
            u * den == s * w * p,
            middle(b0) * den == (2 * s + 1) * w * p,
    ;
    assert(2 * (m * p) == 2 * (s * w * p) + 2 * (r * p)) by (nonlinear_arith)
        requires
            m == s * w + r,
    ;
    assert((2 * s + 1) * w * p == 2 * (s * w * p) + w * p) by (nonlinear_arith);
    assert((s + 1) * w * p == s * w * p + w * p) by (nonlinear_arith);
    assert(r * p < w * p) by (nonlinear_arith)
        requires
            r < w,
            p > 0,
    ;
    assert(2 * r > w ==> 2 * (r * p) > w * p) by (nonlinear_arith)
        requires
            p > 0,
    ;
    assert(2 * r < w ==> 2 * (r * p) < w * p) by (nonlinear_arith)
        requires
            p > 0,
    ;
    assert(2 * r == w ==> 2 * (r * p) == w * p) by (nonlinear_arith);
    if b0 > 0 {
        let b = (b0 - 1) as nat;
        middle_is_halfway(b);
        assert(middle(b) * den < 2 * (u * den)) by (nonlinear_arith)
            requires
                middle(b) < 2 * u,
                den > 0,
        ;
    }
    assert(middle(b0 + 1) * den > 2 * (v * den)) by (nonlinear_arith)
        requires
            middle(b0 + 1) > 2 * v,
            den > 0,
    ;
}

/// The magnitude to which `m * 2^e` units round, where it is quickly found.
pub fn round_small(
    m: u64,
    e: i32,
    Ghost(num): Ghost<nat>,
    Ghost(den): Ghost<nat>,
    Ghost(p): Ghost<nat>,
) -> (r: Option<u32>)
    requires
        0 < m < 0x0100_0000_0000_0000,
        -400 <= e <= 400,
        den > 0,
        p > 0,
        num * pow2(149) == m * p,
        e >= 0 ==> p == pow2(e as nat) * den,
        e < 0 ==> den == p * pow2((-e) as nat),
    ensures
        r matches Some(b) ==> b <= INFINITE && b == rounded(num, den),
    decreases e + 400,
{
    let mut t: u64 = m;
    let mut k: i32 = 0;
    let mut w: u64 = 1;
    proof {
        lemma2_to64();
        assert(m as nat / 1 == m);
    }
    while t >= 16777216
        invariant
            0 <= k <= 33,
            k == 33 ==> t < 16777216,
            w == pow2(k as nat),
            w <= 0x2_0000_0000,
            t == m as nat / pow2(k as nat),
            m < 0x0100_0000_0000_0000,
            t * w <= m,
            m < t * w + w,
            t >= 8388608 || k == 0,
        decreases t,
    {
        proof {
            lemma_pow2_pos(k as nat);
            lemma_pow2_unfold((k + 1) as nat);
            vstd::arithmetic::div_mod::lemma_div_denominator(m as int, pow2(k as nat) as int, 2);
            assert(pow2(k as nat) * 2 == pow2((k + 1) as nat));
            assert(w <= 0x1_0000_0000) by (nonlinear_arith)
                requires
                    t * w <= m,
                    t >= 16777216,
                    m < 0x0100_0000_0000_0000,
            ;
            let h = t / 2;
            assert(h * (2 * w) <= m && m < h * (2 * w) + 2 * w) by (nonlinear_arith)
                requires
                    t * w <= m,
                    m < t * w + w,
                    h == t / 2,
                    w > 0,
            ;
        }
        t = t / 2;
        w = 2 * w;
        k = k + 1;
        proof {
            if k == 33 && t >= 16777216 {
                lemma2_to64_rest();
                assert(false) by (nonlinear_arith)
                    requires
                        t >= 16777216,
                        t * w <= m,
                        w == 0x2_0000_0000,
                        m < 0x0100_0000_0000_0000,
                ;
            }
        }
    }
    let x: i32 = e + k;
    if x < 0 || x > 253 {
        return None;
    }
    if t < 8388608 && x > 0 {
        let ghost q = pow2((e - 1) as nat) * den;
        proof {
            lemma_pow2_unfold(e as nat);
            lemma_pow2_pos((e - 1) as nat);
            assert(p == 2 * q) by (nonlinear_arith)
                requires
                    p == pow2(e as nat) * den,
                    pow2(e as nat) == 2 * pow2((e - 1) as nat),
                    q == pow2((e - 1) as nat) * den,
            ;
            assert(q > 0);
            assert(m * p == (2 * m) * q) by (nonlinear_arith)
                requires
                    p == 2 * q,
            ;
        }
        return round_small(2 * m, e - 1, Ghost(num), Ghost(den), Ghost(q));
    }
    let b0: u32 = if t < 8388608 {
        t as u32
    } else {
        (x as u32 + 1) * 8388608 + (t as u32 - 8388608)
    };
    let rest: u64 = m % w;
    proof {
        assert(b0 < INFINITE);
        assert(significand(b0 as nat) == t);
        assert(exponent(b0 as nat) == x);
        if e >= 0 {
            lemma_pow2_adds(k as nat, e as nat);
            assert(pow2(x as nat) * den == pow2(k as nat) * p) by (nonlinear_arith)
                requires
                    pow2(x as nat) == pow2(k as nat) * pow2(e as nat),
                    p == pow2(e as nat) * den,
            ;
        } else {
            lemma_pow2_adds(x as nat, (-e) as nat);
            assert(pow2(x as nat) * den == pow2(k as nat) * p) by (nonlinear_arith)
                requires
                    pow2(k as nat) == pow2(x as nat) * pow2((-e) as nat),
                    den == p * pow2((-e) as nat),
            ;
        }
        rounds_by_rest(num, den, b0 as nat, m as nat, k as nat, p);
    }
    let up: bool = 2 * rest > w || 2 * rest == w && b0 % 2 == 1;
    let b: u32 = if up {
        b0 + 1
    } else {
        b0
    };
    proof {
        assert(rounds_to(num, den, b as nat));
        let c = rounded(num, den);
        assert(rounds_to(num, den, c as nat));
        rounding_is_unique(num, den, b as nat, c as nat);
    }
    Some(b)
}

/// `c` is a decimal digit.
pub open spec fn is_digit(c: char) -> bool {
    '0' <= c <= '9'
}

/// The first place from `i` on that is no digit.
pub open spec fn digits_end(s: Seq<char>, i: int) -> int
    decreases s.len() - i,
{
    if i < 0 || i >= s.len() || !is_digit(s[i]) {
        i
    } else {
        digits_end(s, i + 1)
    }
}

/// The number that digits stand for.
pub open spec fn digits_value(s: Seq<char>) -> nat
    decreases s.len(),
{
    if s.len() == 0 {
        0
    } else {
        10 * digits_value(s.drop_last()) + (s.last() as nat - 48) as nat
    }
}

/// `10^n`.
pub open spec fn ten_to(n: nat) -> nat
    decreases n,
{
    if n == 0 {
        1
    } else {
        10 * ten_to((n - 1) as nat)
    }
}

/// The magnitude nearest to `digits * 10^exp`.
pub open spec fn scaled(digits: nat, exp: int) -> u32 {
    if exp >= 0 {
        rounded(digits * ten_to(exp as nat), 1)
    } else {
        rounded(digits, ten_to((-exp) as nat))
    }
}

/// The exponent that `s` gives from `j` on, up to its end: nothing, or the letter e, a sign and
/// digits.
pub open spec fn exponent_at(s: Seq<char>, j: int) -> Option<int> {
    if j == s.len() {
        Some(0)
    } else if s[j] != 'e' && s[j] != 'E' {
        None
    } else {
        let signed = j + 1 < s.len() && (s[j + 1] == '+' || s[j + 1] == '-');
        let k = if signed {
            j + 2
        } else {
            j + 1
        };
        if k < s.len() && digits_end(s, k) == s.len() {
            let n = digits_value(s.skip(k)) as int;
            Some(
                if signed && s[j + 1] == '-' {
                    -n
                } else {
                    n
                },
            )
        } else {
            None
        }
    }
}

/// The magnitude that `s` reads as: digits with at most one point among or around them, and an
/// exponent.
pub open spec fn magnitude(s: Seq<char>) -> Option<u32> {
    let i = digits_end(s, 0);
    let dot = i < s.len() && s[i] == '.';
    let j = if dot {
        digits_end(s, i + 1)
    } else {
        i
    };
    let behind = if dot {
        j - i - 1
    } else {
        0
    };
    let all = if dot {
        s.subrange(0, i) + s.subrange(i + 1, j)
    } else {
        s.subrange(0, i)
    };
    if all.len() == 0 {
        None
    } else {
        match exponent_at(s, j) {
            Some(e) => Some(scaled(digits_value(all), e - behind)),
            None => None,
        }
    }
}

/// `s` without a sign at its start.
pub open spec fn unsigned(s: Seq<char>) -> Seq<char> {
    if s.len() > 0 && (s[0] == '+' || s[0] == '-') {
        s.skip(1)
    } else {
        s
    }
}

/// What `s` reads as: a sign, and a magnitude or one of the words for infinity and NaN.
pub open spec fn reading(s: Seq<char>) -> Option<u32> {
    let minus = s.len() > 0 && s[0] == '-';
    let u = unsigned(s);
    let m = if lower(u) == "inf"@ || lower(u) == "infinity"@ {
        Some(INFINITE)
    } else if lower(u) == "nan"@ {
        Some(0x7FC0_0000u32)
    } else {
        magnitude(u)
    };
    match m {
        Some(b) => Some(
            if minus && b < 0x8000_0000 {
                (b + 0x8000_0000) as u32
            } else {
                b
            },
        ),
        None => None,
    }
}

pub proof fn digits_end_bounds(s: Seq<char>, i: int)
    requires
        0 <= i <= s.len(),
    ensures
        i <= digits_end(s, i) <= s.len(),
        forall|k: int| i <= k < digits_end(s, i) ==> is_digit(#[trigger] s[k]),
    decreases s.len() - i,
{
    if i < s.len() && is_digit(s[i]) {
        digits_end_bounds(s, i + 1);
    }
}

/// The first place from `from` on that is no digit.
pub fn skip_digits(s: &Vec<char>, from: usize) -> (r: usize)
    requires
        from <= s@.len(),
    ensures
        r == digits_end(s@, from as int),
        from <= r <= s@.len(),
        forall|k: int| from <= k < r ==> is_digit(#[trigger] s@[k]),
{
    let mut i: usize = from;
    while i < s.len() && '0' <= s[i] && s[i] <= '9'
        invariant
            from <= i <= s@.len(),
            digits_end(s@, i as int) == digits_end(s@, from as int),
            forall|k: int| from <= k < i ==> is_digit(#[trigger] s@[k]),
        decreases s@.len() - i,
    {
        i = i + 1;
    }
    i
}

/// The number that digits stand for, behind a number that is already read.
fn read_digits(s: &Vec<char>, from: usize, to: usize, start: Big, Ghost(before): Ghost<
    Seq<char>,
>) -> (r: Big)
    requires
        from <= to <= s@.len(),
        forall|k: int| from <= k < to ==> is_digit(#[trigger] s@[k]),
        start@ == digits_value(before),
    ensures
        r@ == digits_value(before + s@.subrange(from as int, to as int)),
{
    let mut r: Big = start;
    let mut i: usize = from;
    assert(before + s@.subrange(from as int, from as int) =~= before);
    while i < to
        invariant
            from <= i <= to <= s@.len(),
            forall|k: int| from <= k < to ==> is_digit(#[trigger] s@[k]),
            r@ == digits_value(before + s@.subrange(from as int, i as int)),
        decreases to - i,
    {
        assert(is_digit(s@[i as int]));
        let d: u32 = s[i] as u32 - 48;
        let ghost next = before + s@.subrange(from as int, i + 1);
        assert(next.drop_last() =~= before + s@.subrange(from as int, i as int));
        r = r.times_plus(10, d);
        i = i + 1;
    }
    r
}

/// Beyond this an exponent decides alone.
const FAR: u128 = 60;

proof fn digits_below(s: Seq<char>)
    requires
        forall|k: int| 0 <= k < s.len() ==> is_digit(#[trigger] s[k]),
    ensures
        digits_value(s) < ten_to(s.len()),
    decreases s.len(),
{
    if s.len() > 0 {
        digits_below(s.drop_last());
        assert(is_digit(s[s.len() - 1]));
    }
}

proof fn ten_to_adds(a: nat, b: nat)
    ensures
        ten_to(a + b) == ten_to(a) * ten_to(b),
    decreases a,
{
    if a == 0 {
        assert(1 * ten_to(b) == ten_to(b));
    } else {
        ten_to_adds((a - 1) as nat, b);
        assert(10 * (ten_to((a - 1) as nat) * ten_to(b)) == 10 * ten_to((a - 1) as nat) * ten_to(b))
            by (nonlinear_arith);
    }
}

pub proof fn ten_to_positive(a: nat)
    ensures
        ten_to(a) >= 1,
    decreases a,
{
    if a > 0 {
        ten_to_positive((a - 1) as nat);
    }
}

/// `10^60` is more than `2^150`.
proof fn far_is_far()
    ensures
        ten_to(60) == 1000000000000000000000000000000000000000000000000000000000000,
        pow2(150) == 1427247692705959881058285969449495136382746624,
        pow2(128) == 340282366920938463463374607431768211456,
{
    reveal_with_fuel(ten_to, 21);
    assert(ten_to(20) == 100000000000000000000);
    assert(ten_to(40) == 10000000000000000000000000000000000000000);
    assert(ten_to(60) == 1000000000000000000000000000000000000000000000000000000000000);
    lemma2_to64();
    lemma_pow2_adds(64, 64);
    assert(pow2(128) == 340282366920938463463374607431768211456);
    lemma_pow2_adds(128, 22);
}

/// A number far above all others rounds to infinity.
proof fn far_above(num: nat)
    requires
        num >= ten_to(60),
    ensures
        rounds_to(num, 1, INFINITE as nat),
{
    far_is_far();
    let b = (INFINITE - 1) as nat;
    assert(significand(b) == 16777215);
    assert(exponent(b) == 253);
    let twice = num * pow2(150);
    lemma_pow2_adds(150, 103);
    lemma_pow2_adds(103, 25);
    lemma2_to64();
    lemma_pow2_pos(150);
    lemma_pow2_pos(103);
    assert(33554431 * pow2(253) < pow2(128) * pow2(150)) by (nonlinear_arith)
        requires
            pow2(253) == pow2(150) * pow2(103),
            pow2(128) == pow2(103) * pow2(25),
            pow2(25) == 33554432,
            pow2(150) > 0,
            pow2(103) > 0,
    ;
    assert(pow2(128) * pow2(150) <= num * pow2(150)) by (nonlinear_arith)
        requires
            pow2(128) <= num,
    ;
}

/// A number far below all others rounds to zero.
proof fn far_below(num: nat, den: nat)
    requires
        num * ten_to(60) <= den,
    ensures
        rounds_to(num, den, 0),
{
    far_is_far();
    lemma2_to64();
    assert(middle(0) == 1) by (nonlinear_arith)
        requires
            middle(0) == (2 * significand(0) + 1) * pow2(exponent(0)),
            significand(0) == 0,
            pow2(exponent(0)) == 1,
    ;
    assert(num * pow2(150) <= num * ten_to(60)) by (nonlinear_arith)
        requires
            pow2(150) <= ten_to(60),
    ;
}

/// `d * 10^n`.
pub fn times_ten_to(d: &Big, n: u128) -> (r: Big)
    ensures
        r@ == d@ * ten_to(n as nat),
{
    let mut r: Big = d.copy();
    let mut i: u128 = 0;
    assert(d@ * ten_to(0) == d@) by (nonlinear_arith)
        requires
            ten_to(0) == 1,
    ;
    while i < n
        invariant
            i <= n,
            r@ == d@ * ten_to(i as nat),
        decreases n - i,
    {
        r = r.times_plus(10, 0);
        assert(d@ * ten_to(i as nat) * 10 == d@ * (10 * ten_to(i as nat))) by (nonlinear_arith);
        i = i + 1;
    }
    r
}

/// An exponent as far as it is not far out: its sign and its size, at most `limit`.
pub fn read_exponent(s: &Vec<char>, from: usize, limit: u128) -> (r: u128)
    requires
        from <= s@.len(),
        limit <= 0xFF_FFFF_FFFF_FFFF_FFFF,
        forall|k: int| from <= k < s@.len() ==> is_digit(#[trigger] s@[k]),
    ensures
        r <= limit,
        r < limit ==> r == digits_value(s@.skip(from as int)),
        r == limit ==> digits_value(s@.skip(from as int)) >= limit,
{
    let mut r: u128 = 0;
    let mut i: usize = from;
    let ghost tail = s@.skip(from as int);
    assert(tail.take(0) =~= Seq::empty());
    while i < s.len()
        invariant
            from <= i <= s@.len(),
            limit <= 0xFF_FFFF_FFFF_FFFF_FFFF,
            tail == s@.skip(from as int),
            forall|k: int| from <= k < s@.len() ==> is_digit(#[trigger] s@[k]),
            r <= limit,
            r < limit ==> r == digits_value(tail.take(i - from)),
            r == limit ==> digits_value(tail.take(i - from)) >= limit,
        decreases s@.len() - i,
    {
        assert(is_digit(s@[i as int]));
        let ghost next = tail.take(i - from + 1);
        assert(next.drop_last() =~= tail.take(i - from));
        assert(next.last() == s@[i as int]);
        let d: u128 = s[i] as u32 as u128 - 48;
        let t: u128 = 10 * r + d;
        r = if t >= limit {
            limit
        } else {
            t
        };
        i = i + 1;
    }
    assert(tail.take(i - from) =~= tail);
    r
}

/// The magnitude nearest to `digits * 10^exp`, where the exponent is `size` or `-size`, given up
/// to `limit`.
fn scale(
    digits: &Big,
    count: u128,
    minus: bool,
    size: u128,
    behind: u128,
    Ghost(exp): Ghost<int>,
    Ghost(all): Ghost<Seq<char>>,
) -> (r: u32)
    requires
        digits@ == digits_value(all),
        count == all.len(),
        forall|k: int| 0 <= k < all.len() ==> is_digit(#[trigger] all[k]),
        count <= 0xFFFF_FFFF_FFFF_FFFF,
        behind <= count,
        size <= 2 * count + 200,
        size < 2 * count + 200 ==> exp == (if minus {
            -(size as int)
        } else {
            size as int
        }),
        size == 2 * count + 200 ==> (if minus {
            exp <= -(size as int)
        } else {
            exp >= size
        }),
    ensures
        r == scaled(digits@, exp - behind),
{
    let zero: Big = Big::small(0);
    match digits.compare(&zero) {
        Compared::Equal => {
            let den: Ghost<nat> = Ghost(
                if exp - behind >= 0 {
                    1
                } else {
                    ten_to((behind - exp) as nat)
                },
            );
            proof {
                ten_to_positive((behind - exp) as nat);
                let num = if exp - behind >= 0 {
                    digits@ * ten_to((exp - behind) as nat)
                } else {
                    0
                };
                assert(num == 0) by {
                    assert(0 * ten_to((exp - behind) as nat) == 0) by (nonlinear_arith);
                }
                assert(num * ten_to(60) == 0);
                far_below(num, den@);
                rounding_is_unique(num, den@, 0, rounded(num, den@) as nat);
            }
            return 0;
        },
        _ => {},
    }
    if !minus && size >= behind + FAR {
        proof {
            let e = (exp - behind) as nat;
            let num = digits@ * ten_to(e);
            ten_to_adds(60, (e - 60) as nat);
            ten_to_positive((e - 60) as nat);
            assert(num >= ten_to(60)) by (nonlinear_arith)
                requires
                    num == digits@ * ten_to(e),
                    digits@ >= 1,
                    ten_to(e) == ten_to(60) * ten_to((e - 60) as nat),
                    ten_to((e - 60) as nat) >= 1,
            ;
            far_above(num);
            assert(rounds_to(num, 1, INFINITE as nat));
            rounding_is_unique(num, 1, INFINITE as nat, rounded(num, 1) as nat);
        }
        return INFINITE;
    }
    if minus && size + behind >= count + FAR {
        proof {
            let n = (behind - exp) as nat;
            let den = ten_to(n);
            digits_below(all);
            ten_to_adds(count as nat, (n - count) as nat);
            ten_to_adds(60, (n - count - 60) as nat);
            ten_to_positive((n - count - 60) as nat);
            ten_to_positive(n);
            assert(digits@ * ten_to(60) <= den) by (nonlinear_arith)
                requires
                    den == ten_to(count as nat) * ten_to((n - count) as nat),
                    ten_to((n - count) as nat) == ten_to(60) * ten_to((n - count - 60) as nat),
                    ten_to((n - count - 60) as nat) >= 1,
                    digits@ <= ten_to(count as nat),
            ;
            far_below(digits@, den);
            rounding_is_unique(digits@, den, 0, rounded(digits@, den) as nat);
        }
        return 0;
    }
    let one: Big = Big::small(1);
    if !minus && size >= behind {
        assert(exp == size);
        let num: Big = times_ten_to(digits, size - behind);
        round(&num, &one)
    } else {
        let n: u128 = if minus {
            size + behind
        } else {
            behind - size
        };
        assert(-(exp - behind) == n);
        let den: Big = times_ten_to(&one, n);
        proof {
            ten_to_positive(n as nat);
            assert(1 * ten_to(n as nat) == ten_to(n as nat));
            assert(digits@ * ten_to(0) == digits@) by (nonlinear_arith)
                requires
                    ten_to(0) == 1,
            ;
        }
        round(digits, &den)
    }
}

/// The magnitude that characters read as.
fn parse_magnitude(s: &Vec<char>) -> (r: Option<u32>)
    ensures
        r == magnitude(s@),
{
    let n: usize = s.len();
    let i: usize = skip_digits(s, 0);
    let dot: bool = i < n && s[i] == '.';
    let j: usize = if dot {
        skip_digits(s, i + 1)
    } else {
        i
    };
    let behind: usize = if dot {
        j - i - 1
    } else {
        0
    };
    let ghost all = if dot {
        s@.subrange(0, i as int) + s@.subrange(i + 1, j as int)
    } else {
        s@.subrange(0, i as int)
    };
    let count: usize = i + behind;
    assert(all.len() == count);
    if count == 0 {
        return None;
    }
    assert forall|k: int| 0 <= k < all.len() implies is_digit(#[trigger] all[k]) by {
        if k < i {
            assert(all[k] == s@[k]);
        } else {
            assert(all[k] == s@[k + 1]);
        }
    }
    let mut minus: bool = false;
    let mut size: u128 = 0;
    if j < n {
        if s[j] != 'e' && s[j] != 'E' {
            return None;
        }
        let signed: bool = j + 1 < n && (s[j + 1] == '+' || s[j + 1] == '-');
        let k: usize = if signed {
            j + 2
        } else {
            j + 1
        };
        if !(k < n && skip_digits(s, k) == n) {
            return None;
        }
        minus = signed && s[j + 1] == '-';
        proof {
            digits_end_bounds(s@, k as int);
        }
        size = read_exponent(s, k, 2 * count as u128 + 200);
    }
    let start: Big = Big::small(0);
    assert(Seq::<char>::empty() + s@.subrange(0, i as int) =~= s@.subrange(0, i as int));
    let first: Big = read_digits(s, 0, i, start, Ghost(Seq::empty()));
    let digits: Big = if dot {
        read_digits(s, i + 1, j, first, Ghost(s@.subrange(0, i as int)))
    } else {
        first
    };
    let ghost exp = exponent_at(s@, j as int)->0;
    Some(scale(&digits, count as u128, minus, size, behind as u128, Ghost(exp), Ghost(all)))
}

/// What a text reads as: an optional sign, and digits with at most one point and an optional
/// exponent, or a word for infinity or NaN in any ASCII case. The result is the nearest number.
pub fn parse(text: &str) -> (r: Option<u32>)
    ensures
        r == reading(text@),
{
    let all: Vec<char> = chars_of(text);
    let minus: bool = all.len() > 0 && all[0] == '-';
    let from: usize = if all.len() > 0 && (all[0] == '+' || all[0] == '-') {
        1
    } else {
        0
    };
    let rest: String = string_of(&all, from, all.len());
    assert(rest@ =~= unsigned(text@));
    let word: String = lowered(rest.as_str());
    let m: Option<u32> = if same(word.as_str(), "inf") || same(word.as_str(), "infinity") {
        Some(INFINITE)
    } else if same(word.as_str(), "nan") {
        Some(0x7FC0_0000)
    } else {
        let u: Vec<char> = chars_of(rest.as_str());
        parse_magnitude(&u)
    };
    match m {
        Some(b) => Some(
            if minus && b < 0x8000_0000 {
                b + 0x8000_0000
            } else {
                b
            },
        ),
        None => None,
    }
}

/// The number without its sign.
pub open spec fn magnitude_of(bits: u32) -> nat {
    (bits % 0x8000_0000) as nat
}

/// The number is below zero, or is a zero or NaN with the sign set.
pub open spec fn has_sign(bits: u32) -> bool {
    bits >= 0x8000_0000
}

/// The bits stand for no number.
pub open spec fn is_nan(bits: u32) -> bool {
    magnitude_of(bits) > INFINITE
}

/// The number with the other sign.
pub open spec fn negated(bits: u32) -> u32 {
    if bits < 0x8000_0000 {
        (bits + 0x8000_0000) as u32
    } else {
        (bits - 0x8000_0000) as u32
    }
}

/// The number with the other sign.
pub fn negate(bits: u32) -> (r: u32)
    ensures
        r == negated(bits),
{
    if bits < 0x8000_0000 {
        bits + 0x8000_0000
    } else {
        bits - 0x8000_0000
    }
}

/// Taking the other sign twice changes nothing.
pub proof fn negating_twice_is_nothing(bits: u32)
    ensures
        negated(negated(bits)) == bits,
{
}

/// A number by which numbers are ordered.
pub open spec fn rank(bits: u32) -> int {
    if has_sign(bits) {
        -(magnitude_of(bits) as int)
    } else {
        magnitude_of(bits) as int
    }
}

/// The smaller of two numbers; of a number and NaN, the number.
pub open spec fn smaller(a: u32, b: u32) -> u32 {
    if is_nan(a) {
        b
    } else if is_nan(b) || rank(a) <= rank(b) {
        a
    } else {
        b
    }
}

/// The larger of two numbers; of a number and NaN, the number.
pub open spec fn larger(a: u32, b: u32) -> u32 {
    if is_nan(a) {
        b
    } else if is_nan(b) || rank(a) >= rank(b) {
        a
    } else {
        b
    }
}

/// A number by which numbers are ordered.
pub fn rank_of(bits: u32) -> (r: i64)
    ensures
        r == rank(bits),
{
    if bits >= 0x8000_0000 {
        -((bits % 0x8000_0000) as i64)
    } else {
        bits as i64
    }
}

/// The smaller of two numbers; of a number and NaN, the number.
pub fn min(a: u32, b: u32) -> (r: u32)
    ensures
        r == smaller(a, b),
{
    if a % 0x8000_0000 > INFINITE {
        b
    } else if b % 0x8000_0000 > INFINITE || rank_of(a) <= rank_of(b) {
        a
    } else {
        b
    }
}

/// The larger of two numbers; of a number and NaN, the number.
pub fn max(a: u32, b: u32) -> (r: u32)
    ensures
        r == larger(a, b),
{
    if a % 0x8000_0000 > INFINITE {
        b
    } else if b % 0x8000_0000 > INFINITE || rank_of(a) >= rank_of(b) {
        a
    } else {
        b
    }
}

/// The whole part of a number, without its sign.
pub open spec fn whole(b: nat) -> nat {
    units(b) / pow2(149)
}

/// The whole part of a number as an integer: 0 for NaN, the nearest bound where it does not fit.
pub open spec fn truncated(bits: u32) -> i32 {
    let w = whole(magnitude_of(bits));
    if is_nan(bits) {
        0
    } else if has_sign(bits) {
        if w > 2147483648 {
            i32::MIN
        } else {
            (-(w as int)) as i32
        }
    } else if w > 2147483647 {
        i32::MAX
    } else {
        w as i32
    }
}

/// `s / 2^k`.
fn halved(s: u32, k: u32) -> (r: u32)
    ensures
        r == s as nat / pow2(k as nat),
{
    let mut t: u32 = s;
    let mut i: u32 = 0;
    proof {
        lemma2_to64();
    }
    while i < k
        invariant
            i <= k,
            t == s as nat / pow2(i as nat),
        decreases k - i,
    {
        proof {
            lemma_pow2_pos(i as nat);
            lemma_pow2_unfold((i + 1) as nat);
            vstd::arithmetic::div_mod::lemma_div_denominator(s as int, pow2(i as nat) as int, 2);
            assert(pow2(i as nat) * 2 == pow2((i + 1) as nat));
        }
        t = t / 2;
        i = i + 1;
    }
    t
}

proof fn whole_of_small(b: nat)
    requires
        exponent(b) <= 149,
    ensures
        whole(b) == significand(b) / pow2((149 - exponent(b)) as nat),
{
    let e = exponent(b);
    let k = (149 - e) as nat;
    lemma_pow2_adds(e, k);
    lemma_pow2_pos(e);
    lemma_pow2_pos(k);
    vstd::arithmetic::div_mod::lemma_div_multiples_vanish_quotient(
        pow2(e) as int,
        significand(b) as int,
        pow2(k) as int,
    );
    assert(significand(b) * pow2(e) == pow2(e) * significand(b)) by (nonlinear_arith);
}

proof fn whole_of_large(b: nat)
    requires
        exponent(b) >= 149,
    ensures
        whole(b) == significand(b) * pow2((exponent(b) - 149) as nat),
{
    let e = exponent(b);
    let k = (e - 149) as nat;
    lemma_pow2_adds(k, 149);
    lemma_pow2_pos(149);
    let m = significand(b) * pow2(k);
    assert(units(b) == m * pow2(149)) by (nonlinear_arith)
        requires
            units(b) == significand(b) * pow2(e),
            pow2(e) == pow2(k) * pow2(149),
            m == significand(b) * pow2(k),
    ;
    vstd::arithmetic::div_mod::lemma_div_by_multiple(m as int, pow2(149) as int);
}

/// The whole part of a magnitude, as far as 33 bits hold it.
fn whole_part(b: u32) -> (r: u64)
    requires
        b <= INFINITE,
    ensures
        r == whole(b as nat) || r == 0x1_0000_0000 && whole(b as nat) >= 0x1_0000_0000,
{
    let (s, e): (u32, u32) = if b < 8388608 {
        (b, 0)
    } else {
        (b % 8388608 + 8388608, b / 8388608 - 1)
    };
    if e <= 149 {
        proof {
            whole_of_small(b as nat);
        }
        return halved(s, 149 - e) as u64;
    }
    proof {
        whole_of_large(b as nat);
        lemma2_to64();
    }
    if e >= 158 {
        proof {
            let k = (e - 149) as nat;
            lemma_pow2_adds(9, (k - 9) as nat);
            lemma_pow2_pos((k - 9) as nat);
            assert(s * pow2(k) >= 8388608 * 512) by (nonlinear_arith)
                requires
                    s >= 8388608,
                    pow2(k) == 512 * pow2((k - 9) as nat),
                    pow2((k - 9) as nat) >= 1,
            ;
        }
        return 0x1_0000_0000;
    }
    let mut t: u64 = s as u64;
    let mut i: u32 = 149;
    assert(s * pow2(0) == s) by (nonlinear_arith)
        requires
            pow2(0) == 1,
    ;
    while i < e
        invariant
            149 <= i <= e < 158,
            s < 16777216,
            t == s * pow2((i - 149) as nat),
            t <= 16777216 * 512,
        decreases e - i,
    {
        proof {
            lemma_pow2_unfold((i - 148) as nat);
            lemma2_to64();
            assert(s * (2 * pow2((i - 149) as nat)) == 2 * (s * pow2((i - 149) as nat)))
                by (nonlinear_arith);
            small_power((i - 149) as nat);
            assert(s * pow2((i - 149) as nat) <= 16777216 * 256) by (nonlinear_arith)
                requires
                    s < 16777216,
                    pow2((i - 149) as nat) <= 256,
            ;
        }
        t = 2 * t;
        i = i + 1;
    }
    t
}

proof fn small_power(k: nat)
    requires
        k <= 8,
    ensures
        pow2(k) <= 256,
{
    lemma2_to64();
    if k < 8 {
        lemma_pow2_adds(k, (8 - k) as nat);
        lemma_pow2_pos(k);
        lemma_pow2_pos((8 - k) as nat);
        assert(pow2(k) <= pow2(k) * pow2((8 - k) as nat)) by (nonlinear_arith)
            requires
                pow2((8 - k) as nat) >= 1,
        ;
    }
}

/// The whole part of a number as an integer: 0 for NaN, the nearest bound where it does not fit.
pub fn truncate(bits: u32) -> (r: i32)
    ensures
        r == truncated(bits),
{
    let b: u32 = bits % 0x8000_0000;
    if b > INFINITE {
        return 0;
    }
    let w: u64 = whole_part(b);
    if bits >= 0x8000_0000 {
        if w > 2147483648 {
            i32::MIN
        } else {
            (-(w as i64)) as i32
        }
    } else if w > 2147483647 {
        i32::MAX
    } else {
        w as i32
    }
}

/// One less a number, rounded to the nearest. NaN stays what it is.
pub open spec fn one_less(bits: u32) -> u32 {
    let u = units(magnitude_of(bits));
    let one = pow2(149);
    if is_nan(bits) {
        bits
    } else if magnitude_of(bits) == INFINITE {
        negated(bits)
    } else if has_sign(bits) {
        rounded(one + u, one)
    } else if u <= one {
        rounded((one - u) as nat, one)
    } else {
        negated(rounded((u - one) as nat, one))
    }
}

/// The units of a magnitude.
pub fn units_of(b: u32) -> (r: Big)
    requires
        b < INFINITE,
    ensures
        r@ == units(b as nat),
{
    let (s, e): (u32, u32) = if b < 8388608 {
        (b, 0)
    } else {
        (b % 8388608 + 8388608, b / 8388608 - 1)
    };
    Big::small(s).shifted(e)
}

/// One less a number, rounded to the nearest. NaN stays what it is.
pub fn one_minus(bits: u32) -> (r: u32)
    ensures
        r == one_less(bits),
{
    let b: u32 = bits % 0x8000_0000;
    if b > INFINITE {
        return bits;
    }
    if b == INFINITE {
        return negate(bits);
    }
    let u: Big = units_of(b);
    let one: Big = Big::small(1).shifted(149);
    proof {
        lemma_pow2_pos(149);
        assert(1 * pow2(149) == pow2(149));
    }
    if bits >= 0x8000_0000 {
        round(&one.plus(&u), &one)
    } else {
        match u.compare(&one) {
            Compared::Greater => negate(round(&u.less(&one), &one)),
            _ => round(&one.less(&u), &one),
        }
    }
}

/// Whether two numbers are equal. Both zeros are; a NaN is equal to nothing.
pub open spec fn are_equal(a: u32, b: u32) -> bool {
    !is_nan(a) && !is_nan(b) && rank(a) == rank(b)
}

/// Tells whether two numbers are equal.
pub fn equal(a: u32, b: u32) -> (r: bool)
    ensures
        r == are_equal(a, b),
{
    a % 0x8000_0000 <= INFINITE && b % 0x8000_0000 <= INFINITE && rank_of(a) == rank_of(b)
}

} // verus!
