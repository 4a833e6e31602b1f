//! Single-precision numbers in decimal digits, six of them behind the point.
use vstd::arithmetic::power2::{
    lemma2_to64, lemma2_to64_rest, lemma_pow2_adds, lemma_pow2_pos, lemma_pow2_strictly_increases, lemma_pow2_unfold,
    pow2,
};
use vstd::prelude::*;

use crate::single::{exponent, has_sign, is_nan, magnitude_of, significand, units, INFINITE};
use crate::text::{decimal, digit};

verus! {

/// The whole number nearest to a fraction, or the even one of two.
pub open spec fn half_even(num: nat, den: nat) -> nat {
    let q = num / den;
    let rest = num % den;
    if 2 * rest < den || 2 * rest == den && q % 2 == 0 {
        q
    } else {
        q + 1
    }
}

/// A magnitude in millionths, rounded.
pub open spec fn millionths(b: nat) -> nat {
    half_even(units(b) * 1000000, pow2(149))
}

/// A number below a million in six digits.
pub open spec fn six_digits(n: nat) -> Seq<char> {
    seq![
        digit((n / 100000 % 10) as int),
        digit((n / 10000 % 10) as int),
        digit((n / 1000 % 10) as int),
        digit((n / 100 % 10) as int),
        digit((n / 10 % 10) as int),
        digit((n % 10) as int),
    ]
}

/// A number with six digits behind the point.
#[verifier::opaque]
pub open spec fn six_decimals(bits: u32) -> Seq<char> {
    let n = millionths(magnitude_of(bits));
    let sign = if has_sign(bits) {
        "-"@
    } else {
        Seq::<char>::empty()
    };
    if is_nan(bits) {
        "NaN"@
    } else if magnitude_of(bits) == INFINITE {
        sign + "inf"@
    } else {
        sign + decimal(n / 1000000) + "."@ + six_digits(n % 1000000)
    }
}

/// A common factor does not matter.
proof fn common_factor(num: nat, den: nat, c: nat)
    requires
        den > 0,
        c > 0,
    ensures
        half_even(num * c, den * c) == half_even(num, den),
{
    let q = num / den;
    let rest = num % den;
    vstd::arithmetic::div_mod::lemma_fundamental_div_mod(num as int, den as int);
    assert(num * c == q * (den * c) + rest * c) by (nonlinear_arith)
        requires
            num == den * q + rest,
    ;
    assert(0 <= rest * c < den * c) by (nonlinear_arith)
        requires
            0 <= rest < den,
            c > 0,
    ;
    vstd::arithmetic::div_mod::lemma_fundamental_div_mod_converse(
        (num * c) as int,
        (den * c) as int,
        q as int,
        (rest * c) as int,
    );
    assert(2 * (rest * c) < den * c <==> 2 * rest < den) by (nonlinear_arith)
        requires
            c > 0,
    ;
    assert(2 * (rest * c) == den * c <==> 2 * rest == den) by (nonlinear_arith)
        requires
            c > 0,
    ;
}

/// Below `2^24` the point falls into the significand.
proof fn small_millionths(b: nat)
    requires
        exponent(b) < 149,
    ensures
        millionths(b) == half_even(
            significand(b) * 1000000,
            pow2((149 - exponent(b)) as nat),
        ),
{
    let e = exponent(b);
    let k = (149 - e) as nat;
    let s = significand(b);
    lemma_pow2_adds(k, e);
    lemma_pow2_pos(k);
    lemma_pow2_pos(e);
    common_factor(s * 1000000, pow2(k), pow2(e));
    assert(s * pow2(e) * 1000000 == s * 1000000 * pow2(e)) by (nonlinear_arith);
}

/// From `2^23` on a number is whole.
proof fn large_millionths(b: nat)
    requires
        exponent(b) >= 149,
    ensures
        millionths(b) == significand(b) * pow2((exponent(b) - 149) as nat) * 1000000,
{
    let e = exponent(b);
    let k = (e - 149) as nat;
    let s = significand(b);
    lemma_pow2_adds(k, 149);
    lemma_pow2_pos(149);
    let m = s * pow2(k) * 1000000;
    let d = pow2(149);
    assert(s * (pow2(k) * d) * 1000000 == m * d) by (nonlinear_arith)
        requires
            m == s * pow2(k) * 1000000,
    ;
    common_factor(m, 1, d);
    assert(1 * d == d);
    assert(m % 1 == 0 && m / 1 == m);
}

/// `2^k`.
fn power(k: u32) -> (r: u64)
    requires
        k < 64,
    ensures
        r == pow2(k as nat),
        r > 0,
{
    let mut r: u64 = 1;
    let mut i: u32 = 0;
    proof {
        lemma2_to64();
    }
    while i < k
        invariant
            i <= k < 64,
            r == pow2(i as nat),
            r > 0,
        decreases k - i,
    {
        proof {
            lemma_pow2_unfold((i + 1) as nat);
            lemma2_to64_rest();
            if i < 62 {
                lemma_pow2_strictly_increases(i as nat, 62);
            }
        }
        r = 2 * r;
        i = i + 1;
    }
    r
}

/// A magnitude in millionths, where the point falls into the significand.
fn count_millionths(s: u32, k: u32) -> (r: u64)
    requires
        s < 16777216,
        0 < k <= 149,
    ensures
        r == half_even((s * 1000000) as nat, pow2(k as nat)),
        r <= s * 1000000 + 1,
{
    let n: u64 = s as u64 * 1000000;
    proof {
        lemma2_to64_rest();
        lemma_pow2_pos(k as nat);
    }
    if k >= 46 {
        proof {
            if k > 46 {
                lemma_pow2_strictly_increases(46, k as nat);
            }
            vstd::arithmetic::div_mod::lemma_fundamental_div_mod_converse(
                n as int,
                pow2(k as nat) as int,
                0,
                n as int,
            );
        }
        return 0;
    }
    let d: u64 = power(k);
    proof {
        if k < 46 {
            lemma_pow2_strictly_increases(k as nat, 46);
        }
    }
    let q: u64 = n / d;
    let rest: u64 = n % d;
    assert(q <= n) by (nonlinear_arith)
        requires
            q == n / d,
            d > 0,
    ;
    if 2 * rest < d || 2 * rest == d && q % 2 == 0 {
        q
    } else {
        q + 1
    }
}

/// `s * 2^k`.
fn whole_number(s: u32, k: u32) -> (r: u128)
    requires
        s < 16777216,
        k <= 104,
    ensures
        r == s * pow2(k as nat),
{
    let mut r: u128 = s as u128;
    let mut i: u32 = 0;
    proof {
        lemma2_to64();
        assert(s * pow2(0) == s) by (nonlinear_arith)
            requires
                pow2(0) == 1,
        ;
    }
    while i < k
        invariant
            i <= k <= 104,
            s < 16777216,
            r == s * pow2(i as nat),
        decreases k - i,
    {
        proof {
            lemma_pow2_unfold((i + 1) as nat);
            lemma_pow2_strictly_increases(i as nat, 104);
            lemma2_to64();
            lemma2_to64_rest();
            lemma_pow2_adds(64, 40);
            assert(pow2(104) == 20282409603651670423947251286016);
            let p = pow2(i as nat);
            assert(s * (2 * p) == 2 * (s * p)) by (nonlinear_arith);
            lemma_pow2_unfold(104);
            if i < 103 {
                lemma_pow2_strictly_increases(i as nat, 103);
            }
            assert(2 * p <= 20282409603651670423947251286016);
            assert(s * (2 * p) <= 16777215 * 20282409603651670423947251286016) by (nonlinear_arith)
                requires
                    s <= 16777215,
                    2 * p <= 20282409603651670423947251286016,
            ;
        }
        r = 2 * r;
        i = i + 1;
    }
    r
}

/// Appends `n` in decimal digits.
fn push_large(s: &mut String, n: u128)
    ensures
        final(s)@ == old(s)@ + decimal(n as nat),
    decreases n,
{
    if n >= 10 {
        push_large(s, n / 10);
    }
    s.push((48u8 + (n % 10) as u8) as char);
    assert(s@ =~= old(s)@ + decimal(n as nat));
}

/// Appends the last digit of `n`.
fn push_digit(s: &mut String, n: u64)
    ensures
        final(s)@ == old(s)@.push(digit((n % 10) as int)),
{
    s.push((48u8 + (n % 10) as u8) as char);
}

/// Appends a number below a million in six digits.
fn push_six(s: &mut String, n: u64)
    ensures
        final(s)@ == old(s)@ + six_digits(n as nat),
{
    push_digit(s, n / 100000);
    push_digit(s, n / 10000);
    push_digit(s, n / 1000);
    push_digit(s, n / 100);
    push_digit(s, n / 10);
    push_digit(s, n);
    assert(s@ =~= old(s)@ + six_digits(n as nat));
}

/// A number with six digits behind the point.
pub fn print_six(bits: u32) -> (r: String)
    ensures
        r@ == six_decimals(bits),
{
    proof {
        reveal(six_decimals);
    }
    let b: u32 = bits % 0x8000_0000;
    if b > INFINITE {
        return "NaN".to_owned();
    }
    let mut s: String = String::new();
    if bits >= 0x8000_0000 {
        s.push_str("-");
    }
    let ghost sign = s@;
    assert(sign =~= (if has_sign(bits) {
        "-"@
    } else {
        Seq::<char>::empty()
    }));
    if b == INFINITE {
        s.push_str("inf");
        return s;
    }
    let (m, e): (u32, u32) = if b < 8388608 {
        (b, 0)
    } else {
        (b % 8388608 + 8388608, b / 8388608 - 1)
    };
    assert(m == significand(b as nat) && e == exponent(b as nat));
    let ghost n = millionths(b as nat);
    let (whole, rest): (u128, u64) = if e < 149 {
        proof {
            small_millionths(b as nat);
        }
        let n: u64 = count_millionths(m, 149 - e);
        ((n / 1000000) as u128, n % 1000000)
    } else {
        proof {
            large_millionths(b as nat);
        }
        let w: u128 = whole_number(m, e - 149);
        assert(n == w as nat * 1000000);
        (w, 0)
    };
    assert(whole == n / 1000000 && rest == n % 1000000);
    push_large(&mut s, whole);
    s.push_str(".");
    push_six(&mut s, rest);
    assert(s@ =~= sign + decimal(n / 1000000) + "."@ + six_digits(n % 1000000));
    s
}

} // verus!
