//! Single-precision numbers in the fewest decimal digits that read back as the number.
use vstd::arithmetic::div_mod::lemma_fundamental_div_mod_converse;
use vstd::arithmetic::power2::{lemma_pow2_pos, pow2};
use vstd::prelude::*;

use crate::big::{Big, Compared};
use crate::single::{
    has_sign, is_nan, magnitude_of, round, scaled, ten_to, ten_to_positive, times_ten_to, units,
    units_of, INFINITE,
};
use crate::text::{decimal, push_decimal};

verus! {

/// The exponent of the coarsest steps, which are above all numbers.
pub const COARSEST: u32 = 39;

/// The exponent of the finest steps is this much below that of the coarsest.
pub const FINEST: u32 = 90;

/// No number takes as many steps.
pub const ENOUGH: u64 = 10000000000;

/// What the coarsest step stands for, in units.
pub open spec fn coarse_step() -> nat {
    pow2(149) * ten_to(COARSEST as nat)
}

/// The whole steps of `10^(39 - s)` in a magnitude.
pub open spec fn steps(b: nat, s: nat) -> nat {
    units(b) * ten_to(s) / coarse_step()
}

/// What is left of a magnitude above the whole steps, as a fraction of the coarsest step.
pub open spec fn left_over(b: nat, s: nat) -> nat {
    units(b) * ten_to(s) % coarse_step()
}

/// `n` steps of `10^(39 - s)` read as the magnitude.
pub open spec fn reads_as(b: nat, s: nat, n: nat) -> bool {
    scaled(n, COARSEST - s) == b
}

/// The coarsest steps from `s` on of which a whole number reads as the magnitude.
pub open spec fn fitting(b: nat, s: nat) -> nat
    decreases FINEST - s,
{
    if s >= FINEST || steps(b, s) >= ENOUGH || reads_as(b, s, steps(b, s)) || reads_as(
        b,
        s,
        steps(b, s) + 1,
    ) {
        s
    } else {
        fitting(b, s + 1)
    }
}

/// The number of steps nearest to the magnitude of those that read as it.
pub open spec fn fitting_steps(b: nat, s: nat) -> nat {
    let n = steps(b, s);
    if reads_as(b, s, n + 1) && (!reads_as(b, s, n) || 2 * left_over(b, s) >= coarse_step()) {
        n + 1
    } else {
        n
    }
}

/// Zeros.
pub open spec fn zeros(n: nat) -> Seq<char> {
    Seq::new(n, |i: int| '0')
}

/// `n * 10^exp` written out, without an exponent.
pub open spec fn written(n: nat, exp: int) -> Seq<char> {
    let d = decimal(n);
    if exp >= 0 {
        d + zeros(exp as nat)
    } else if d.len() > -exp {
        d.subrange(0, d.len() + exp) + "."@ + d.subrange(d.len() + exp, d.len() as int)
    } else {
        "0."@ + zeros((-exp - d.len()) as nat) + d
    }
}

/// A number in the fewest digits that read back as it, without an exponent.
#[verifier::opaque]
pub open spec fn plain_digits(bits: u32) -> Seq<char> {
    let b = magnitude_of(bits);
    let sign = if has_sign(bits) {
        "-"@
    } else {
        Seq::<char>::empty()
    };
    if is_nan(bits) {
        "NaN"@
    } else if b == INFINITE {
        sign + "inf"@
    } else if b == 0 {
        sign + "0"@
    } else {
        let s = fitting(b, 0);
        sign + written(fitting_steps(b, s), COARSEST - s)
    }
}

/// Tells whether `n` steps read as the magnitude.
fn reads(b: u32, s: u32, n: u64) -> (r: bool)
    requires
        s <= FINEST,
    ensures
        r == reads_as(b as nat, s as nat, n as nat),
{
    let one: Big = Big::small(1);
    let d: Big = one.times(n);
    assert(d@ == n as nat) by {
        assert(1 * n as nat == n as nat);
    }
    if s <= COARSEST {
        let num: Big = times_ten_to(&d, (COARSEST - s) as u128);
        round(&num, &one) == b
    } else {
        let den: Big = times_ten_to(&one, (s - COARSEST) as u128);
        proof {
            ten_to_positive((s - COARSEST) as nat);
            assert(1 * ten_to((s - COARSEST) as nat) == ten_to((s - COARSEST) as nat));
        }
        round(&d, &den) == b
    }
}

/// Ten times finer steps take ten times what is left over.
proof fn finer(b: nat, s: nat, digit: nat, rest: nat)
    requires
        10 * left_over(b, s) == digit * coarse_step() + rest,
        rest < coarse_step(),
    ensures
        steps(b, s + 1) == 10 * steps(b, s) + digit,
        left_over(b, s + 1) == rest,
{
    let u = units(b) * ten_to(s);
    let c = coarse_step();
    let q = steps(b, s);
    let l = left_over(b, s);
    vstd::arithmetic::div_mod::lemma_fundamental_div_mod(u as int, c as int);
    assert(ten_to(s + 1) == 10 * ten_to(s));
    assert(units(b) * ten_to(s + 1) == 10 * u) by (nonlinear_arith)
        requires
            u == units(b) * ten_to(s),
            ten_to(s + 1) == 10 * ten_to(s),
    ;
    assert(10 * u == (10 * q + digit) * c + rest) by (nonlinear_arith)
        requires
            u == c * q + l,
            10 * l == digit * c + rest,
    ;
    lemma_fundamental_div_mod_converse((10 * u) as int, c as int, (10 * q + digit) as int, rest as int);
}

/// The next digit, and what is left over.
fn next_digit(rest: &Big, step: &Big) -> (r: (u32, Big))
    requires
        step@ > 0,
        rest@ < 10 * step@,
    ensures
        r.0 < 10,
        rest@ == r.0 * step@ + r.1@,
        r.1@ < step@,
{
    let mut digit: u32 = 0;
    let mut left: Big = rest.copy();
    assert(rest@ == 0 * step@ + left@);
    loop
        invariant
            digit < 10,
            step@ > 0,
            rest@ < 10 * step@,
            rest@ == digit * step@ + left@,
        decreases left@,
    {
        match left.compare(step) {
            Compared::Less => {
                return (digit, left);
            },
            _ => {},
        }
        let less: Big = left.less(step);
        proof {
            assert(rest@ == (digit + 1) * step@ + less@) by (nonlinear_arith)
                requires
                    rest@ == digit * step@ + left@,
                    less@ == left@ - step@,
            ;
            assert(digit + 1 < 10) by (nonlinear_arith)
                requires
                    rest@ == (digit + 1) * step@ + less@,
                    rest@ < 10 * step@,
                    step@ > 0,
            ;
        }
        digit = digit + 1;
        left = less;
    }
}

/// Puts zeros behind a text.
fn push_zeros(s: &mut String, n: u32)
    ensures
        final(s)@ == old(s)@ + zeros(n as nat),
{
    let mut i: u32 = 0;
    assert(s@ =~= old(s)@ + zeros(0));
    while i < n
        invariant
            i <= n,
            s@ == old(s)@ + zeros(i as nat),
        decreases n - i,
    {
        s.push('0');
        i = i + 1;
        assert(s@ =~= old(s)@ + zeros(i as nat));
    }
}

/// Puts `n * 10^(39 - s)` behind a text.
fn push_written(text: &mut String, n: u64, s: u32)
    requires
        s <= FINEST,
    ensures
        final(text)@ == old(text)@ + written(n as nat, COARSEST - s),
{
    let mut d: String = String::new();
    push_decimal(&mut d, n);
    assert(d@ =~= decimal(n as nat));
    if s <= COARSEST {
        text.push_str(d.as_str());
        push_zeros(text, COARSEST - s);
        assert(text@ =~= old(text)@ + written(n as nat, COARSEST - s));
        return;
    }
    let behind: u32 = s - COARSEST;
    let chars: Vec<char> = crate::text::chars_of(d.as_str());
    let count: usize = chars.len();
    if count > behind as usize {
        let whole: String = crate::text::string_of(&chars, 0, count - behind as usize);
        let part: String = crate::text::string_of(&chars, count - behind as usize, count);
        text.push_str(whole.as_str());
        text.push_str(".");
        text.push_str(part.as_str());
    } else {
        text.push_str("0.");
        push_zeros(text, behind - count as u32);
        text.push_str(d.as_str());
    }
    assert(text@ =~= old(text)@ + written(n as nat, COARSEST - s));
}

/// No number takes a whole coarsest step.
proof fn none_at_first(b: nat)
    requires
        b < INFINITE,
    ensures
        coarse_step() > 0,
        steps(b, 0) == 0,
        left_over(b, 0) == units(b),
{
    let e = crate::single::exponent(b);
    let m = crate::single::significand(b);
    assert(e <= 253);
    assert(m < 0x100_0000);
    lemma_pow2_pos(149);
    lemma_pow2_pos(e);
    if e < 253 {
        vstd::arithmetic::power2::lemma_pow2_strictly_increases(e, 253);
    }
    vstd::arithmetic::power2::lemma_pow2_adds(149, 104);
    vstd::arithmetic::power2::lemma_pow2_adds(64, 40);
    vstd::arithmetic::power2::lemma2_to64();
    vstd::arithmetic::power2::lemma2_to64_rest();
    reveal_with_fuel(ten_to, 40);
    let t: nat = 0x100_0000 * pow2(104);
    assert(t < ten_to(39)) by {
        assert(pow2(104) == 0x1_0000_0000_0000_0000nat * 0x100_0000_0000nat);
    }
    assert(units(b) < pow2(149) * ten_to(39)) by (nonlinear_arith)
        requires
            units(b) == m * pow2(e),
            m < 0x100_0000,
            pow2(e) <= pow2(253),
            pow2(253) == pow2(149) * pow2(104),
            t == 0x100_0000 * pow2(104),
            t < ten_to(39),
            pow2(149) > 0,
            pow2(e) > 0,
    ;
    assert(units(b) * ten_to(0) == units(b)) by (nonlinear_arith)
        requires
            ten_to(0) == 1,
    ;
    lemma_fundamental_div_mod_converse(
        units(b) as int,
        coarse_step() as int,
        0,
        units(b) as int,
    );
}

/// A number in the fewest digits that read back as it, without an exponent.
pub fn print_plain(bits: u32) -> (r: String)
    ensures
        r@ == plain_digits(bits),
{
    proof {
        reveal(plain_digits);
    }
    let b: u32 = bits % 0x8000_0000;
    if b > INFINITE {
        return "NaN".to_owned();
    }
    let mut text: String = String::new();
    if bits >= 0x8000_0000 {
        text.push_str("-");
    }
    let ghost sign = text@;
    assert(sign =~= (if has_sign(bits) {
        "-"@
    } else {
        Seq::<char>::empty()
    }));
    if b == INFINITE {
        text.push_str("inf");
        return text;
    }
    if b == 0 {
        text.push_str("0");
        return text;
    }
    let step: Big = times_ten_to(&Big::small(1).shifted(149), COARSEST as u128);
    let mut s: u32 = 0;
    let mut n: u64 = 0;
    let mut rest: Big = units_of(b);
    proof {
        none_at_first(b as nat);
        assert(1 * pow2(149) == pow2(149));
    }
    loop
        invariant
            0 < b < INFINITE,
            s <= FINEST,
            step@ == coarse_step(),
            step@ > 0,
            n == steps(b as nat, s as nat),
            n < 100 * ENOUGH,
            rest@ == left_over(b as nat, s as nat),
            fitting(b as nat, 0) == fitting(b as nat, s as nat),
            bits % 0x8000_0000 == b,
            text@ == sign,
            sign == (if has_sign(bits) {
                "-"@
            } else {
                Seq::<char>::empty()
            }),
            plain_digits(bits) == sign + written(
                fitting_steps(b as nat, fitting(b as nat, 0)),
                COARSEST - fitting(b as nat, 0),
            ),
        decreases FINEST - s,
    {
        let down: bool = reads(b, s, n);
        let up: bool = reads(b, s, n + 1);
        if s >= FINEST || n >= ENOUGH || down || up {
            let twice: Big = rest.times_plus(2, 0);
            let near: bool = match twice.compare(&step) {
                Compared::Less => false,
                _ => true,
            };
            let chosen: u64 = if up && (!down || near) {
                n + 1
            } else {
                n
            };
            assert(chosen == fitting_steps(b as nat, s as nat));
            push_written(&mut text, chosen, s);
            return text;
        }
        let ten: Big = rest.times_plus(10, 0);
        let (digit, left) = next_digit(&ten, &step);
        proof {
            finer(b as nat, s as nat, digit as nat, left@);
        }
        n = 10 * n + digit as u64;
        rest = left;
        s = s + 1;
    }
}

} // verus!
