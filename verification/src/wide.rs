//! How far sums, products and halves of doubles are from exact ones, and what the boxes of a
//! collision tree measure.
use vstd::arithmetic::power2::{
    lemma2_to64, lemma2_to64_rest, lemma_pow2_adds, lemma_pow2_pos, lemma_pow2_strictly_increases,
    pow2,
};
use vstd::prelude::*;

use crate::across::size;
use crate::double::{
    difference, exact, exponent, has_sign, magnitude_of, middle, middle_is_halfway, narrowed,
    negated, product, rounded, rounds_to, significand, sum, units, whole, widened, INFINITE,
};
use crate::phy::bounds::{half_size, middle_of, steps, BoundsView, HALF};
use crate::single;

verus! {

/// The number one, in units of the smallest double above zero.
pub open spec fn unit() -> int {
    pow2(1074) as int
}

/// A double that is neither infinite nor NaN.
pub open spec fn is_plain(a: u64) -> bool {
    magnitude_of(a) < INFINITE
}

/// From a magnitude that is not too large on, there is one that a fraction rounds to.
#[verifier::spinoff_prover]
proof fn climbs_to_a_rounding(num: nat, den: nat, b: nat)
    requires
        den > 0,
        b <= INFINITE,
        b > 0 ==> middle((b - 1) as nat) * den <= num * pow2(1075),
        b > 0 && b % 2 == 1 ==> middle((b - 1) as nat) * den < num * pow2(1075),
    ensures
        exists|c: u64| rounds_to(num, den, c as nat),
    decreases INFINITE - b,
{
    let twice = num * pow2(1075);
    let m = middle(b) * den;
    if b == INFINITE || twice < m || twice == m && b % 2 == 0 {
        assert(rounds_to(num, den, (b as u64) as nat));
    } else {
        climbs_to_a_rounding(num, den, b + 1);
    }
}

/// Every fraction has a double that it rounds to.
pub proof fn rounded_rounds(num: nat, den: nat)
    requires
        den > 0,
    ensures
        rounds_to(num, den, rounded(num, den) as nat),
{
    climbs_to_a_rounding(num, den, 0);
}

/// The step behind a magnitude is small against it.
proof fn step_is_small(b: nat)
    ensures
        middle(b) == 2 * units(b) + pow2(exponent(b)),
        b > 0 ==> middle((b - 1) as nat) >= 2 * units(b) - pow2(exponent(b)),
        4503599627370496 * pow2(exponent(b)) <= units(b) + 4503599627370496,
        pow2(exponent(b)) > 0,
{
    let s = significand(b);
    let e = exponent(b);
    lemma_pow2_pos(e);
    lemma2_to64();
    let p = pow2(e);
    assert((2 * s + 1) * p == 2 * (s * p) + p) by (nonlinear_arith);
    if b >= 4503599627370496 {
        assert(4503599627370496 * p <= s * p) by (nonlinear_arith)
            requires
                s >= 4503599627370496,
                p > 0,
        ;
    } else {
        assert(p == 1);
    }
    if b > 0 {
        let c = (b - 1) as nat;
        middle_is_halfway(c);
        let t = significand(c);
        let f = exponent(c);
        lemma_pow2_pos(f);
        let q = pow2(f);
        assert((2 * t + 1) * q == 2 * (t * q) + q) by (nonlinear_arith);
        assert(units(b) == units(c) + q);
        if f < e {
            lemma_pow2_strictly_increases(f, e);
        }
        assert(f <= e);
        assert(q <= p);
    }
}

/// A rounded fraction is off by half a step at most: one part in `2^53`, and half of the smallest
/// number.
pub proof fn rounding_error(num: nat, den: nat, b: nat)
    requires
        den > 0,
        b < INFINITE,
        rounds_to(num, den, b),
    ensures
        9007199254740992 * (num * unit() - units(b) * den) <= units(b) * den + 4503599627370496 * den,
        9007199254740992 * (units(b) * den - num * unit()) <= units(b) * den + 4503599627370496 * den,
{
    step_is_small(b);
    let u = units(b);
    let p = pow2(exponent(b));
    lemma_pow2_adds(1074, 1);
    lemma2_to64();
    let x = num * pow2(1074);
    assert(num * pow2(1075) == 2 * x) by (nonlinear_arith)
        requires
            pow2(1075) == pow2(1074) * 2,
            x == num * pow2(1074),
    ;
    let ud = u * den;
    let pd = p * den;
    assert((2 * u + p) * den == 2 * ud + pd) by (nonlinear_arith)
        requires
            ud == u * den,
            pd == p * den,
    ;
    assert(4503599627370496 * pd <= ud + 4503599627370496 * den) by (nonlinear_arith)
        requires
            4503599627370496 * p <= u + 4503599627370496,
            ud == u * den,
            pd == p * den,
    ;
    if b > 0 {
        let m = middle((b - 1) as nat);
        assert(m * den >= 2 * ud - pd) by (nonlinear_arith)
            requires
                m >= 2 * u - p,
                ud == u * den,
                pd == p * den,
                den > 0,
        ;
    } else {
        assert(u == 0) by {
            assert(significand(0) == 0);
            assert(0 * p == 0);
        }
        assert(ud == 0) by (nonlinear_arith)
            requires
                ud == u * den,
                u == 0,
        ;
    }
    assert(num * unit() == x);
}

/// A finite sum is the exact sum of finite numbers, but for half a step.
pub proof fn wide_sums_are_near(a: u64, b: u64)
    requires
        is_plain(sum(a, b)),
    ensures
        is_plain(a),
        is_plain(b),
        ({
            let s = exact(sum(a, b));
            9007199254740992 * size(s - (exact(a) + exact(b))) <= size(s) + 4503599627370496
        }),
{
    reveal(sum);
    lemma_pow2_pos(1074);
    let den = pow2(1074);
    let total = exact(a) + exact(b);
    let num = size(total) as nat;
    rounded_rounds(num, den);
    let r = rounded(num, den);
    let u = units(r as nat);
    if r < INFINITE {
        rounding_error(num, den, r as nat);
        assert(9007199254740992 * (num - u) <= u + 4503599627370496 && 9007199254740992 * (u - num)
            <= u + 4503599627370496) by (nonlinear_arith)
            requires
                9007199254740992 * (num * den - u * den) <= u * den + 4503599627370496 * den,
                9007199254740992 * (u * den - num * den) <= u * den + 4503599627370496 * den,
                den > 0,
        ;
    }
    if total == 0 {
        assert(significand(0) == 0 && units(0) == 0) by {
            assert(0 * pow2(exponent(0)) == 0);
        }
    }
}

/// A finite difference is the exact difference, but for half a step.
pub proof fn wide_differences_are_near(a: u64, b: u64)
    requires
        is_plain(difference(a, b)),
    ensures
        ({
            let s = exact(difference(a, b));
            9007199254740992 * size(s - (exact(a) - exact(b))) <= size(s) + 4503599627370496
        }),
{
    wide_sums_are_near(a, negated(b));
    assert(exact(negated(b)) == -exact(b));
}

/// Half of a finite number, twice, is the number, but for half a step.
pub proof fn halves_are_near(a: u64)
    requires
        is_plain(a),
        is_plain(product(a, HALF)),
    ensures
        ({
            let h = exact(product(a, HALF));
            9007199254740992 * size(2 * h - exact(a)) <= 2 * size(h) + 9007199254740992
        }),
{
    reveal(product);
    lemma_pow2_pos(1074);
    lemma_pow2_adds(1074, 1074);
    lemma2_to64();
    lemma2_to64_rest();
    lemma_pow2_adds(1021, 52);
    lemma_pow2_adds(1073, 1);
    assert(significand(0x3FE0_0000_0000_0000) == 4503599627370496);
    assert(exponent(0x3FE0_0000_0000_0000) == 1021);
    assert(magnitude_of(HALF) == 0x3FE0_0000_0000_0000);
    let half = units(0x3FE0_0000_0000_0000);
    let o = pow2(1074);
    assert(2 * half == o);
    let x = units(magnitude_of(a));
    let num = x * half;
    let den = pow2(2148);
    assert(den == o * o);
    assert(den > 0) by (nonlinear_arith)
        requires
            den == o * o,
            o > 0,
    ;
    rounded_rounds(num, den);
    let r = rounded(num, den);
    let u = units(r as nat);
    if r < INFINITE {
        rounding_error(num, den, r as nat);
        half_error(x as int, half as int, o as int, u as int, den as int);
    }
}

proof fn half_error(x: int, half: int, o: int, u: int, den: int)
    requires
        2 * half == o,
        o > 0,
        den == o * o,
        9007199254740992 * ((x * half) * o - u * den) <= u * den + 4503599627370496 * den,
        9007199254740992 * (u * den - (x * half) * o) <= u * den + 4503599627370496 * den,
    ensures
        9007199254740992 * (x - 2 * u) <= 2 * u + 9007199254740992,
        9007199254740992 * (2 * u - x) <= 2 * u + 9007199254740992,
{
    let q = half * o;
    assert((x * half) * o == x * q) by (nonlinear_arith)
        requires
            q == half * o,
    ;
    assert(den == 2 * q) by (nonlinear_arith)
        requires
            q == half * o,
            2 * half == o,
            den == o * o,
    ;
    assert(u * den == (2 * u) * q) by (nonlinear_arith)
        requires
            den == 2 * q,
    ;
    assert(q > 0) by (nonlinear_arith)
        requires
            q == half * o,
            2 * half == o,
            o > 0,
    ;
    let v = 2 * u;
    assert(9007199254740992 * (x - v) <= v + 9007199254740992 && 9007199254740992 * (v - x) <= v
        + 9007199254740992) by (nonlinear_arith)
        requires
            9007199254740992 * (x * q - v * q) <= v * q + 4503599627370496 * (2 * q),
            9007199254740992 * (v * q - x * q) <= v * q + 4503599627370496 * (2 * q),
            q > 0,
    ;
}

/// Half of a box's size along an axis, twice, is the way from its lower to its upper bound, but for
/// rounding.
pub proof fn half_sizes_are_halves(b: BoundsView, axis: int)
    requires
        is_plain(difference(widened(b.high[axis]), widened(b.low[axis]))),
        is_plain(half_size(b, axis)),
    ensures
        ({
            let h = exact(half_size(b, axis));
            let way = exact(widened(b.high[axis])) - exact(widened(b.low[axis]));
            2251799813685248 * size(2 * h - way) <= size(2 * h) + 4503599627370496
        }),
{
    let d = difference(widened(b.high[axis]), widened(b.low[axis]));
    wide_differences_are_near(widened(b.high[axis]), widened(b.low[axis]));
    halves_are_near(d);
    two_errors(
        exact(half_size(b, axis)),
        exact(d),
        exact(widened(b.high[axis])) - exact(widened(b.low[axis])),
    );
}

proof fn two_errors(h: int, d: int, way: int)
    requires
        9007199254740992 * size(d - way) <= size(d) + 4503599627370496,
        9007199254740992 * size(2 * h - d) <= 2 * size(h) + 9007199254740992,
    ensures
        2251799813685248 * size(2 * h - way) <= size(2 * h) + 4503599627370496,
{
}

/// A finite number made a single keeps its size, but for half a step of singles.
pub proof fn narrowing_is_near(a: u64)
    requires
        is_plain(a),
        single::magnitude_of(narrowed(a)) < single::INFINITE,
    ensures
        ({
            let c = crate::arith::exact(narrowed(a)) * pow2(925);
            16777216 * size(c - exact(a)) <= size(c) + 8388608 * pow2(925)
        }),
{
    reveal(narrowed);
    lemma_pow2_pos(1074);
    lemma_pow2_pos(149);
    lemma_pow2_pos(925);
    lemma_pow2_adds(149, 925);
    let num = units(magnitude_of(a));
    let den = pow2(1074);
    crate::across::rounded_rounds(num, den);
    let r = single::rounded(num, den);
    if r < single::INFINITE {
        crate::across::rounding_error(num, den, r as nat);
        let u = single::units(r as nat);
        narrow_error(num as int, u as int, pow2(149) as int, pow2(925) as int, den as int);
        let f = pow2(925) as int;
        crate::near::size_times(u as int, f);
        assert((-u) * f == -(u * f)) by (nonlinear_arith);
        assert(u * f >= 0) by (nonlinear_arith)
            requires
                f > 0,
                u >= 0,
        ;
    }
}

proof fn narrow_error(num: int, u: int, o: int, f: int, den: int)
    requires
        o > 0,
        f > 0,
        den == o * f,
        16777216 * (num * o - u * den) <= u * den + 8388608 * den,
        16777216 * (u * den - num * o) <= u * den + 8388608 * den,
    ensures
        16777216 * (num - u * f) <= u * f + 8388608 * f,
        16777216 * (u * f - num) <= u * f + 8388608 * f,
{
    let c = u * f;
    assert(u * den == c * o) by (nonlinear_arith)
        requires
            den == o * f,
            c == u * f,
    ;
    assert(8388608 * den == (8388608 * f) * o) by (nonlinear_arith)
        requires
            den == o * f,
    ;
    let k = 8388608 * f;
    assert(16777216 * (num - c) <= c + k && 16777216 * (c - num) <= c + k) by (nonlinear_arith)
        requires
            16777216 * (num * o - c * o) <= c * o + k * o,
            16777216 * (c * o - num * o) <= c * o + k * o,
            o > 0,
    ;
}

/// The middle of a box along an axis, twice, is the sum of its bounds, but for rounding.
pub proof fn middles_are_halfway(b: BoundsView, axis: int)
    requires
        is_plain(sum(widened(b.low[axis]), widened(b.high[axis]))),
        is_plain(product(sum(widened(b.low[axis]), widened(b.high[axis])), HALF)),
        single::magnitude_of(middle_of(b, axis)) < single::INFINITE,
    ensures
        ({
            let c = crate::arith::exact(middle_of(b, axis)) * pow2(925);
            let both = exact(widened(b.low[axis])) + exact(widened(b.high[axis]));
            4194304 * size(2 * c - both) <= size(2 * c) + 16777216 * pow2(925)
        }),
{
    let s = sum(widened(b.low[axis]), widened(b.high[axis]));
    let h = product(s, HALF);
    wide_sums_are_near(widened(b.low[axis]), widened(b.high[axis]));
    halves_are_near(s);
    narrowing_is_near(h);
    lemma2_to64();
    lemma_pow2_strictly_increases(40, 925);
    two_errors(exact(h), exact(s), exact(widened(b.low[axis])) + exact(widened(b.high[axis])));
    three_errors(
        crate::arith::exact(middle_of(b, axis)) * pow2(925),
        exact(h),
        exact(widened(b.low[axis])) + exact(widened(b.high[axis])),
        pow2(925) as int,
    );
}

proof fn three_errors(c: int, h: int, both: int, f: int)
    requires
        f >= 1,
        16777216 * size(c - h) <= size(c) + 8388608 * f,
        2251799813685248 * size(2 * h - both) <= size(2 * h) + 4503599627370496,
    ensures
        4194304 * size(2 * c - both) <= size(2 * c) + 16777216 * f,
{
}

/// The steps that a box is told in reach as far as its half size, and not a whole step farther.
pub proof fn steps_reach_far_enough(v: u64)
    requires
        is_plain(v),
        !has_sign(v),
        exact(v) < 254 * unit(),
    ensures
        (steps(v) - 1) * unit() <= exact(v) < steps(v) * unit(),
{
    lemma_pow2_pos(1074);
    let u = units(magnitude_of(v));
    let o = pow2(1074);
    let w = whole(magnitude_of(v));
    vstd::arithmetic::div_mod::lemma_fundamental_div_mod(u as int, o as int);
    vstd::arithmetic::div_mod::lemma_mod_bound(u as int, o as int);
    assert(w * o <= u < (w + 1) * o && w < 254) by (nonlinear_arith)
        requires
            u == o * w + u as int % o as int,
            0 <= u as int % o as int,
            (u as int % o as int) < o,
            u < 254 * o,
            o > 0,
    ;
}

} // verus!
