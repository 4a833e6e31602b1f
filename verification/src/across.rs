//! How far rounded lengths and directions are from exact ones.
use vstd::arithmetic::power2::{
    lemma2_to64, lemma_pow2_adds, lemma_pow2_pos, lemma_pow2_strictly_increases, pow2,
};
use vstd::prelude::*;

use crate::arith::{
    absolute, below, exact, product, quotient, root, root_is_finite, root_rounded, root_rounds_to,
    sum,
};
use crate::single::{
    are_equal, exponent, has_sign, is_nan, magnitude_of, middle, middle_is_halfway, negated, rounded,
    rounding_is_unique, rounds_to, significand, units, INFINITE, ONE,
};
use crate::tangent::{cross_product, fallback, length, unit, NEARLY_ONE};

verus! {

/// What one stands for, in units.
pub open spec fn one() -> int {
    pow2(149) as int
}

/// From a magnitude that is not too large on, there is one that a fraction rounds to.
proof fn climbs_to_a_rounding(num: nat, den: nat, b: nat)
    requires
        den > 0,
        b <= INFINITE,
        b > 0 ==> middle((b - 1) as nat) * den <= num * pow2(150),
        b > 0 && b % 2 == 1 ==> middle((b - 1) as nat) * den < num * pow2(150),
    ensures
        exists|c: u32| rounds_to(num, den, c as nat),
    decreases INFINITE - b,
{
    let twice = num * pow2(150);
    let m = middle(b) * den;
    if b == INFINITE || twice < m || twice == m && b % 2 == 0 {
        assert(rounds_to(num, den, (b as u32) as nat));
    } else {
        climbs_to_a_rounding(num, den, b + 1);
    }
}

/// A fraction rounds to the magnitude that it is said to round to.
pub proof fn rounded_rounds(num: nat, den: nat)
    requires
        den > 0,
    ensures
        rounds_to(num, den, rounded(num, den) as nat),
{
    climbs_to_a_rounding(num, den, 0);
}

/// The step behind a magnitude is small against it.
proof fn step_is_small(b: nat)
    ensures
        middle(b) == 2 * units(b) + pow2(exponent(b)),
        b > 0 ==> middle((b - 1) as nat) >= 2 * units(b) - pow2(exponent(b)),
        8388608 * pow2(exponent(b)) <= units(b) + 8388608,
        pow2(exponent(b)) > 0,
{
    let s = significand(b);
    let e = exponent(b);
    lemma_pow2_pos(e);
    lemma2_to64();
    let p = pow2(e);
    assert((2 * s + 1) * p == 2 * (s * p) + p) by (nonlinear_arith);
    if b >= 8388608 {
        assert(8388608 * p <= s * p) by (nonlinear_arith)
            requires
                s >= 8388608,
                p > 0,
        ;
    } else {
        assert(p == 1);
    }
    if b > 0 {
        let c = (b - 1) as nat;
        middle_is_halfway(c);
        let t = significand(c);
        let f = exponent(c);
        lemma_pow2_pos(f);
        let q = pow2(f);
        assert((2 * t + 1) * q == 2 * (t * q) + q) by (nonlinear_arith);
        assert(units(b) == units(c) + q);
        if f < e {
            lemma_pow2_strictly_increases(f, e);
        }
        assert(f <= e);
        assert(q <= p);
    }
}

/// A rounded fraction is within half a step: `K` times the error is at most what is given and
/// half a unit.
pub proof fn rounding_error(num: nat, den: nat, b: nat)
    requires
        den > 0,
        b < INFINITE,
        rounds_to(num, den, b),
    ensures
        16777216 * (num * one() - units(b) * den) <= units(b) * den + 8388608 * den,
        16777216 * (units(b) * den - num * one()) <= units(b) * den + 8388608 * den,
{
    step_is_small(b);
    let u = units(b);
    let p = pow2(exponent(b));
    lemma_pow2_adds(149, 1);
    lemma2_to64();
    let x = num * pow2(149);
    assert(num * pow2(150) == 2 * x) by (nonlinear_arith)
        requires
            pow2(150) == pow2(149) * 2,
            x == num * pow2(149),
    ;
    let ud = u * den;
    let pd = p * den;
    assert((2 * u + p) * den == 2 * ud + pd) by (nonlinear_arith)
        requires
            ud == u * den,
            pd == p * den,
    ;
    assert(8388608 * pd <= ud + 8388608 * den) by (nonlinear_arith)
        requires
            8388608 * p <= u + 8388608,
            ud == u * den,
            pd == p * den,
    ;
    if b > 0 {
        let m = middle((b - 1) as nat);
        assert(m * den >= 2 * ud - pd) by (nonlinear_arith)
            requires
                m >= 2 * u - p,
                ud == u * den,
                pd == p * den,
                den > 0,
        ;
    } else {
        assert(u == 0) by {
            assert(significand(0) == 0);
            assert(0 * p == 0);
        }
        assert(ud == 0) by (nonlinear_arith)
            requires
                ud == u * den,
                u == 0,
        ;
    }
    assert(num * one() == x);
}

/// A fraction that is not large rounds to a finite number.
pub proof fn rounds_below_infinity(num: nat, den: nat, b: nat)
    requires
        den > 0,
        num <= 64 * den,
        rounds_to(num, den, b),
    ensures
        b < INFINITE,
{
    if b == INFINITE {
        let m = middle(0x7F7F_FFFF);
        lemma2_to64();
        lemma_pow2_adds(150, 6);
        lemma_pow2_strictly_increases(156, 253);
        lemma_pow2_pos(150);
        assert(significand(0x7F7F_FFFF) == 16777215);
        assert(exponent(0x7F7F_FFFF) == 253);
        assert(m == 33554431 * pow2(253));
        assert(m * den <= num * pow2(150));
        assert(m > 64 * pow2(150));
        assert(false) by (nonlinear_arith)
            requires
                m * den <= num * pow2(150),
                m > 64 * pow2(150),
                num <= 64 * den,
                den > 0,
                pow2(150) > 0,
        ;
    }
}

/// The square of a number that is not large.
proof fn square_error(v: u32)
    requires
        !is_nan(v),
        magnitude_of(v) < INFINITE,
        units(magnitude_of(v)) <= 2 * one(),
    ensures
        ({
            let x = units(magnitude_of(v)) as int;
            let p = product(v, v);
            let y = units(p as nat) * one();
            &&& p < INFINITE
            &&& 16777216 * (x * x - y) <= y + 8388608 * one()
            &&& 16777216 * (y - x * x) <= y + 8388608 * one()
            &&& units(p as nat) <= 8 * one()
        }),
{
    reveal(product);
    let x = units(magnitude_of(v));
    let b = pow2(149);
    lemma_pow2_adds(149, 149);
    lemma_pow2_pos(149);
    lemma2_to64();
    lemma_pow2_strictly_increases(32, 149);
    let den = pow2(298);
    let num = x * x;
    assert(num <= 4 * den && den > 0) by (nonlinear_arith)
        requires
            num == x * x,
            den == b * b,
            x <= 2 * b,
            b > 0,
    ;
    rounded_rounds(num, den);
    let p = rounded(num, den);
    rounds_below_infinity(num, den, p as nat);
    rounding_error(num, den, p as nat);
    let u = units(p as nat);
    assert(product(v, v) == p);
    let y = u * b;
    assert(u * den == y * b) by (nonlinear_arith)
        requires
            y == u * b,
            den == b * b,
    ;
    assert(num * one() == num * b);
    assert(16777216 * (num - y) <= y + 8388608 * b) by (nonlinear_arith)
        requires
            16777216 * (num * b - y * b) <= y * b + 8388608 * (b * b),
            b > 0,
    ;
    assert(16777216 * (y - num) <= y + 8388608 * b) by (nonlinear_arith)
        requires
            16777216 * (y * b - num * b) <= y * b + 8388608 * (b * b),
            b > 0,
    ;
    assert(y <= 8 * (b * b)) by (nonlinear_arith)
        requires
            16777216 * (y - num) <= y + 8388608 * b,
            num <= 4 * (b * b),
            b >= 4294967296,
    ;
    assert(u <= 8 * b) by (nonlinear_arith)
        requires
            y == u * b,
            y <= 8 * (b * b),
            b > 0,
    ;
}

/// The sum of two numbers that are not below zero.
proof fn sum_error(a: u32, c: u32)
    requires
        a < INFINITE,
        c < INFINITE,
        units(a as nat) + units(c as nat) <= 60 * one(),
    ensures
        ({
            let t = units(a as nat) + units(c as nat);
            let s = sum(a, c);
            let u = units(s as nat) as int;
            &&& s < INFINITE
            &&& 16777216 * (t - u) <= u + 8388608
            &&& 16777216 * (u - t) <= u + 8388608
        }),
{
    reveal(sum);
    let t = units(a as nat) + units(c as nat);
    let b = pow2(149);
    lemma_pow2_pos(149);
    assert(magnitude_of(a) == a && magnitude_of(c) == c);
    assert(exact(a) + exact(c) == t);
    if t == 0 {
        assert(sum(a, c) == 0);
        assert(units(0) == 0) by (nonlinear_arith);
    } else {
        rounded_rounds(t, b);
        let s = rounded(t, b);
        assert(t <= 64 * b);
        rounds_below_infinity(t, b, s as nat);
        rounding_error(t, b, s as nat);
        let u = units(s as nat);
        assert(sum(a, c) == s);
        assert(16777216 * (t - u) <= u + 8388608) by (nonlinear_arith)
            requires
                16777216 * (t * b - u * b) <= u * b + 8388608 * b,
                b > 0,
        ;
        assert(16777216 * (u - t) <= u + 8388608) by (nonlinear_arith)
            requires
                16777216 * (u * b - t * b) <= u * b + 8388608 * b,
                b > 0,
        ;
    }
}

/// A number over another that is not much smaller.
proof fn quotient_error(a: u32, len: u32)
    requires
        magnitude_of(a) < INFINITE,
        0 < len < INFINITE,
        units(len as nat) > 0,
        units(magnitude_of(a)) <= 60 * units(len as nat),
    ensures
        ({
            let n = units(magnitude_of(a)) * one();
            let q = quotient(a, len);
            let d = units(magnitude_of(q)) * units(len as nat);
            &&& magnitude_of(q) < INFINITE
            &&& has_sign(q) == has_sign(a)
            &&& 16777216 * (n - d) <= d + 8388608 * units(len as nat)
            &&& 16777216 * (d - n) <= d + 8388608 * units(len as nat)
        }),
{
    reveal(quotient);
    let num = units(magnitude_of(a));
    let den = units(len as nat);
    assert(magnitude_of(len) == len);
    rounded_rounds(num, den);
    let r = rounded(num, den);
    rounds_below_infinity(num, den, r as nat);
    rounding_error(num, den, r as nat);
}

/// From a magnitude that is not too large on, there is one that a square root rounds to.
proof fn climbs_to_a_root(u: nat, b: nat)
    requires
        b <= 0x7F7F_FFFE,
        u * pow2(151) < middle(0x7F7F_FFFE) * middle(0x7F7F_FFFE),
        b > 0 ==> middle((b - 1) as nat) * middle((b - 1) as nat) <= u * pow2(151),
        b > 0 && b % 2 == 1 ==> middle((b - 1) as nat) * middle((b - 1) as nat) < u * pow2(151),
    ensures
        exists|c: u32| root_rounds_to(u, c as nat),
    decreases INFINITE - b,
{
    let square = u * pow2(151);
    let m = middle(b) * middle(b);
    if square < m || square == m && b % 2 == 0 {
        assert(root_rounds_to(u, (b as u32) as nat));
    } else {
        climbs_to_a_root(u, b + 1);
    }
}

/// The square root of a number that is not small.
proof fn root_error(a: u32)
    requires
        0 < a < INFINITE,
        units(a as nat) * one() >= 4 * one() * one() / 100,
    ensures
        ({
            let q = units(a as nat) * one();
            let r = root(a);
            let l = units(r as nat) as int;
            &&& 0 < r < INFINITE
            &&& l >= 4294967296
            &&& 16777216 * (q - l * l) <= 4 * (l * l)
            &&& 16777216 * (l * l - q) <= 4 * (l * l)
        }),
{
    reveal(root);
    let u = units(a as nat);
    let b = pow2(149);
    lemma_pow2_pos(149);
    lemma2_to64();
    lemma_pow2_adds(149, 2);
    lemma_pow2_adds(64, 64);
    lemma_pow2_strictly_increases(128, 149);
    root_is_finite(a as nat);
    climbs_to_a_root(u, 0);
    let r = root_rounded(u);
    assert(magnitude_of(a) == a);
    assert(root(a) == r);
    assert(root_rounds_to(u, r as nat));
    let l = units(r as nat) as int;
    let p = pow2(exponent(r as nat)) as int;
    step_is_small(r as nat);
    let q = u * b;
    assert(u * pow2(151) == 4 * q) by (nonlinear_arith)
        requires
            q == u * b,
            pow2(151) == b * 4,
    ;
    assert(4 * q <= (2 * l + p) * (2 * l + p));
    assert(q >= b) by (nonlinear_arith)
        requires
            q >= 4 * b * b / 100,
            b >= 4294967296,
    ;
    let big: nat = 0x1_0000_0000_0000_0000 * 0x1_0000_0000_0000_0000;
    assert(b >= big);
    assert(l >= 4294967296) by {
        if l < 4294967296 {
            assert(p <= l + 8388608);
            assert((2 * l + p) * (2 * l + p) <= 40000000000 * 40000000000) by (nonlinear_arith)
                requires
                    0 <= l < 4294967296,
                    0 <= p <= l + 8388608,
            ;
        }
    }
    assert(r > 0) by {
        if r == 0 {
            assert(significand(0) == 0);
            assert(0 * p == 0);
        }
    }
    assert(16777216 * p <= 3 * l);
    let lp = l * p;
    let ll = l * l;
    let pp = p * p;
    assert((2 * l + p) * (2 * l + p) == 4 * ll + 4 * lp + pp) by (nonlinear_arith)
        requires
            lp == l * p,
            ll == l * l,
            pp == p * p,
    ;
    assert(16777216 * lp <= 3 * ll) by (nonlinear_arith)
        requires
            lp == l * p,
            ll == l * l,
            16777216 * p <= 3 * l,
            l > 0,
    ;
    assert(pp <= lp) by (nonlinear_arith)
        requires
            lp == l * p,
            pp == p * p,
            16777216 * p <= 3 * l,
            p > 0,
    ;
    let m = middle((r - 1) as nat) as int;
    assert(m * m >= 4 * ll - 4 * lp) by (nonlinear_arith)
        requires
            m >= 2 * l - p,
            2 * l - p >= 0,
            lp == l * p,
            ll == l * l,
    ;
}

/// A vector of numbers that are not large, as sizes in units.
pub open spec fn sizes(v: (u32, u32, u32)) -> (int, int, int) {
    (
        units(magnitude_of(v.0)) as int,
        units(magnitude_of(v.1)) as int,
        units(magnitude_of(v.2)) as int,
    )
}

/// The square of a vector's exact length, in units squared.
pub open spec fn square(v: (u32, u32, u32)) -> int {
    let s = sizes(v);
    s.0 * s.0 + s.1 * s.1 + s.2 * s.2
}

/// A vector of finite numbers of which none is above two.
pub open spec fn is_moderate(v: (u32, u32, u32)) -> bool {
    &&& magnitude_of(v.0) < INFINITE && magnitude_of(v.1) < INFINITE && magnitude_of(v.2) < INFINITE
    &&& sizes(v).0 <= 2 * one() && sizes(v).1 <= 2 * one() && sizes(v).2 <= 2 * one()
}

/// The length of a vector that is neither large nor small is near its exact length.
#[verifier::spinoff_prover]
pub proof fn length_error(v: (u32, u32, u32))
    requires
        is_moderate(v),
        square(v) >= 5 * (one() * one()) / 100,
    ensures
        ({
            let r = length(v);
            let l = units(r as nat) as int;
            &&& 0 < r < INFINITE
            &&& l >= 4294967296
            &&& 16777216 * (square(v) - l * l) <= 8 * (l * l)
            &&& 16777216 * (l * l - square(v)) <= 8 * (l * l)
        }),
{
    let b = one();
    lemma_pow2_pos(149);
    lemma2_to64();
    lemma_pow2_strictly_increases(64, 149);
    square_error(v.0);
    square_error(v.1);
    square_error(v.2);
    let p0 = product(v.0, v.0);
    let p1 = product(v.1, v.1);
    let p2 = product(v.2, v.2);
    sum_error(p0, p1);
    let a = sum(p0, p1);
    sum_error(a, p2);
    let q = sum(a, p2);
    let (u0, u1, u2) = (units(p0 as nat) as int, units(p1 as nat) as int, units(p2 as nat) as int);
    let ua = units(a as nat) as int;
    let uq = units(q as nat) as int;
    let bb = b * b;
    assert(16777216 * (b * 16777216) <= bb) by (nonlinear_arith)
        requires
            bb == b * b,
            b >= 0x1_0000_0000_0000_0000,
    ;
    let (w0, w1, w2, wa, wq) = (u0 * b, u1 * b, u2 * b, ua * b, uq * b);
    assert(16777216 * (w0 + w1 - wa) <= wa + 8388608 * b && 16777216 * (wa - w0 - w1) <= wa
        + 8388608 * b) by (nonlinear_arith)
        requires
            16777216 * (u0 + u1 - ua) <= ua + 8388608,
            16777216 * (ua - (u0 + u1)) <= ua + 8388608,
            w0 == u0 * b,
            w1 == u1 * b,
            wa == ua * b,
            b > 0,
    ;
    assert(16777216 * (wa + w2 - wq) <= wq + 8388608 * b && 16777216 * (wq - wa - w2) <= wq
        + 8388608 * b) by (nonlinear_arith)
        requires
            16777216 * (ua + u2 - uq) <= uq + 8388608,
            16777216 * (uq - (ua + u2)) <= uq + 8388608,
            w2 == u2 * b,
            wa == ua * b,
            wq == uq * b,
            b > 0,
    ;
    let s = square(v);
    assert(wq >= 4 * bb / 100);
    assert(q > 0) by {
        if q == 0 {
            assert(significand(0) == 0);
            assert(0 * pow2(exponent(0)) == 0);
            assert(0 * b == 0);
        }
    }
    assert(4 * b * b == 4 * bb) by (nonlinear_arith)
        requires
            bb == b * b,
    ;
    root_error(q);
    assert(length(v) == root(q));
}

/// What is exactly a number rounds to it.
pub proof fn exact_stays(num: nat, den: nat, m: nat)
    requires
        den > 0,
        m < INFINITE,
        num * pow2(149) == units(m) * den,
    ensures
        rounded(num, den) == m,
{
    lemma_pow2_adds(149, 1);
    lemma2_to64();
    let twice = num * pow2(150);
    let ud = units(m) * den;
    assert(twice == 2 * ud) by (nonlinear_arith)
        requires
            twice == num * pow2(150),
            pow2(150) == pow2(149) * 2,
            num * pow2(149) == ud,
    ;
    middle_is_halfway(m);
    let up = middle(m);
    assert(up * den > 2 * ud) by (nonlinear_arith)
        requires
            up > 2 * units(m),
            ud == units(m) * den,
            den > 0,
    ;
    if m > 0 {
        middle_is_halfway((m - 1) as nat);
        let low = middle((m - 1) as nat);
        assert(low * den < 2 * ud) by (nonlinear_arith)
            requires
                low < 2 * units(m),
                ud == units(m) * den,
                den > 0,
        ;
    }
    assert(rounds_to(num, den, m));
    rounded_rounds(num, den);
    rounding_is_unique(num, den, m, rounded(num, den) as nat);
}

/// One times a number is the number.
pub proof fn one_times(x: u32)
    requires
        magnitude_of(x) < INFINITE,
    ensures
        magnitude_of(product(ONE, x)) < INFINITE,
        exact(product(ONE, x)) == exact(x),
{
    reveal(product);
    lemma_pow2_adds(149, 149);
    lemma_pow2_adds(23, 126);
    lemma_pow2_pos(298);
    lemma2_to64();
    assert(magnitude_of(ONE) == ONE);
    assert(significand(ONE as nat) == 8388608);
    assert(exponent(ONE as nat) == 126);
    let b = pow2(149);
    assert(units(ONE as nat) == b);
    let u = units(magnitude_of(x));
    assert(b * u * b == u * (b * b)) by (nonlinear_arith);
    exact_stays(b * u, pow2(298), magnitude_of(x));
}

/// Nothing times a number is nothing.
pub proof fn zero_times(x: u32)
    requires
        magnitude_of(x) < INFINITE,
    ensures
        magnitude_of(product(0, x)) == 0,
        exact(product(0, x)) == 0,
{
    reveal(product);
    lemma_pow2_pos(298);
    let u = units(magnitude_of(x));
    no_units();
    assert(magnitude_of(0) == 0);
    assert(0 * u == 0);
    assert(0 * pow2(149) == 0);
    assert(0 * pow2(298) == 0);
    exact_stays(0, pow2(298), 0);
}

pub proof fn no_units()
    ensures
        units(0) == 0,
{
    assert(significand(0) == 0);
    assert(0 * pow2(exponent(0)) == 0);
}

/// Adding nothing changes nothing.
pub proof fn adding_nothing(a: u32, c: u32)
    requires
        magnitude_of(a) < INFINITE,
        magnitude_of(c) < INFINITE,
        exact(a) == 0 || exact(c) == 0,
    ensures
        magnitude_of(sum(a, c)) < INFINITE,
        exact(sum(a, c)) == exact(a) + exact(c),
{
    reveal(sum);
    no_units();
    lemma_pow2_pos(149);
    let total = exact(a) + exact(c);
    let m = if exact(c) == 0 {
        magnitude_of(a)
    } else {
        magnitude_of(c)
    };
    let size = units(m);
    assert(size * pow2(149) == units(m) * pow2(149));
    exact_stays(size, pow2(149), m);
}

/// Turning a sign turns what a number stands for.
pub proof fn negated_is_exact(x: u32)
    requires
        magnitude_of(x) < INFINITE,
    ensures
        magnitude_of(negated(x)) == magnitude_of(x),
        exact(negated(x)) == -exact(x),
{
}

/// The first axis across a vector, exactly.
proof fn across_the_first(n: (u32, u32, u32))
    requires
        magnitude_of(n.0) < INFINITE,
        magnitude_of(n.1) < INFINITE,
        magnitude_of(n.2) < INFINITE,
    ensures
        ({
            let c = cross_product((ONE, 0, 0), n);
            &&& magnitude_of(c.0) < INFINITE && exact(c.0) == 0
            &&& magnitude_of(c.1) < INFINITE && exact(c.1) == -exact(n.2)
            &&& magnitude_of(c.2) < INFINITE && exact(c.2) == exact(n.1)
        }),
{
    zero_times(n.0);
    zero_times(n.1);
    zero_times(n.2);
    one_times(n.1);
    one_times(n.2);
    negated_is_exact(product(0, n.0));
    negated_is_exact(product(0, n.1));
    negated_is_exact(product(ONE, n.2));
    adding_nothing(product(0, n.2), negated(product(0, n.1)));
    adding_nothing(product(0, n.0), negated(product(ONE, n.2)));
    adding_nothing(product(ONE, n.1), negated(product(0, n.0)));
}

/// The second axis across a vector, exactly.
proof fn across_the_second(n: (u32, u32, u32))
    requires
        magnitude_of(n.0) < INFINITE,
        magnitude_of(n.1) < INFINITE,
        magnitude_of(n.2) < INFINITE,
    ensures
        ({
            let c = cross_product((0, ONE, 0), n);
            &&& magnitude_of(c.0) < INFINITE && exact(c.0) == exact(n.2)
            &&& magnitude_of(c.1) < INFINITE && exact(c.1) == 0
            &&& magnitude_of(c.2) < INFINITE && exact(c.2) == -exact(n.0)
        }),
{
    zero_times(n.0);
    zero_times(n.1);
    zero_times(n.2);
    one_times(n.0);
    one_times(n.2);
    negated_is_exact(product(0, n.1));
    negated_is_exact(product(0, n.2));
    negated_is_exact(product(ONE, n.0));
    adding_nothing(product(ONE, n.2), negated(product(0, n.1)));
    adding_nothing(product(0, n.0), negated(product(0, n.2)));
    adding_nothing(product(0, n.1), negated(product(ONE, n.0)));
}

/// One component of a vector over its length, squared.
#[verifier::spinoff_prover]
proof fn component_error(v: u32, len: u32)
    requires
        magnitude_of(v) < INFINITE,
        0 < len < INFINITE,
        units(magnitude_of(v)) <= 2 * one(),
        one() <= 5 * units(len as nat),
        units(len as nat) <= 4 * one(),
    ensures
        ({
            let q = quotient(v, len);
            let l = units(len as nat) as int;
            let x = units(magnitude_of(q)) * l;
            let y = units(magnitude_of(v)) * one();
            &&& magnitude_of(q) < INFINITE
            &&& has_sign(q) == has_sign(v)
            &&& 16777216000 * (x - y) <= 1001 * y + 16777216000 * l
            &&& 16777216000 * (y - x) <= 1001 * y + 16777216000 * l
            &&& 16777216 * (x * x - y * y) <= 3 * (y * y) + 68719476736 * (one() * one()
                * one())
            &&& 16777216 * (y * y - x * x) <= 3 * (y * y) + 68719476736 * (one() * one()
                * one())
        }),
{
    lemma_pow2_pos(149);
    let b = one();
    let l = units(len as nat) as int;
    quotient_error(v, len);
    let q = quotient(v, len);
    let x = units(magnitude_of(q)) * l;
    let y = units(magnitude_of(v)) * b;
    let e = if x >= y {
        x - y
    } else {
        y - x
    };
    assert(x >= 0 && y >= 0) by (nonlinear_arith)
        requires
            x == units(magnitude_of(q)) * l,
            y == units(magnitude_of(v)) * b,
            l >= 0,
            b >= 0,
    ;
    assert(16777216000 * e <= 1001 * y + 16777216000 * l);
    let bb = b * b;
    let bbb = bb * b;
    assert(y <= 2 * bb) by (nonlinear_arith)
        requires
            y == units(magnitude_of(v)) * b,
            units(magnitude_of(v)) <= 2 * b,
            bb == b * b,
            b > 0,
    ;
    assert(l <= 4 * bb) by (nonlinear_arith)
        requires
            l <= 4 * b,
            bb == b * b,
            b > 0,
    ;
    let sum = x + y;
    assert(1000 * sum <= 2001 * y + 2000 * l);
    let yy = y * y;
    let ly = l * y;
    let ll = l * l;
    assert(1000000 * 16777216 * (e * sum) <= 1001 * 2001 * yy + (1001 * 2000 + 16777216000 * 2001) * ly
        + 16777216000 * 2000 * ll) by (nonlinear_arith)
        requires
            16777216000 * e <= 1001 * y + 16777216000 * l,
            1000 * sum <= 2001 * y + 2000 * l,
            0 <= e,
            0 <= sum,
            0 <= y,
            0 <= l,
            yy == y * y,
            ly == l * y,
            ll == l * l,
    ;
    assert(ly <= 8 * bbb) by (nonlinear_arith)
        requires
            ly == l * y,
            l <= 4 * b,
            y <= 2 * bb,
            bbb == bb * b,
            0 <= y,
            0 <= l,
            b > 0,
    ;
    assert(ll <= 16 * bbb) by (nonlinear_arith)
        requires
            ll == l * l,
            0 <= l <= 4 * b,
            bb == b * b,
            bbb == bb * b,
            b >= 1,
    ;
    assert(yy >= 0) by (nonlinear_arith)
        requires
            yy == y * y,
    ;
    assert(x * x - y * y == (x - y) * sum) by (nonlinear_arith)
        requires
            sum == x + y,
    ;
    assert((x - y) * sum == e * sum || (x - y) * sum == -(e * sum)) by (nonlinear_arith)
        requires
            e == x - y || e == y - x,
    ;
    let es = e * sum;
    assert(bbb >= 0) by (nonlinear_arith)
        requires
            bb == b * b,
            bbb == bb * b,
            b > 0,
    ;
    assert(16777216 * es <= 3 * yy + 68719476736 * bbb) by (nonlinear_arith)
        requires
            1000000 * 16777216 * es <= 1001 * 2001 * yy + (1001 * 2000 + 16777216000 * 2001) * ly
                + 16777216000 * 2000 * ll,
            ly <= 8 * bbb,
            ll <= 16 * bbb,
            yy >= 0,
            bbb >= 0,
    ;
    assert(es >= 0) by (nonlinear_arith)
        requires
            es == e * sum,
            e >= 0,
            sum >= 0,
    ;
    assert(bbb == b * b * b);
    assert(16777216 * (x * x - yy) <= 3 * yy + 68719476736 * bbb);
    assert(16777216 * (yy - x * x) <= 3 * yy + 68719476736 * bbb);
}

/// One is large.
pub proof fn one_is_large()
    ensures
        one() >= 0x1_0000_0000_0000_0000,
{
    lemma2_to64();
    lemma_pow2_strictly_increases(64, 149);
}

/// `x` squared is the product of squares.
proof fn square_of_product(x: int, t: int, l: int)
    requires
        x == t * l,
    ensures
        x * x == (t * t) * (l * l),
{
    assert(x * x == (t * t) * (l * l)) by (nonlinear_arith)
        requires
            x == t * l,
    ;
}

/// The length of a vector lies between a fifth and four, where its square does.
pub proof fn length_bounds(v: (u32, u32, u32))
    requires
        is_moderate(v),
        square(v) >= 5 * (one() * one()) / 100,
    ensures
        one() <= 5 * units(length(v) as nat),
        units(length(v) as nat) <= 4 * one(),
        square(v) <= 12 * (one() * one()),
{
    one_is_large();
    length_error(v);
    let b = one();
    let bb = b * b;
    let l = units(length(v) as nat) as int;
    let ll = l * l;
    let z = sizes(v);
    assert(z.0 * z.0 <= 4 * bb && z.1 * z.1 <= 4 * bb && z.2 * z.2 <= 4 * bb) by (nonlinear_arith)
        requires
            0 <= z.0 <= 2 * b,
            0 <= z.1 <= 2 * b,
            0 <= z.2 <= 2 * b,
            bb == b * b,
    ;
    assert(bb >= 1000) by (nonlinear_arith)
        requires
            bb == b * b,
            b >= 0x1_0000_0000_0000_0000,
    ;
    assert(100 * ll >= 4 * bb);
    assert(b <= 5 * l) by (nonlinear_arith)
        requires
            25 * ll >= bb,
            ll == l * l,
            bb == b * b,
            l >= 0,
            b > 0,
    ;
    assert(ll <= 16 * bb);
    assert(l <= 4 * b) by (nonlinear_arith)
        requires
            ll <= 16 * bb,
            ll == l * l,
            bb == b * b,
            l >= 0,
            b > 0,
    ;
}

/// Errors add up.
proof fn add_up(x0: int, x1: int, x2: int, y0: int, y1: int, y2: int, k: int)
    requires
        16777216 * (x0 - y0) <= 3 * y0 + 68719476736 * k,
        16777216 * (y0 - x0) <= 3 * y0 + 68719476736 * k,
        16777216 * (x1 - y1) <= 3 * y1 + 68719476736 * k,
        16777216 * (y1 - x1) <= 3 * y1 + 68719476736 * k,
        16777216 * (x2 - y2) <= 3 * y2 + 68719476736 * k,
        16777216 * (y2 - x2) <= 3 * y2 + 68719476736 * k,
    ensures
        16777216 * ((x0 + x1 + x2) - (y0 + y1 + y2)) <= 3 * (y0 + y1 + y2) + 206158430208 * k,
        16777216 * ((y0 + y1 + y2) - (x0 + x1 + x2)) <= 3 * (y0 + y1 + y2) + 206158430208 * k,
{
}

/// A vector over its length has length one, but for a rounding error.
#[verifier::spinoff_prover]
pub proof fn unit_error(v: (u32, u32, u32))
    requires
        is_moderate(v),
        square(v) >= 5 * (one() * one()) / 100,
    ensures
        ({
            let t = unit(v);
            let len = length(v);
            &&& t == (quotient(v.0, len), quotient(v.1, len), quotient(v.2, len))
            &&& magnitude_of(t.0) < INFINITE && magnitude_of(t.1) < INFINITE && magnitude_of(t.2)
                < INFINITE
            &&& 16777216 * (square(t) - one() * one()) <= 12 * (one() * one())
            &&& 16777216 * (one() * one() - square(t)) <= 12 * (one() * one())
        }),
{
    one_is_large();
    length_error(v);
    length_bounds(v);
    let b = one();
    let bb = b * b;
    let bbb = bb * b;
    let len = length(v);
    let l = units(len as nat) as int;
    let ll = l * l;
    component_error(v.0, len);
    component_error(v.1, len);
    component_error(v.2, len);
    let t = (quotient(v.0, len), quotient(v.1, len), quotient(v.2, len));
    assert(magnitude_of(len) == len);
    assert(!are_equal(len, 0));
    assert(unit(v) == t);
    let a = sizes(v);
    let c = sizes(t);
    square_of_product(c.0 * l, c.0, l);
    square_of_product(c.1 * l, c.1, l);
    square_of_product(c.2 * l, c.2, l);
    square_of_product(a.0 * b, a.0, b);
    square_of_product(a.1 * b, a.1, b);
    square_of_product(a.2 * b, a.2, b);
    let st = square(t);
    let sv = square(v);
    let x = st * ll;
    let y = sv * bb;
    let z = bb * ll;
    assert(x == (c.0 * c.0) * ll + (c.1 * c.1) * ll + (c.2 * c.2) * ll) by (nonlinear_arith)
        requires
            x == st * ll,
            st == c.0 * c.0 + c.1 * c.1 + c.2 * c.2,
    ;
    assert(y == (a.0 * a.0) * bb + (a.1 * a.1) * bb + (a.2 * a.2) * bb) by (nonlinear_arith)
        requires
            y == sv * bb,
            sv == a.0 * a.0 + a.1 * a.1 + a.2 * a.2,
    ;
    let j = 206158430208 * bbb;
    let (x0, x1, x2) = ((c.0 * c.0) * ll, (c.1 * c.1) * ll, (c.2 * c.2) * ll);
    let (y0, y1, y2) = ((a.0 * a.0) * bb, (a.1 * a.1) * bb, (a.2 * a.2) * bb);
    assert(16777216 * (x0 - y0) <= 3 * y0 + 68719476736 * bbb);
    assert(16777216 * (y0 - x0) <= 3 * y0 + 68719476736 * bbb);
    assert(16777216 * (x1 - y1) <= 3 * y1 + 68719476736 * bbb);
    assert(16777216 * (y1 - x1) <= 3 * y1 + 68719476736 * bbb);
    assert(16777216 * (x2 - y2) <= 3 * y2 + 68719476736 * bbb);
    assert(16777216 * (y2 - x2) <= 3 * y2 + 68719476736 * bbb);
    add_up(x0, x1, x2, y0, y1, y2, bbb);
    assert(16777216 * (x - y) <= 3 * y + j);
    assert(16777216 * (y - x) <= 3 * y + j);
    assert(16777216 * (y - z) <= 8 * z && 16777216 * (z - y) <= 8 * z) by (nonlinear_arith)
        requires
            16777216 * (sv - ll) <= 8 * ll,
            16777216 * (ll - sv) <= 8 * ll,
            y == sv * bb,
            z == bb * ll,
            bb >= 0,
    ;
    assert(25 * ll >= bb) by (nonlinear_arith)
        requires
            b <= 5 * l,
            ll == l * l,
            bb == b * b,
            b > 0,
    ;
    assert(25 * z >= bb * bb) by (nonlinear_arith)
        requires
            z == bb * ll,
            25 * ll >= bb,
            bb >= 0,
    ;
    assert(1000 * j <= z) by (nonlinear_arith)
        requires
            j == 206158430208 * bbb,
            bbb == bb * b,
            bb == b * b,
            25 * z >= bb * bb,
            b >= 0x1_0000_0000_0000_0000,
    ;
    assert(16777216 * (x - z) <= 12 * z && 16777216 * (z - x) <= 12 * z);
    assert(ll > 0) by (nonlinear_arith)
        requires
            ll == l * l,
            l > 0,
    ;
    assert(16777216 * (st - bb) <= 12 * bb && 16777216 * (bb - st) <= 12 * bb) by (nonlinear_arith)
        requires
            16777216 * (x - z) <= 12 * z,
            16777216 * (z - x) <= 12 * z,
            x == st * ll,
            z == bb * ll,
            ll > 0,
    ;
}

/// How far a number is from zero.
pub open spec fn size(x: int) -> int {
    if x < 0 {
        -x
    } else {
        x
    }
}

/// Two directions that are across but for rounding errors are nearly so.
#[verifier::spinoff_prover]
proof fn nearly_across(
    m1: int,
    m2: int,
    n1: int,
    n2: int,
    t1: int,
    t2: int,
    l: int,
    len: int,
    b: int,
)
    requires
        b >= 0x1_0000_0000_0000_0000,
        100 * size(m1) <= 101 * b,
        100 * size(m2) <= 101 * b,
        100 * size(n1) <= 101 * b,
        100 * size(n2) <= 101 * b,
        90 * b <= 100 * len <= 101 * b,
        40 * b <= 100 * l <= 200 * b,
        16777216000 * size(n1 * len - m1 * b) <= 1001 * (size(m1) * b) + 16777216000 * len,
        16777216000 * size(n2 * len - m2 * b) <= 1001 * (size(m2) * b) + 16777216000 * len,
        16777216000 * size(t1 * l + n2 * b) <= 1001 * (size(n2) * b) + 16777216000 * l,
        16777216000 * size(t2 * l - n1 * b) <= 1001 * (size(n1) * b) + 16777216000 * l,
    ensures
        1000000 * size(t1 * m1 + t2 * m2) <= b * b,
{
    let bb = b * b;
    assert(bb > 0) by (nonlinear_arith)
        requires
            bb == b * b,
            b > 0,
    ;
    let g1 = n1 * len - m1 * b;
    let g2 = n2 * len - m2 * b;
    let d1 = t1 * l + n2 * b;
    let d2 = t2 * l - n1 * b;
    assert(50331648000 * b <= bb) by (nonlinear_arith)
        requires
            bb == b * b,
            b >= 0x1_0000_0000_0000_0000,
    ;
    assert(100 * (size(m1) * b) <= 101 * bb && 100 * (size(m2) * b) <= 101 * bb && 100 * (size(n1)
        * b) <= 101 * bb && 100 * (size(n2) * b) <= 101 * bb) by (nonlinear_arith)
        requires
            100 * size(m1) <= 101 * b,
            100 * size(m2) <= 101 * b,
            100 * size(n1) <= 101 * b,
            100 * size(n2) <= 101 * b,
            bb == b * b,
            b > 0,
    ;
    small_error(g1, size(m1) * b, len, bb, b);
    small_error(g2, size(m2) * b, len, bb, b);
    small_error(d1, size(n2) * b, l, bb, b);
    small_error(d2, size(n1) * b, l, bb, b);
    let o = t1 * m1 + t2 * m2;
    small_product(g1, m2, bb, b);
    small_product(g2, m1, bb, b);
    small_product(d1, m1, bb, b);
    small_product(d2, m2, bb, b);
    let e = g1 * m2 - g2 * m1;
    let f = d1 * m1 + d2 * m2;
    let bbb = bb * b;
    assert(1677721600000 * size(e) <= 204626 * bbb);
    assert(1677721600000 * size(f) <= 204626 * bbb);
    let mm = m1 * m2;
    assert((l * len) * o == (l * len) * (t1 * m1) + (l * len) * (t2 * m2)) by (nonlinear_arith)
        requires
            o == t1 * m1 + t2 * m2,
    ;
    assert((l * len) * (t1 * m1) == (t1 * l) * (len * m1)) by (nonlinear_arith);
    assert((l * len) * (t2 * m2) == (t2 * l) * (len * m2)) by (nonlinear_arith);
    assert((t1 * l) * (len * m1) == len * (d1 * m1) - b * ((n2 * len) * m1)) by (nonlinear_arith)
        requires
            t1 * l == d1 - n2 * b,
    ;
    assert((t2 * l) * (len * m2) == len * (d2 * m2) + b * ((n1 * len) * m2)) by (nonlinear_arith)
        requires
            t2 * l == d2 + n1 * b,
    ;
    assert((n2 * len) * m1 == g2 * m1 + mm * b) by (nonlinear_arith)
        requires
            n2 * len == g2 + m2 * b,
            mm == m1 * m2,
    ;
    assert((n1 * len) * m2 == g1 * m2 + mm * b) by (nonlinear_arith)
        requires
            n1 * len == g1 + m1 * b,
            mm == m1 * m2,
    ;
    assert(len * f == len * (d1 * m1) + len * (d2 * m2)) by (nonlinear_arith)
        requires
            f == d1 * m1 + d2 * m2,
    ;
    assert(b * e == b * ((n1 * len) * m2) - b * ((n2 * len) * m1)) by (nonlinear_arith)
        requires
            e == (n1 * len) * m2 - (n2 * len) * m1,
    ;
    assert((l * len) * o == b * e + len * f);
    assert(size(b * e) == b * size(e)) by (nonlinear_arith)
        requires
            b > 0,
            size(e) == e && e >= 0 || size(e) == -e && e < 0,
            size(b * e) == b * e && b * e >= 0 || size(b * e) == -(b * e) && b * e < 0,
    ;
    assert(size(len * f) == len * size(f)) by (nonlinear_arith)
        requires
            len > 0,
            size(f) == f && f >= 0 || size(f) == -f && f < 0,
            size(len * f) == len * f && len * f >= 0 || size(len * f) == -(len * f) && len * f < 0,
    ;
    assert(bbb >= 0) by (nonlinear_arith)
        requires
            bb == b * b,
            bbb == bb * b,
            b > 0,
    ;
    let b4 = bbb * b;
    assert(1677721600000 * size(b * e) <= 204626 * b4) by (nonlinear_arith)
        requires
            1677721600000 * size(e) <= 204626 * bbb,
            b4 == bbb * b,
            size(b * e) == b * size(e),
            b > 0,
    ;
    assert(167772160000000 * size(len * f) <= 20667226 * b4) by (nonlinear_arith)
        requires
            1677721600000 * size(f) <= 204626 * bbb,
            100 * len <= 101 * b,
            b4 == bbb * b,
            size(len * f) == len * size(f),
            len > 0,
            b > 0,
            bbb >= 0,
    ;
    let w = l * len;
    assert(10000 * w >= 3600 * bb) by (nonlinear_arith)
        requires
            w == l * len,
            100 * l >= 40 * b,
            100 * len >= 90 * b,
            bb == b * b,
            b > 0,
    ;
    assert(size(w * o) == w * size(o)) by (nonlinear_arith)
        requires
            w > 0,
            size(o) == o && o >= 0 || size(o) == -o && o < 0,
            size(w * o) == w * o && w * o >= 0 || size(w * o) == -(w * o) && w * o < 0,
    ;
    assert(b4 == bb * bb) by (nonlinear_arith)
        requires
            b4 == bbb * b,
            bbb == bb * b,
            bb == b * b,
    ;
    assert(10000 * (w * bb) >= 3600 * b4) by (nonlinear_arith)
        requires
            10000 * w >= 3600 * bb,
            b4 == bb * bb,
            bb > 0,
    ;
    assert(1000000 * (w * size(o)) <= w * bb);
    assert(1000000 * size(o) <= bb) by (nonlinear_arith)
        requires
            1000000 * (w * size(o)) <= w * bb,
            w > 0,
    ;
}

/// The error of a quotient is small.
proof fn small_error(g: int, mb: int, l: int, bb: int, b: int)
    requires
        100 * mb <= 101 * bb,
        100 * l <= 200 * b,
        50331648000 * b <= bb,
        0 < bb,
        16777216000 * size(g) <= 1001 * mb + 16777216000 * l,
    ensures
        16777216000 * size(g) <= 1013 * bb,
{
}

/// The product of a small and a moderate number.
proof fn small_product(g: int, m: int, bb: int, b: int)
    requires
        16777216000 * size(g) <= 1013 * bb,
        100 * size(m) <= 101 * b,
        b > 0,
        bb > 0,
    ensures
        1677721600000 * size(g * m) <= 102313 * (bb * b),
{
    let x = size(g);
    let y = size(m);
    assert(size(g * m) == x * y) by (nonlinear_arith)
        requires
            x == g && g >= 0 || x == -g && g < 0,
            y == m && m >= 0 || y == -m && m < 0,
            size(g * m) == g * m && g * m >= 0 || size(g * m) == -(g * m) && g * m < 0,
    ;
    assert(1677721600000 * (x * y) <= 102313 * (bb * b)) by (nonlinear_arith)
        requires
            16777216000 * x <= 1013 * bb,
            100 * y <= 101 * b,
            x >= 0,
            y >= 0,
            b > 0,
            bb > 0,
    ;
}

/// A larger magnitude stands for more.
pub proof fn units_grow(a: nat, b: nat)
    requires
        a < b,
    ensures
        units(a) < units(b),
    decreases b - a,
{
    middle_is_halfway(a);
    if a + 1 < b {
        units_grow(a + 1, b);
    }
}

/// What `0.9` stands for.
pub proof fn nearly_one()
    ensures
        89 * one() <= 100 * units(NEARLY_ONE as nat) <= 91 * one(),
{
    lemma2_to64();
    lemma_pow2_adds(125, 24);
    lemma_pow2_pos(125);
    assert(significand(NEARLY_ONE as nat) == 15099494);
    assert(exponent(NEARLY_ONE as nat) == 125);
    assert(units(NEARLY_ONE as nat) == 15099494 * pow2(125));
}

/// A component over a length, with its sign.
pub proof fn signed_component(v: u32, len: u32)
    requires
        magnitude_of(v) < INFINITE,
        0 < len < INFINITE,
        units(magnitude_of(v)) <= 2 * one(),
        one() <= 5 * units(len as nat),
        units(len as nat) <= 4 * one(),
    ensures
        ({
            let l = units(len as nat) as int;
            let t = exact(quotient(v, len));
            16777216000 * size(t * l - exact(v) * one()) <= 1001 * (size(exact(v)) * one())
                + 16777216000 * l
        }),
        exact(v) == 0 ==> exact(quotient(v, len)) == 0,
{
    component_error(v, len);
    let b = one();
    lemma_pow2_pos(149);
    let l = units(len as nat) as int;
    let q = quotient(v, len);
    let u = units(magnitude_of(q)) as int;
    let w = units(magnitude_of(v)) as int;
    assert((-u) * l == -(u * l)) by (nonlinear_arith);
    assert((-w) * b == -(w * b)) by (nonlinear_arith);
    if exact(v) == 0 {
        reveal(quotient);
        no_units();
        if magnitude_of(v) > 0 {
            units_grow(0, magnitude_of(v));
        }
        if len > 0 {
            units_grow(0, len as nat);
        }
        assert(magnitude_of(len) == len);
        assert(0 * pow2(149) == 0);
        assert(0 * units(len as nat) == 0);
        exact_stays(0, units(len as nat), 0);
    }
}

/// A square and a bound for its root.
proof fn below_hundredths(x: int, b: int, k: int)
    requires
        x >= 0,
        b > 0,
        k >= 0,
        10000 * (x * x) <= k * k * (b * b),
    ensures
        100 * x <= k * b,
{
    let y = 100 * x;
    let z = k * b;
    assert(y * y == 10000 * (x * x)) by (nonlinear_arith)
        requires
            y == 100 * x,
    ;
    assert(z * z == k * k * (b * b)) by (nonlinear_arith)
        requires
            z == k * b,
    ;
    assert(y <= z) by (nonlinear_arith)
        requires
            y * y <= z * z,
            z >= 0,
            y >= 0,
    ;
}

/// A square and a lower bound for its root.
proof fn above_hundredths(x: int, b: int, k: int)
    requires
        x >= 0,
        b > 0,
        k >= 0,
        10000 * (x * x) >= k * k * (b * b),
    ensures
        100 * x >= k * b,
{
    let y = 100 * x;
    let z = k * b;
    assert(y * y == 10000 * (x * x)) by (nonlinear_arith)
        requires
            y == 100 * x,
    ;
    assert(z * z == k * k * (b * b)) by (nonlinear_arith)
        requires
            z == k * b,
    ;
    assert(y >= z) by (nonlinear_arith)
        requires
            y * y >= z * z,
            z >= 0,
            y >= 0,
    ;
}

/// A finite vector whose squared length is one, within a thousandth.
pub open spec fn has_length_one(v: (u32, u32, u32)) -> bool {
    &&& is_moderate(v)
    &&& 1000 * (square(v) - one() * one()) <= one() * one()
    &&& 1000 * (one() * one() - square(v)) <= one() * one()
}

/// The exact dot product, in units squared.
pub open spec fn exact_dot(a: (u32, u32, u32), b: (u32, u32, u32)) -> int {
    exact(a.0) * exact(b.0) + exact(a.1) * exact(b.1) + exact(a.2) * exact(b.2)
}

/// What is known of a vector over its length, where the length is near one or not small.
proof fn unit_facts(v: (u32, u32, u32), low: int)
    requires
        is_moderate(v),
        low == 40 || low == 90,
        low == 40 ==> 100 * square(v) >= 17 * (one() * one()),
        low == 90 ==> 100 * square(v) >= 99 * (one() * one()),
        1000 * square(v) <= 1010 * (one() * one()),
    ensures
        ({
            let l = units(length(v) as nat) as int;
            &&& 0 < length(v) < INFINITE
            &&& low * one() <= 100 * l <= 101 * one()
            &&& 100 * sizes(v).0 <= 101 * one()
            &&& 100 * sizes(v).1 <= 101 * one()
            &&& 100 * sizes(v).2 <= 101 * one()
            &&& one() <= 5 * l
            &&& l <= 4 * one()
        }),
{
    one_is_large();
    let b = one();
    let bb = b * b;
    assert(bb > 0) by (nonlinear_arith)
        requires
            bb == b * b,
            b > 0,
    ;
    length_error(v);
    length_bounds(v);
    let l = units(length(v) as nat) as int;
    let z = sizes(v);
    assert(z.0 * z.0 >= 0 && z.1 * z.1 >= 0 && z.2 * z.2 >= 0) by (nonlinear_arith);
    below_hundredths(z.0, b, 101);
    below_hundredths(z.1, b, 101);
    below_hundredths(z.2, b, 101);
    below_hundredths(l, b, 101);
    above_hundredths(l, b, low);
}

/// The tangent that takes the place of one without a direction has length one and stands across a
/// normal of length one, within a millionth.
#[verifier::spinoff_prover]
pub proof fn fallback_is_a_unit_across(m: (u32, u32, u32))
    requires
        has_length_one(m),
    ensures
        ({
            let t = fallback(m).0;
            let bb = one() * one();
            &&& magnitude_of(t.0) < INFINITE && magnitude_of(t.1) < INFINITE && magnitude_of(t.2)
                < INFINITE
            &&& 1000000 * (square(t) - bb) <= bb
            &&& 1000000 * (bb - square(t)) <= bb
            &&& 1000000 * exact_dot(t, m) <= bb
            &&& -1000000 * exact_dot(t, m) <= bb
        }),
{
    one_is_large();
    let b = one();
    let bb = b * b;
    assert(bb > 0) by (nonlinear_arith)
        requires
            bb == b * b,
            b > 0,
    ;
    unit_facts(m, 90);
    unit_error(m);
    let n = unit(m);
    let len = length(m);
    assert(magnitude_of(len) == len);
    let z = sizes(n);
    assert(z.0 * z.0 >= 0 && z.1 * z.1 >= 0 && z.2 * z.2 >= 0) by (nonlinear_arith);
    below_hundredths(z.0, b, 101);
    below_hundredths(z.1, b, 101);
    below_hundredths(z.2, b, 101);
    signed_component(m.0, len);
    signed_component(m.1, len);
    signed_component(m.2, len);
    nearly_one();
    let edge = units(NEARLY_ONE as nat) as int;
    let a = magnitude_of(n.0);
    assert(0 * 0 == 0int);
    if below(absolute(n.0), NEARLY_ONE) {
        units_grow(a, NEARLY_ONE as nat);
        assert(10000 * (z.0 * z.0) <= 8281 * bb) by (nonlinear_arith)
            requires
                0 <= 100 * z.0 <= 91 * b,
                bb == b * b,
        ;
        across_the_first(n);
        let c = cross_product((ONE, 0, 0), n);
        assert(sizes(c) == (0int, z.2, z.1));
        assert(square(c) == z.2 * z.2 + z.1 * z.1);
        unit_facts(c, 40);
        unit_error(c);
        let d = length(c);
        let t = unit(c);
        signed_component(c.0, d);
        signed_component(c.1, d);
        signed_component(c.2, d);
        let (m1, m2, n1, n2) = (exact(m.1), exact(m.2), exact(n.1), exact(n.2));
        assert((-n2) * b == -(n2 * b)) by (nonlinear_arith);
        nearly_across(
            m1,
            m2,
            n1,
            n2,
            exact(t.1),
            exact(t.2),
            units(d as nat) as int,
            units(len as nat) as int,
            b,
        );
        assert(exact(t.0) * exact(m.0) == 0) by (nonlinear_arith)
            requires
                exact(t.0) == 0,
        ;
    } else {
        if a < NEARLY_ONE {
            assert(false);
        }
        if a > NEARLY_ONE {
            units_grow(NEARLY_ONE as nat, a);
        }
        assert(10000 * (z.0 * z.0) >= 7921 * bb) by (nonlinear_arith)
            requires
                100 * z.0 >= 89 * b,
                b > 0,
                bb == b * b,
        ;
        across_the_second(n);
        let c = cross_product((0, ONE, 0), n);
        assert(sizes(c) == (z.2, 0int, z.0));
        assert(square(c) == z.2 * z.2 + z.0 * z.0);
        unit_facts(c, 40);
        unit_error(c);
        let d = length(c);
        let t = unit(c);
        signed_component(c.0, d);
        signed_component(c.1, d);
        signed_component(c.2, d);
        let (m1, m2, n1, n2) = (exact(m.2), exact(m.0), exact(n.2), exact(n.0));
        assert((-n2) * b == -(n2 * b)) by (nonlinear_arith);
        nearly_across(
            m1,
            m2,
            n1,
            n2,
            exact(t.2),
            exact(t.0),
            units(d as nat) as int,
            units(len as nat) as int,
            b,
        );
        assert(exact(t.1) * exact(m.1) == 0) by (nonlinear_arith)
            requires
                exact(t.1) == 0,
        ;
    }
}

} // verus!
