//! How far rounded sums, products and quotients are from exact ones.
use vstd::arithmetic::power2::{lemma2_to64, lemma_pow2_adds, lemma_pow2_pos, pow2};
use vstd::prelude::*;

use crate::across::{no_units, one, one_times, rounded_rounds, rounding_error, size, units_grow};
use crate::arith::{difference, exact, product, quotient, radians, sum, RADIAN};
use crate::single::{
    exponent, has_sign, magnitude_of, negated, one_less, rounded, significand, units, INFINITE, ONE,
};

verus! {

/// A number that is neither infinite nor NaN.
pub open spec fn finite_bits(a: u32) -> bool {
    magnitude_of(a) < INFINITE
}

/// A finite product is the exact product of finite numbers, but for half a step: one part in
/// `2^24`, and half of the smallest number.
pub proof fn products_are_near(a: u32, b: u32)
    requires
        finite_bits(product(a, b)),
    ensures
        finite_bits(a),
        finite_bits(b),
        ({
            let p = exact(product(a, b));
            16777216 * size(p * one() - exact(a) * exact(b)) <= size(p) * one() + 8388608 * one()
        }),
{
    reveal(product);
    lemma_pow2_adds(149, 149);
    lemma_pow2_pos(149);
    lemma_pow2_pos(298);
    let x = units(magnitude_of(a));
    let y = units(magnitude_of(b));
    let one = pow2(149);
    let den = pow2(298);
    let num = x * y;
    rounded_rounds(num, den);
    let r = rounded(num, den);
    rounding_error(num, den, r as nat);
    let u = units(r as nat);
    assert(16777216 * (num - u * one) <= u * one + 8388608 * one && 16777216 * (u * one - num) <= u
        * one + 8388608 * one) by (nonlinear_arith)
        requires
            16777216 * (num * one - u * den) <= u * den + 8388608 * den,
            16777216 * (u * den - num * one) <= u * den + 8388608 * den,
            den == one * one,
            one > 0,
    ;
    let (s, t, p) = (exact(a), exact(b), exact(product(a, b)));
    assert(s * t == num || s * t == -num) by (nonlinear_arith)
        requires
            s == x || s == -x,
            t == y || t == -y,
            num == x * y,
    ;
    assert((has_sign(a) != has_sign(b)) ==> s * t == -num && p == -u) by (nonlinear_arith)
        requires
            s == (if has_sign(a) {
                -x
            } else {
                x as int
            }),
            t == (if has_sign(b) {
                -y
            } else {
                y as int
            }),
            num == x * y,
            (has_sign(a) != has_sign(b)) ==> p == -u,
    ;
    assert((has_sign(a) == has_sign(b)) ==> s * t == num && p == u) by (nonlinear_arith)
        requires
            s == (if has_sign(a) {
                -x
            } else {
                x as int
            }),
            t == (if has_sign(b) {
                -y
            } else {
                y as int
            }),
            num == x * y,
            (has_sign(a) == has_sign(b)) ==> p == u,
    ;
    assert((-u) * one == -(u * one)) by (nonlinear_arith);
}

/// A finite sum is the exact sum of finite numbers, but for half a step.
pub proof fn sums_are_near(a: u32, b: u32)
    requires
        finite_bits(sum(a, b)),
    ensures
        finite_bits(a),
        finite_bits(b),
        ({
            let s = exact(sum(a, b));
            16777216 * size(s - (exact(a) + exact(b))) <= size(s) + 8388608
        }),
{
    reveal(sum);
    no_units();
    lemma_pow2_pos(149);
    let total = exact(a) + exact(b);
    if total != 0 {
        let num = size(total) as nat;
        let den = pow2(149);
        rounded_rounds(num, den);
        let r = rounded(num, den);
        rounding_error(num, den, r as nat);
        let u = units(r as nat);
        assert(16777216 * (num - u) <= u + 8388608 && 16777216 * (u - num) <= u + 8388608)
            by (nonlinear_arith)
            requires
                16777216 * (num * den - u * den) <= u * den + 8388608 * den,
                16777216 * (u * den - num * den) <= u * den + 8388608 * den,
                den > 0,
        ;
    }
}

/// A finite difference is the exact difference of finite numbers, but for half a step.
pub proof fn differences_are_near(a: u32, b: u32)
    requires
        finite_bits(difference(a, b)),
    ensures
        finite_bits(a),
        finite_bits(b),
        ({
            let s = exact(difference(a, b));
            16777216 * size(s - (exact(a) - exact(b))) <= size(s) + 8388608
        }),
{
    sums_are_near(a, negated(b));
    assert(exact(negated(b)) == -exact(b));
}

/// A finite quotient times what was divided by is what was divided, but for half a step.
pub proof fn quotients_are_near(a: u32, b: u32)
    requires
        finite_bits(quotient(a, b)),
        finite_bits(b),
    ensures
        finite_bits(a),
        exact(b) != 0,
        ({
            let q = exact(quotient(a, b));
            16777216 * size(q * exact(b) - exact(a) * one()) <= size(q * exact(b)) + 8388608
                * size(exact(b))
        }),
{
    reveal(quotient);
    no_units();
    let num = units(magnitude_of(a));
    let den = units(magnitude_of(b));
    if magnitude_of(b) > 0 {
        units_grow(0, magnitude_of(b));
    }
    rounded_rounds(num, den);
    let r = rounded(num, den);
    rounding_error(num, den, r as nat);
    let u = units(r as nat);
    let (s, t, q) = (exact(a), exact(b), exact(quotient(a, b)));
    let ud = u * den;
    let no = num * one();
    assert(u * (-den) == -ud && (-u) * den == -ud && (-u) * (-den) == ud) by (nonlinear_arith)
        requires
            ud == u * den,
    ;
    assert((-num) * one() == -no) by (nonlinear_arith)
        requires
            no == num * one(),
    ;
    assert(ud >= 0) by (nonlinear_arith)
        requires
            ud == u * den,
    ;
}

/// One less a finite number is the exact difference, but for half a step.
pub proof fn one_less_is_near(a: u32)
    requires
        finite_bits(a),
        finite_bits(one_less(a)),
    ensures
        ({
            let s = exact(one_less(a));
            16777216 * size(s - (one() - exact(a))) <= size(s) + 8388608
        }),
{
    lemma_pow2_pos(149);
    let den = pow2(149);
    let num = size(one() - exact(a)) as nat;
    rounded_rounds(num, den);
    let r = rounded(num, den);
    if r < INFINITE {
        rounding_error(num, den, r as nat);
    }
    let u = units(r as nat);
    if r < INFINITE {
        assert(16777216 * (num - u) <= u + 8388608 && 16777216 * (u - num) <= u + 8388608)
            by (nonlinear_arith)
            requires
                16777216 * (num * den - u * den) <= u * den + 8388608 * den,
                16777216 * (u * den - num * den) <= u * den + 8388608 * den,
                den > 0,
        ;
    }
}

/// A sum in units of a product.
pub proof fn scaled_sums_are_near(a: u32, b: u32)
    requires
        finite_bits(sum(a, b)),
    ensures
        finite_bits(a),
        finite_bits(b),
        ({
            let s = exact(sum(a, b)) * one();
            16777216 * size(s - (exact(a) * one() + exact(b) * one())) <= size(s) + 8388608
                * one()
        }),
{
    sums_are_near(a, b);
    lemma_pow2_pos(149);
    let (x, y, z, o) = (exact(a), exact(b), exact(sum(a, b)), one());
    let e = z - (x + y);
    assert(e * o == z * o - (x * o + y * o)) by (nonlinear_arith)
        requires
            e == z - (x + y),
    ;
    size_times(e, o);
    size_times(z, o);
    let (k, l) = (size(e), size(z));
    assert(16777216 * (k * o) <= l * o + 8388608 * o) by (nonlinear_arith)
        requires
            16777216 * k <= l + 8388608,
            o > 0,
    ;
}

/// The size of a product with a number above zero.
pub proof fn size_times(x: int, o: int)
    requires
        o > 0,
    ensures
        size(x * o) == size(x) * o,
{
    assert(x >= 0 ==> x * o >= 0) by (nonlinear_arith)
        requires
            o > 0,
    ;
    assert(x < 0 ==> x * o < 0) by (nonlinear_arith)
        requires
            o > 0,
    ;
    assert((-x) * o == -(x * o)) by (nonlinear_arith);
}

/// A finite sum of three products is the exact one, but for a few steps.
pub proof fn dots_are_near(a: (u32, u32, u32), b: (u32, u32, u32))
    requires
        finite_bits(sum(sum(product(a.0, b.0), product(a.1, b.1)), product(a.2, b.2))),
    ensures
        ({
            let d = exact(sum(sum(product(a.0, b.0), product(a.1, b.1)), product(a.2, b.2)));
            let (x, y, z) = (
                exact(a.0) * exact(b.0),
                exact(a.1) * exact(b.1),
                exact(a.2) * exact(b.2),
            );
            1048576 * size(d * one() - (x + y + z)) <= size(x) + size(y) + size(z) + 8388608
                * one()
        }),
{
    lemma_pow2_pos(149);
    let (p, q, r) = (product(a.0, b.0), product(a.1, b.1), product(a.2, b.2));
    scaled_sums_are_near(sum(p, q), r);
    scaled_sums_are_near(p, q);
    products_are_near(a.0, b.0);
    products_are_near(a.1, b.1);
    products_are_near(a.2, b.2);
    size_times(exact(p), one());
    size_times(exact(q), one());
    size_times(exact(r), one());
    errors_add_up(
        exact(a.0) * exact(b.0),
        exact(a.1) * exact(b.1),
        exact(a.2) * exact(b.2),
        exact(p) * one(),
        exact(q) * one(),
        exact(r) * one(),
        exact(sum(p, q)) * one(),
        exact(sum(sum(p, q), r)) * one(),
        one(),
    );
}

/// An error against a rounded number is one against the exact number.
pub proof fn turned_error(p: int, x: int, h: int)
    requires
        16777216 * size(p - x) <= size(p) + h,
    ensures
        16777215 * size(p - x) <= size(x) + h,
{
}

pub proof fn size_of_sum(a: int, b: int)
    ensures
        size(a + b) <= size(a) + size(b),
{
}

/// The errors of three products and two sums.
proof fn errors_add_up(
    x: int,
    y: int,
    z: int,
    p: int,
    q: int,
    r: int,
    s: int,
    t: int,
    o: int,
)
    requires
        o > 0,
        16777216 * size(p - x) <= size(p) + 8388608 * o,
        16777216 * size(q - y) <= size(q) + 8388608 * o,
        16777216 * size(r - z) <= size(r) + 8388608 * o,
        16777216 * size(s - (p + q)) <= size(s) + 8388608 * o,
        16777216 * size(t - (s + r)) <= size(t) + 8388608 * o,
    ensures
        1048576 * size(t - (x + y + z)) <= size(x) + size(y) + size(z) + 8388608 * o,
{
    let h = 8388608 * o;
    turned_error(p, x, h);
    turned_error(q, y, h);
    turned_error(r, z, h);
    turned_error(s, p + q, h);
    turned_error(t, s + r, h);
    let (e1, e2, e3, e4, e5) = (p - x, q - y, r - z, s - (p + q), t - (s + r));
    size_of_sum(x, y);
    size_of_sum(x + y, z);
    size_of_sum(e1, e2);
    size_of_sum(x + y, e1 + e2);
    assert(p + q == (x + y) + (e1 + e2));
    let f = e1 + e2 + e3 + e4;
    size_of_sum(e1 + e2, e3);
    size_of_sum(e1 + e2 + e3, e4);
    size_of_sum(x + y + z, f);
    assert(s + r == (x + y + z) + f);
    size_of_sum(f, e5);
    assert(t - (x + y + z) == f + e5);
    bounded_errors(
        size(x),
        size(y),
        size(z),
        size(e1),
        size(e2),
        size(e3),
        size(e4),
        size(e5),
        size(p + q),
        size(s + r),
        h,
        size(t - (x + y + z)),
    );
}

proof fn bounded_errors(
    x: int,
    y: int,
    z: int,
    e1: int,
    e2: int,
    e3: int,
    e4: int,
    e5: int,
    pq: int,
    sr: int,
    h: int,
    e: int,
)
    requires
        0 <= x && 0 <= y && 0 <= z && 0 <= h,
        0 <= e1 && 0 <= e2 && 0 <= e3 && 0 <= e4 && 0 <= e5,
        16777215 * e1 <= x + h,
        16777215 * e2 <= y + h,
        16777215 * e3 <= z + h,
        16777215 * e4 <= pq + h,
        16777215 * e5 <= sr + h,
        pq <= x + y + e1 + e2,
        sr <= x + y + z + e1 + e2 + e3 + e4,
        e <= e1 + e2 + e3 + e4 + e5,
    ensures
        1048576 * e <= x + y + z + h,
{
}

proof fn half_turn(p: int, o: int, r: int)
    requires
        p > 0,
        o == 536870912 * p,
        r == 9370165 * p,
    ensures
        314159 * o < 18000000 * r < 314160 * o,
{
}

/// An angle in radians is the angle in degrees times half a turn over 180, but for half a step.
pub proof fn half_a_turn_is_pi(a: u32)
    requires
        finite_bits(a),
        finite_bits(radians(a)),
    ensures
        exact(radians(ONE)) == exact(RADIAN),
        314159 * one() < 18000000 * exact(RADIAN) < 314160 * one(),
        ({
            let r = exact(radians(a));
            16777216 * size(r * one() - exact(a) * exact(RADIAN)) <= size(r) * one() + 8388608
                * one()
        }),
{
    products_are_near(a, RADIAN);
    lemma2_to64();
    lemma_pow2_adds(120, 29);
    lemma_pow2_pos(120);
    let p = pow2(120);
    assert(significand(0x3C8E_FA35) == 9370165);
    assert(exponent(0x3C8E_FA35) == 120);
    assert(exact(RADIAN) == 9370165 * p);
    assert(one() == 536870912 * p) by (nonlinear_arith)
        requires
            one() == p * 536870912,
    ;
    half_turn(p as int, one(), exact(RADIAN));
    one_times(RADIAN);
}

} // verus!
