//! Where the planes round a hull meet, and how far points are outside them.
use vstd::arithmetic::power2::{lemma2_to64, lemma_pow2_adds, lemma_pow2_pos, pow2};
use vstd::prelude::*;

use super::compact::{common_point, height, solved, PlaneView, NO_POINT};
use crate::across::{
    adding_nothing, exact_stays, negated_is_exact, no_units, one, one_times, size, units_grow,
};
use crate::arith::{
    absolute, difference, exact, multiplying_commutes, product, quotient, sum,
};
use crate::near::{finite_bits, sums_are_near};
use crate::single::{exponent, magnitude_of, negated, rank, significand, units, ONE};
use crate::tangent::{cross_product, dot_product};

verus! {

/// Bits are determined by what a number above zero stands for.
proof fn same_bits(a: u32, b: u32)
    requires
        finite_bits(a),
        finite_bits(b),
        exact(a) == exact(b),
        exact(a) > 0,
    ensures
        a == b,
{
    no_units();
    if magnitude_of(a) < magnitude_of(b) {
        units_grow(magnitude_of(a), magnitude_of(b));
    }
    if magnitude_of(b) < magnitude_of(a) {
        units_grow(magnitude_of(b), magnitude_of(a));
    }
}

/// A number that stands for nothing has no magnitude.
proof fn nothing_has_no_magnitude(a: u32)
    requires
        exact(a) == 0,
    ensures
        magnitude_of(a) == 0,
{
    no_units();
    if magnitude_of(a) > 0 {
        units_grow(0, magnitude_of(a));
    }
}

/// What the number one stands for.
proof fn one_is_one()
    ensures
        exact(ONE) == one(),
        units(magnitude_of(ONE)) == one(),
        one() > 0,
        finite_bits(ONE),
        finite_bits(0),
        exact(0) == 0,
{
    lemma2_to64();
    lemma_pow2_adds(126, 23);
    lemma_pow2_pos(149);
    assert(magnitude_of(ONE) == 0x3F80_0000);
    assert(significand(0x3F80_0000) == 8388608);
    assert(exponent(0x3F80_0000) == 126);
    no_units();
    assert(magnitude_of(0) == 0);
}

/// Nothing times a number is nothing, on either side.
proof fn nothing_times(z: u32, x: u32)
    requires
        exact(z) == 0,
        finite_bits(x),
    ensures
        finite_bits(product(z, x)),
        exact(product(z, x)) == 0,
        finite_bits(product(x, z)),
        exact(product(x, z)) == 0,
{
    nothing_has_no_magnitude(z);
    multiplying_commutes(z, x);
    reveal(product);
    lemma_pow2_pos(298);
    no_units();
    let u = units(magnitude_of(x));
    assert(0 * u == 0 && 0 * pow2(149) == 0 && 0 * pow2(298) == 0);
    exact_stays(0, pow2(298), 0);
}

/// A number times one is the number, on either side.
proof fn times_one(x: u32)
    requires
        finite_bits(x),
    ensures
        finite_bits(product(ONE, x)),
        exact(product(ONE, x)) == exact(x),
        finite_bits(product(x, ONE)),
        exact(product(x, ONE)) == exact(x),
{
    one_times(x);
    multiplying_commutes(ONE, x);
}

/// Taking nothing away changes nothing, and taking a number away from nothing turns its sign.
proof fn nothing_taken(a: u32, c: u32)
    requires
        finite_bits(a),
        finite_bits(c),
        exact(a) == 0 || exact(c) == 0,
    ensures
        finite_bits(difference(a, c)),
        exact(difference(a, c)) == exact(a) - exact(c),
{
    negated_is_exact(c);
    adding_nothing(a, negated(c));
}

/// A number over one is the number.
proof fn over_one(x: u32)
    requires
        finite_bits(x),
    ensures
        finite_bits(quotient(x, ONE)),
        exact(quotient(x, ONE)) == exact(x),
{
    reveal(quotient);
    one_is_one();
    no_units();
    let m = magnitude_of(x);
    exact_stays(units(m), pow2(149), m);
}

/// The cross product of two axes is the third.
proof fn axes_across(a: (u32, u32, u32), b: (u32, u32, u32))
    requires
        (a == (0u32, ONE, 0u32) && b == (0u32, 0u32, ONE)) || (a == (0u32, 0u32, ONE) && b == (
            ONE,
            0u32,
            0u32,
        )) || (a == (ONE, 0u32, 0u32) && b == (0u32, ONE, 0u32)),
    ensures
        ({
            let c = cross_product(a, b);
            &&& finite_bits(c.0) && finite_bits(c.1) && finite_bits(c.2)
            &&& a.1 == ONE ==> c.0 == ONE && exact(c.1) == 0 && exact(c.2) == 0
            &&& a.2 == ONE ==> exact(c.0) == 0 && c.1 == ONE && exact(c.2) == 0
            &&& a.0 == ONE ==> exact(c.0) == 0 && exact(c.1) == 0 && c.2 == ONE
        }),
{
    one_is_one();
    times_one(ONE);
    nothing_times(0, ONE);
    nothing_times(0, 0);
    let i = product(ONE, ONE);
    let p = product(0, ONE);
    let q = product(ONE, 0);
    let o = product(0, 0);
    nothing_taken(i, o);
    nothing_taken(o, p);
    nothing_taken(o, q);
    nothing_taken(p, o);
    nothing_taken(q, o);
    nothing_taken(o, o);
    nothing_taken(p, q);
    nothing_taken(q, p);
    nothing_taken(o, i);
    same_bits(difference(i, o), ONE);
}

/// One coordinate of the point where planes along the axes meet.
proof fn coordinate(
    a: PlaneView,
    b: PlaneView,
    c: PlaneView,
    x: u32,
    y: u32,
    z: u32,
)
    requires
        finite_bits(a.d) && finite_bits(b.d) && finite_bits(c.d),
        finite_bits(x) && finite_bits(y) && finite_bits(z),
        (x == ONE && exact(y) == 0 && exact(z) == 0) || (exact(x) == 0 && y == ONE && exact(z) == 0)
            || (exact(x) == 0 && exact(y) == 0 && z == ONE),
    ensures
        ({
            let s = solved(a, b, c, x, y, z, ONE);
            &&& finite_bits(s)
            &&& x == ONE ==> exact(s) == -exact(a.d)
            &&& y == ONE ==> exact(s) == -exact(b.d)
            &&& z == ONE ==> exact(s) == -exact(c.d)
        }),
{
    one_is_one();
    negated_is_exact(a.d);
    let n = negated(a.d);
    times_one(n);
    times_one(b.d);
    times_one(c.d);
    if x == ONE {
        nothing_times(y, b.d);
        nothing_times(z, c.d);
    } else if y == ONE {
        nothing_times(x, n);
        nothing_times(z, c.d);
    } else {
        nothing_times(x, n);
        nothing_times(y, b.d);
    }
    let p = product(n, x);
    let q = product(b.d, y);
    let r = product(c.d, z);
    nothing_taken(p, q);
    nothing_taken(difference(p, q), r);
    over_one(difference(difference(p, q), r));
}

/// Planes along the three axes meet where each is: at the point whose coordinates are how far the
/// planes are from the origin.
#[verifier::spinoff_prover]
pub proof fn planes_along_the_axes_meet(a: PlaneView, b: PlaneView, c: PlaneView)
    requires
        a.n == (ONE, 0u32, 0u32),
        b.n == (0u32, ONE, 0u32),
        c.n == (0u32, 0u32, ONE),
        finite_bits(a.d),
        finite_bits(b.d),
        finite_bits(c.d),
    ensures
        common_point(a, b, c) matches Some(v) && exact(v.0) == -exact(a.d) && exact(v.1) == -exact(
            b.d,
        ) && exact(v.2) == -exact(c.d),
{
    one_is_one();
    axes_across(b.n, c.n);
    axes_across(c.n, a.n);
    axes_across(a.n, b.n);
    let x = cross_product(b.n, c.n);
    let y = cross_product(c.n, a.n);
    let z = cross_product(a.n, b.n);
    times_one(ONE);
    nothing_times(0, x.1);
    nothing_times(0, x.2);
    let p = product(ONE, x.0);
    let q = product(0, x.1);
    let r = product(0, x.2);
    adding_nothing(p, q);
    adding_nothing(sum(p, q), r);
    let det = dot_product(a.n, x);
    same_bits(det, ONE);
    assert(absolute(ONE) == ONE);
    assert(rank(ONE) == 0x3F80_0000);
    assert(rank(NO_POINT) == 0x2B8C_BCCC);
    coordinate(a, b, c, x.0, y.0, z.0);
    coordinate(a, b, c, x.1, y.1, z.1);
    coordinate(a, b, c, x.2, y.2, z.2);
}

/// How far a point is outside a plane along an axis is its coordinate and the distance of the plane,
/// but for half a step.
pub proof fn heights_are_above_the_plane(p: PlaneView, v: (u32, u32, u32))
    requires
        p.n == (ONE, 0u32, 0u32) || p.n == (0u32, ONE, 0u32) || p.n == (0u32, 0u32, ONE),
        finite_bits(v.0),
        finite_bits(v.1),
        finite_bits(v.2),
        finite_bits(height(p, v)),
    ensures
        ({
            let h = exact(height(p, v));
            let x = if p.n.0 == ONE {
                exact(v.0)
            } else if p.n.1 == ONE {
                exact(v.1)
            } else {
                exact(v.2)
            };
            16777216 * size(h - (x + exact(p.d))) <= size(h) + 8388608
        }),
{
    one_is_one();
    times_one(v.0);
    times_one(v.1);
    times_one(v.2);
    nothing_times(0, v.0);
    nothing_times(0, v.1);
    nothing_times(0, v.2);
    let a = product(p.n.0, v.0);
    let b = product(p.n.1, v.1);
    let c = product(p.n.2, v.2);
    adding_nothing(a, b);
    adding_nothing(sum(a, b), c);
    sums_are_near(dot_product(p.n, v), p.d);
}

} // verus!
