//! What tangents are: which way the texture runs on a mesh.
use vstd::arithmetic::power2::{lemma_pow2_adds, lemma_pow2_pos, pow2};
use vstd::prelude::*;

use crate::across::{
    adding_nothing, exact_stays, is_moderate, length_bounds, length_error, negated_is_exact,
    no_units, one, rounded_rounds, rounding_error, signed_component, size, square, unit_error,
    units_grow,
};
use crate::arith::{
    absolute, adding_commutes, below, difference, exact, multiplying_commutes, product, quotient,
    sum, zero_times_anything,
};
use crate::near::finite_bits;
use crate::single::{magnitude_of, negated, rounded, units, ONE};
use crate::tangent::{
    cross_product, directions, gathered, in_range, length, slopes, triangle_directions, unit,
    upright, Vertex, MINUS_ONE, SMALL_FLOAT,
};

verus! {

/// A triangle with one corner at a vertex adds its two directions to what the triangles before it
/// came to there: each number of each direction to its own sum.
pub proof fn each_triangle_adds_its_directions(
    v: Seq<Vertex>,
    tris: Seq<[u32; 3]>,
    t: [u32; 3],
    k: int,
)
    requires
        in_range(t, v.len()),
        (t[0] == k && t[1] != k && t[2] != k) || (t[0] != k && t[1] == k && t[2] != k) || (t[0] != k
            && t[1] != k && t[2] == k),
    ensures
        ({
            let a = gathered(v, tris, k);
            let b = gathered(v, tris.push(t), k);
            let d = triangle_directions(v, t);
            &&& b.0.0 == sum(a.0.0, d.0.0)
            &&& b.0.1 == sum(a.0.1, d.0.1)
            &&& b.0.2 == sum(a.0.2, d.0.2)
            &&& b.1.0 == sum(a.1.0, d.1.0)
            &&& b.1.1 == sum(a.1.1, d.1.1)
            &&& b.1.2 == sum(a.1.2, d.1.2)
        }),
{
    assert(tris.push(t).drop_last() =~= tris);
}

/// A triangle elsewhere, or with a corner that is no vertex, adds nothing to a vertex.
pub proof fn other_triangles_add_nothing(
    v: Seq<Vertex>,
    tris: Seq<[u32; 3]>,
    t: [u32; 3],
    k: int,
)
    requires
        !in_range(t, v.len()) || (t[0] != k && t[1] != k && t[2] != k),
    ensures
        gathered(v, tris.push(t), k) == gathered(v, tris, k),
{
    assert(tris.push(t).drop_last() =~= tris);
}

/// Nothing is gathered where there are no triangles.
pub proof fn no_triangles_gather_nothing(v: Seq<Vertex>, k: int)
    ensures
        gathered(v, Seq::empty(), k) == ((0u32, 0u32, 0u32), (0u32, 0u32, 0u32)),
{
}

/// The sums of two numbers, from nothing on, do not depend on their order.
proof fn either_order(a: u32, b: u32)
    requires
        finite_bits(a),
        finite_bits(b),
    ensures
        exact(sum(sum(0, a), b)) == exact(sum(sum(0, b), a)),
        exact(sum(sum(0, a), b)) == exact(sum(a, b)),
{
    no_units();
    adding_nothing(0, a);
    adding_nothing(0, b);
    same_sums(sum(0, a), a, b);
    same_sums(sum(0, b), b, a);
    adding_commutes(a, b);
}

/// Numbers that stand for the same have the same sums.
proof fn same_sums(a: u32, b: u32, c: u32)
    requires
        finite_bits(a),
        finite_bits(b),
        finite_bits(c),
        exact(a) == exact(b),
    ensures
        exact(sum(a, c)) == exact(sum(b, c)),
        exact(sum(c, a)) == exact(sum(c, b)),
        sum(0, a) == sum(0, b),
{
    reveal(sum);
    no_units();
}

/// Of two triangles at a vertex both count, and it does not matter which comes first.
pub proof fn two_triangles_count_in_either_order(
    v: Seq<Vertex>,
    s: [u32; 3],
    t: [u32; 3],
    k: int,
)
    requires
        in_range(s, v.len()),
        in_range(t, v.len()),
        s[0] == k && s[1] != k && s[2] != k,
        t[0] == k && t[1] != k && t[2] != k,
        finite_bits(triangle_directions(v, s).0.0),
        finite_bits(triangle_directions(v, s).0.1),
        finite_bits(triangle_directions(v, s).0.2),
        finite_bits(triangle_directions(v, t).0.0),
        finite_bits(triangle_directions(v, t).0.1),
        finite_bits(triangle_directions(v, t).0.2),
    ensures
        ({
            let a = gathered(v, seq![s, t], k).0;
            let b = gathered(v, seq![t, s], k).0;
            let d = triangle_directions(v, s).0;
            let e = triangle_directions(v, t).0;
            &&& exact(a.0) == exact(b.0) && exact(a.0) == exact(sum(d.0, e.0))
            &&& exact(a.1) == exact(b.1) && exact(a.1) == exact(sum(d.1, e.1))
            &&& exact(a.2) == exact(b.2) && exact(a.2) == exact(sum(d.2, e.2))
        }),
{
    let d = triangle_directions(v, s).0;
    let e = triangle_directions(v, t).0;
    let none = Seq::<[u32; 3]>::empty();
    assert(seq![s, t] =~= none.push(s).push(t));
    assert(seq![t, s] =~= none.push(t).push(s));
    each_triangle_adds_its_directions(v, none, s, k);
    each_triangle_adds_its_directions(v, none, t, k);
    each_triangle_adds_its_directions(v, none.push(s), t, k);
    each_triangle_adds_its_directions(v, none.push(t), s, k);
    either_order(d.0, e.0);
    either_order(d.1, e.1);
    either_order(d.2, e.2);
}

/// A product with one, on either side.
proof fn times_one(a: u32, x: u32)
    requires
        finite_bits(a),
        finite_bits(x),
        exact(a) == one() || exact(a) == -one(),
    ensures
        finite_bits(product(a, x)),
        finite_bits(product(x, a)),
        exact(a) == one() ==> exact(product(a, x)) == exact(x) && exact(product(x, a)) == exact(x),
        exact(a) == -one() ==> exact(product(a, x)) == -exact(x) && exact(product(x, a)) == -exact(
            x,
        ),
{
    reveal(product);
    no_units();
    lemma_pow2_pos(149);
    lemma_pow2_pos(298);
    lemma_pow2_adds(149, 149);
    let b = pow2(149);
    let u = units(magnitude_of(x));
    assert(units(magnitude_of(a)) == b);
    assert(b * u * b == u * (b * b)) by (nonlinear_arith);
    exact_stays(b * u, pow2(298), magnitude_of(x));
    multiplying_commutes(a, x);
}

proof fn times_nothing(a: u32, x: u32)
    requires
        finite_bits(a),
        finite_bits(x),
        exact(a) == 0,
    ensures
        finite_bits(product(a, x)),
        finite_bits(product(x, a)),
        exact(product(a, x)) == 0,
        exact(product(x, a)) == 0,
{
    no_units();
    if magnitude_of(a) > 0 {
        units_grow(0, magnitude_of(a));
    }
    zero_times_anything(a, x);
    zero_times_anything(x, a);
}

/// What is taken from a number: nothing, or the number from nothing.
proof fn exact_difference(a: u32, b: u32)
    requires
        finite_bits(a),
        finite_bits(b),
        exact(a) == 0 || exact(b) == 0,
    ensures
        finite_bits(difference(a, b)),
        exact(difference(a, b)) == exact(a) - exact(b),
{
    negated_is_exact(b);
    adding_nothing(a, negated(b));
}

/// A number over one or minus one.
proof fn over_one(x: u32, a: u32)
    requires
        finite_bits(a),
        finite_bits(x),
        exact(a) == one() || exact(a) == -one(),
    ensures
        finite_bits(quotient(x, a)),
        exact(a) == one() ==> exact(quotient(x, a)) == exact(x),
        exact(a) == -one() ==> exact(quotient(x, a)) == -exact(x),
{
    reveal(quotient);
    no_units();
    lemma_pow2_pos(149);
    let b = pow2(149);
    let u = units(magnitude_of(x));
    assert(units(magnitude_of(a)) == b);
    exact_stays(u, b, magnitude_of(x));
}

/// One is above what counts as no area.
proof fn one_is_an_area(a: u32)
    requires
        finite_bits(a),
        exact(a) == one() || exact(a) == -one(),
    ensures
        below(SMALL_FLOAT, absolute(a)),
{
    let m = magnitude_of(a);
    lemma_pow2_pos(149);
    crate::across::nearly_one();
    if m <= SMALL_FLOAT {
        units_grow(SMALL_FLOAT as nat, crate::tangent::NEARLY_ONE as nat);
        if m < SMALL_FLOAT {
            units_grow(m, SMALL_FLOAT as nat);
        }
    }
}

/// Along one axis, where the texture runs from the first corner to the second and from the first
/// to the third.
proof fn slopes_along_the_sides(
    p: (u32, u32, u32),
    t0: (u32, u32),
    t1: (u32, u32),
    t2: (u32, u32),
)
    requires
        finite_bits(difference(p.1, p.0)),
        finite_bits(difference(p.2, p.0)),
        finite_bits(difference(t1.0, t0.0)),
        finite_bits(difference(t1.1, t0.1)),
        finite_bits(difference(t2.0, t0.0)),
        finite_bits(difference(t2.1, t0.1)),
        exact(difference(t1.0, t0.0)) == one(),
        exact(difference(t1.1, t0.1)) == 0,
        exact(difference(t2.0, t0.0)) == 0,
        exact(difference(t2.1, t0.1)) == one(),
    ensures
        slopes(p, t0, t1, t2) == (sum(0, difference(p.1, p.0)), sum(0, difference(p.2, p.0))),
{
    no_units();
    let (x, a, b) = (difference(p.1, p.0), difference(t1.0, t0.0), difference(t1.1, t0.1));
    let (y, c, d) = (difference(p.2, p.0), difference(t2.0, t0.0), difference(t2.1, t0.1));
    times_one(a, d);
    times_nothing(b, c);
    exact_difference(product(a, d), product(b, c));
    times_nothing(b, y);
    times_one(d, x);
    exact_difference(product(b, y), product(x, d));
    times_nothing(c, x);
    times_one(a, y);
    exact_difference(product(x, c), product(a, y));
    let e = cross_product((x, a, b), (y, c, d));
    one_is_an_area(e.0);
    negated_is_exact(e.1);
    negated_is_exact(e.2);
    over_one(negated(e.1), e.0);
    over_one(negated(e.2), e.0);
    same_sums(quotient(negated(e.1), e.0), x, x);
    same_sums(quotient(negated(e.2), e.0), y, y);
}

/// Along one axis, where the texture lies on its side.
proof fn slopes_across_the_sides(
    p: (u32, u32, u32),
    t0: (u32, u32),
    t1: (u32, u32),
    t2: (u32, u32),
)
    requires
        finite_bits(difference(p.1, p.0)),
        finite_bits(difference(p.2, p.0)),
        finite_bits(difference(t1.0, t0.0)),
        finite_bits(difference(t1.1, t0.1)),
        finite_bits(difference(t2.0, t0.0)),
        finite_bits(difference(t2.1, t0.1)),
        exact(difference(t1.0, t0.0)) == 0,
        exact(difference(t1.1, t0.1)) == one(),
        exact(difference(t2.0, t0.0)) == one(),
        exact(difference(t2.1, t0.1)) == 0,
    ensures
        slopes(p, t0, t1, t2) == (sum(0, difference(p.2, p.0)), sum(0, difference(p.1, p.0))),
{
    no_units();
    let (x, a, b) = (difference(p.1, p.0), difference(t1.0, t0.0), difference(t1.1, t0.1));
    let (y, c, d) = (difference(p.2, p.0), difference(t2.0, t0.0), difference(t2.1, t0.1));
    times_nothing(a, d);
    times_one(b, c);
    exact_difference(product(a, d), product(b, c));
    times_one(b, y);
    times_nothing(d, x);
    exact_difference(product(b, y), product(x, d));
    times_one(c, x);
    times_nothing(a, y);
    exact_difference(product(x, c), product(a, y));
    let e = cross_product((x, a, b), (y, c, d));
    one_is_an_area(e.0);
    negated_is_exact(e.1);
    negated_is_exact(e.2);
    over_one(negated(e.1), e.0);
    over_one(negated(e.2), e.0);
    same_sums(quotient(negated(e.1), e.0), y, y);
    same_sums(quotient(negated(e.2), e.0), x, x);
}

/// The way from one point to another, with zeros above zero.
pub open spec fn way(p: (u32, u32, u32), q: (u32, u32, u32)) -> (u32, u32, u32) {
    (sum(0, difference(q.0, p.0)), sum(0, difference(q.1, p.1)), sum(0, difference(q.2, p.2)))
}

/// All three differences are finite.
pub open spec fn finite_way(p: (u32, u32, u32), q: (u32, u32, u32)) -> bool {
    finite_bits(difference(q.0, p.0)) && finite_bits(difference(q.1, p.1)) && finite_bits(
        difference(q.2, p.2),
    )
}

/// Two places on a texture are apart by `u` and `v`.
pub open spec fn apart_by(p: (u32, u32), q: (u32, u32), u: int, v: int) -> bool {
    &&& finite_bits(difference(q.0, p.0))
    &&& finite_bits(difference(q.1, p.1))
    &&& exact(difference(q.0, p.0)) == u
    &&& exact(difference(q.1, p.1)) == v
}

/// Where the texture runs along the sides of a triangle, its two directions are the ways along the
/// sides: the first to the corner where the first number of the place grows by one, the second to
/// the one where the second does.
pub proof fn texture_runs_along_the_sides(
    p0: (u32, u32, u32),
    p1: (u32, u32, u32),
    p2: (u32, u32, u32),
    t0: (u32, u32),
    t1: (u32, u32),
    t2: (u32, u32),
)
    requires
        finite_way(p0, p1),
        finite_way(p0, p2),
    ensures
        apart_by(t0, t1, one(), 0) && apart_by(t0, t2, 0, one()) ==> directions(
            p0,
            p1,
            p2,
            t0,
            t1,
            t2,
        ) == (unit(way(p0, p1)), unit(way(p0, p2))),
        apart_by(t0, t1, 0, one()) && apart_by(t0, t2, one(), 0) ==> directions(
            p0,
            p1,
            p2,
            t0,
            t1,
            t2,
        ) == (unit(way(p0, p2)), unit(way(p0, p1))),
{
    if apart_by(t0, t1, one(), 0) && apart_by(t0, t2, 0, one()) {
        slopes_along_the_sides((p0.0, p1.0, p2.0), t0, t1, t2);
        slopes_along_the_sides((p0.1, p1.1, p2.1), t0, t1, t2);
        slopes_along_the_sides((p0.2, p1.2, p2.2), t0, t1, t2);
    }
    if apart_by(t0, t1, 0, one()) && apart_by(t0, t2, one(), 0) {
        slopes_across_the_sides((p0.0, p1.0, p2.0), t0, t1, t2);
        slopes_across_the_sides((p0.1, p1.1, p2.1), t0, t1, t2);
        slopes_across_the_sides((p0.2, p1.2, p2.2), t0, t1, t2);
    }
}

/// A vector over its length points the same way: each number times the length is the number that
/// it was, and the length is one, but for rounding errors.
pub proof fn units_point_the_same_way(v: (u32, u32, u32))
    requires
        is_moderate(v),
        square(v) >= 5 * (one() * one()) / 100,
    ensures
        ({
            let t = unit(v);
            let l = units(length(v) as nat) as int;
            &&& l > 0
            &&& 16777216000 * size(exact(t.0) * l - exact(v.0) * one()) <= 1001 * (size(exact(v.0))
                * one()) + 16777216000 * l
            &&& 16777216000 * size(exact(t.1) * l - exact(v.1) * one()) <= 1001 * (size(exact(v.1))
                * one()) + 16777216000 * l
            &&& 16777216000 * size(exact(t.2) * l - exact(v.2) * one()) <= 1001 * (size(exact(v.2))
                * one()) + 16777216000 * l
            &&& 1000000 * size(square(t) - one() * one()) <= one() * one()
        }),
{
    length_error(v);
    length_bounds(v);
    unit_error(v);
    signed_component(v.0, length(v));
    signed_component(v.1, length(v));
    signed_component(v.2, length(v));
}

/// A difference is below zero, zero or above it as the exact difference is.
proof fn differences_keep_order(a: u32, b: u32)
    requires
        finite_bits(a),
        finite_bits(b),
    ensures
        below(difference(a, b), 0) <==> exact(a) < exact(b),
{
    reveal(sum);
    no_units();
    lemma_pow2_pos(149);
    negated_is_exact(b);
    let total = exact(a) - exact(b);
    if total != 0 {
        let num = size(total) as nat;
        rounded_rounds(num, pow2(149));
        let r = rounded(num, pow2(149));
        if r == 0 {
            rounding_error(num, pow2(149), 0);
            assert(num * pow2(149) >= pow2(149)) by (nonlinear_arith)
                requires
                    num >= 1,
            ;
            assert(0 * pow2(149) == 0);
        }
    }
}

/// A normal along the third axis.
pub open spec fn is_third_axis(n: (u32, u32, u32)) -> bool {
    &&& finite_bits(n.0) && finite_bits(n.1) && finite_bits(n.2)
    &&& exact(n.0) == 0 && exact(n.1) == 0 && exact(n.2) == one()
}

proof fn exact_cross(a: (u32, u32, u32), b: (u32, u32, u32))
    requires
        finite_bits(a.0) && finite_bits(a.1) && finite_bits(a.2),
        is_third_axis(b),
    ensures
        ({
            let c = cross_product(a, b);
            let d = cross_product(b, a);
            &&& finite_bits(c.0) && finite_bits(c.1) && finite_bits(c.2)
            &&& finite_bits(d.0) && finite_bits(d.1) && finite_bits(d.2)
            &&& exact(c.0) == exact(a.1) && exact(c.1) == -exact(a.0) && exact(c.2) == 0
            &&& exact(d.0) == -exact(a.1) && exact(d.1) == exact(a.0) && exact(d.2) == 0
        }),
{
    times_one(b.2, a.0);
    times_one(b.2, a.1);
    times_nothing(b.0, a.0);
    times_nothing(b.0, a.1);
    times_nothing(b.0, a.2);
    times_nothing(b.1, a.0);
    times_nothing(b.1, a.1);
    times_nothing(b.1, a.2);
    exact_difference(product(a.1, b.2), product(a.2, b.1));
    exact_difference(product(a.2, b.0), product(a.0, b.2));
    exact_difference(product(a.0, b.1), product(a.1, b.0));
    exact_difference(product(b.1, a.2), product(b.2, a.1));
    exact_difference(product(b.2, a.0), product(b.0, a.2));
    exact_difference(product(b.0, a.1), product(b.1, a.0));
}

/// Across a normal along the third axis, the tangent is the direction in which the texture runs
/// without its third number, whichever way the texture turns; and the handedness is minus one
/// exactly if the texture turns the other way round.
pub proof fn tangents_lie_across_the_normal(
    s: (u32, u32, u32),
    t: (u32, u32, u32),
    n: (u32, u32, u32),
)
    requires
        finite_bits(s.0) && finite_bits(s.1) && finite_bits(s.2),
        finite_bits(product(s.0, t.1)) && finite_bits(product(s.1, t.0)),
        finite_bits(cross_product(s, t).0) && finite_bits(cross_product(s, t).1) && finite_bits(
            cross_product(s, t).2,
        ),
        is_third_axis(n),
    ensures
        ({
            let r = upright(s, t, n);
            &&& exists|c: (u32, u32, u32)|
                {
                    &&& r.0 == #[trigger] unit(c)
                    &&& exact(c.0) == exact(s.0)
                    &&& exact(c.1) == exact(s.1)
                    &&& exact(c.2) == 0
                }
            &&& exact(product(s.0, t.1)) < exact(product(s.1, t.0)) ==> r.1 == MINUS_ONE
            &&& exact(product(s.0, t.1)) >= exact(product(s.1, t.0)) ==> r.1 == ONE
        }),
{
    exact_cross(s, n);
    exact_cross(cross_product(s, n), n);
    exact_cross(cross_product(n, s), n);
    let a = cross_product(n, cross_product(s, n));
    let b = cross_product(cross_product(n, s), n);
    assert(unit(a) == unit(a) && unit(b) == unit(b));
    let c = cross_product(s, t);
    differences_keep_order(product(s.0, t.1), product(s.1, t.0));
    times_nothing(n.0, c.0);
    times_nothing(n.1, c.1);
    times_one(n.2, c.2);
    adding_nothing(product(c.0, n.0), product(c.1, n.1));
    adding_nothing(
        sum(product(c.0, n.0), product(c.1, n.1)),
        product(c.2, n.2),
    );
    let d = sum(sum(product(c.0, n.0), product(c.1, n.1)), product(c.2, n.2));
    signs_agree(d, c.2);
}

/// Numbers that stand for the same are below zero together.
proof fn signs_agree(a: u32, b: u32)
    requires
        finite_bits(a),
        finite_bits(b),
        exact(a) == exact(b),
    ensures
        below(a, 0) == below(b, 0),
{
    no_units();
    if magnitude_of(a) > 0 {
        units_grow(0, magnitude_of(a));
    }
    if magnitude_of(b) > 0 {
        units_grow(0, magnitude_of(b));
    }
}

} // verus!
