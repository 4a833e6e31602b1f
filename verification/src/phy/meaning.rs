//! What the numbers and the text of a collision file mean.
use vstd::arithmetic::power2::{lemma2_to64, lemma_pow2_adds, lemma_pow2_pos, pow2};
use vstd::prelude::*;

use super::bounds::{box_around, distance, greatest, least, reach};
use super::mass::{mass_share, volume_of};
use super::params::{JointConstraint, JointLimitType, PhyParams, PhySolid, FIVE, MINUS_ROUND, ROUND};
use super::placed::{ivp, turned, SOURCE_TO_IVP};
use super::pose::{node_with, posed_bones, rest_bones, weights_of};
use super::ragdoll::{merge_steps, owned, owns, resolved};
use super::section::{axis_limits, solid_block};

use super::surface::SolidGeometry;
use super::weld::{corner_of, corner_points, mesh_points, welded_face, welded_faces};
use crate::across::{exact_stays, negated_is_exact, no_units, one, size, units_grow};
use crate::arith::{absolute, at_most, exact, product, quotient};
use crate::decimals::{half_even, millionths, six_decimals, six_digits};
use crate::near::{finite_bits, products_are_near, quotients_are_near};
use crate::qc::model::BoneView;
use crate::seqs::{distinct_holds_each_once, position};
use crate::single::{exponent, has_sign, is_nan, magnitude_of, negated, significand, units, ONE};
use crate::smd::{NodeView, SmdBoneLink, SmdPose, SmdView, TriangleView};
use crate::text::decimal;

verus! {

/// In a file the first axis is the second of a model, backwards; the second axis is the third,
/// backwards; and the third axis is the first.
pub proof fn axes_are_turned(v: [u32; 3])
    requires
        finite_bits(v@[0]),
        finite_bits(v@[1]),
        finite_bits(v@[2]),
    ensures
        exact(turned(v)@[0]) == -exact(v@[1]),
        exact(turned(v)@[1]) == -exact(v@[2]),
        exact(turned(v)@[2]) == exact(v@[0]),
{
    negated_is_exact(v@[1]);
    negated_is_exact(v@[2]);
}

/// A unit of a model is 0.0254 units of a file, to a millionth part.
pub proof fn units_are_inches()
    ensures
        1000000 * size(10000 * exact(SOURCE_TO_IVP) - 254 * one()) <= 254 * one(),
{
    lemma2_to64();
    lemma_pow2_adds(120, 29);
    lemma_pow2_pos(120);
    assert(significand(0x3CD0_13A9) == 13636521);
    assert(exponent(0x3CD0_13A9) == 120);
    assert(magnitude_of(SOURCE_TO_IVP) == 0x3CD0_13A9);
}

/// A point in a file is the point of the model along the axes of the file, in its units, but for
/// half a step.
pub proof fn points_are_turned_and_scaled(v: [u32; 3])
    requires
        finite_bits(ivp(v)@[0]),
        finite_bits(ivp(v)@[1]),
        finite_bits(ivp(v)@[2]),
    ensures
        ({
            let r = ivp(v);
            let s = exact(SOURCE_TO_IVP);
            let (x, y, z) = (exact(r@[0]), exact(r@[1]), exact(r@[2]));
            &&& 16777216 * size(x * one() - (-exact(v@[1])) * s) <= size(x) * one() + 8388608
                * one()
            &&& 16777216 * size(y * one() - (-exact(v@[2])) * s) <= size(y) * one() + 8388608
                * one()
            &&& 16777216 * size(z * one() - exact(v@[0]) * s) <= size(z) * one() + 8388608 * one()
        }),
{
    products_are_near(negated(v@[1]), SOURCE_TO_IVP);
    products_are_near(negated(v@[2]), SOURCE_TO_IVP);
    products_are_near(v@[0], SOURCE_TO_IVP);
    negated_is_exact(v@[1]);
    negated_is_exact(v@[2]);
}

/// The radius of a solid is the distance of its farthest point from the centre: none is farther, and
/// one is as far.
pub proof fn radius_reaches_the_farthest_point(points: Seq<[u32; 3]>, c: [u32; 3], n: int)
    requires
        0 <= n <= points.len(),
        forall|i: int| 0 <= i < n ==> !is_nan(distance(#[trigger] points[i], c)),
    ensures
        forall|i: int| 0 <= i < n ==> at_most(distance(#[trigger] points[i], c), reach(points, c, n)),
        reach(points, c, n) == 0 || exists|i: int|
            0 <= i < n && reach(points, c, n) == distance(#[trigger] points[i], c),
        !is_nan(reach(points, c, n)),
    decreases n,
{
    if n > 0 {
        radius_reaches_the_farthest_point(points, c, n - 1);
        let d = distance(points[n - 1], c);
        let before = reach(points, c, n - 1);
        if reach(points, c, n) == before && before != 0 {
            let i = choose|i: int| 0 <= i < n - 1 && before == distance(#[trigger] points[i], c);
            assert(reach(points, c, n) == distance(points[i], c));
        }
    }
}

/// The lower bound of a box is no more than any coordinate of the points in it, and is one of them.
proof fn least_is_least(points: Seq<[u32; 3]>, used: Seq<u32>, axis: int, n: int)
    requires
        1 <= n <= used.len(),
        forall|i: int| 0 <= i < n ==> !is_nan(points[(#[trigger] used[i]) as int]@[axis]),
    ensures
        forall|i: int|
            0 <= i < n ==> at_most(
                least(points, used, axis, n),
                points[(#[trigger] used[i]) as int]@[axis],
            ),
        exists|i: int|
            0 <= i < n && least(points, used, axis, n) == points[(#[trigger] used[i]) as int]@[axis],
        forall|i: int|
            0 <= i < n ==> at_most(
                points[(#[trigger] used[i]) as int]@[axis],
                greatest(points, used, axis, n),
            ),
        exists|i: int|
            0 <= i < n && greatest(points, used, axis, n) == points[(#[trigger] used[i]) as int]@[axis],
    decreases n,
{
    if n > 1 {
        least_is_least(points, used, axis, n - 1);
        let v = points[used[n - 1] as int]@[axis];
        let a = least(points, used, axis, n - 1);
        let b = greatest(points, used, axis, n - 1);
        let i = choose|i: int| 0 <= i < n - 1 && a == points[(#[trigger] used[i]) as int]@[axis];
        let j = choose|j: int| 0 <= j < n - 1 && b == points[(#[trigger] used[j]) as int]@[axis];
        assert(points[used[i] as int]@[axis] == a);
        assert(points[used[j] as int]@[axis] == b);
        assert(points[used[n - 1] as int]@[axis] == v);
    } else {
        assert(points[used[0] as int]@[axis] == least(points, used, axis, n));
    }
}

/// The box around points holds each of them, and no smaller box does: each of its bounds is a
/// coordinate of one of them.
pub proof fn boxes_are_tight(points: Seq<[u32; 3]>, used: Seq<u32>, axis: int)
    requires
        0 <= axis < 3,
        used.len() > 0,
        forall|i: int| 0 <= i < used.len() ==> !is_nan(points[(#[trigger] used[i]) as int]@[axis]),
    ensures
        ({
            let b = box_around(points, used, used.len() as int);
            &&& forall|i: int|
                0 <= i < used.len() ==> at_most(
                    b.low[axis],
                    points[(#[trigger] used[i]) as int]@[axis],
                ) && at_most(points[used[i] as int]@[axis], b.high[axis])
            &&& exists|i: int|
                0 <= i < used.len() && b.low[axis] == points[(#[trigger] used[i]) as int]@[axis]
            &&& exists|i: int|
                0 <= i < used.len() && b.high[axis] == points[(#[trigger] used[i]) as int]@[axis]
        }),
{
    least_is_least(points, used, axis, used.len() as int);
}

/// A solid that is the whole volume has the whole mass.
pub proof fn the_whole_has_the_whole_mass(volume: u32, total: u32)
    requires
        finite_bits(volume),
        exact(volume) > 0,
        finite_bits(total),
        exact(total) >= one(),
    ensures
        mass_share(volume, ONE, volume, total) == total,
{
    reveal(product);
    reveal(quotient);
    no_units();
    lemma_pow2_pos(149);
    lemma_pow2_pos(298);
    lemma_pow2_adds(149, 149);
    lemma_pow2_adds(23, 126);
    lemma2_to64();
    assert(significand(ONE as nat) == 8388608);
    assert(exponent(ONE as nat) == 126);
    assert(magnitude_of(ONE) == ONE);
    let b = pow2(149);
    assert(units(ONE as nat) == b);
    let u = units(magnitude_of(volume));
    assert(u * b * b == u * (b * b)) by (nonlinear_arith);
    exact_stays(u * b, pow2(298), magnitude_of(volume));
    assert(product(volume, ONE) == volume);
    assert(u * b == b * u) by (nonlinear_arith);
    exact_stays(u, u, ONE as nat);
    assert(quotient(volume, volume) == ONE);
    let w = units(magnitude_of(total));
    assert(b * w * b == w * (b * b)) by (nonlinear_arith);
    exact_stays(b * w, pow2(298), magnitude_of(total));
    assert(product(ONE, total) == total);
    if magnitude_of(total) < ONE {
        units_grow(magnitude_of(total), ONE as nat);
    }
}

/// A solid without a share has the mass one.
pub proof fn no_solid_is_lighter_than_one(volume: u32, bias: u32, whole: u32, total: u32)
    ensures
        ({
            let m = mass_share(volume, bias, whole, total);
            is_nan(m) || at_most(ONE, m)
        }),
{
}

/// The volume of a solid is that of its hulls, added up: one more hull adds its own, whatever the
/// sign of its mass.
pub proof fn hulls_add_their_volumes(masses: Seq<u32>, m: u32)
    ensures
        volume_of(masses.push(m), (masses.len() + 1) as int) == crate::arith::sum(
            volume_of(masses, masses.len() as int),
            quotient(absolute(m), product(product(SOURCE_TO_IVP, SOURCE_TO_IVP), SOURCE_TO_IVP)),
        ),
        volume_of(Seq::empty(), 0) == 0,
{
    same_volume(masses, masses.push(m), masses.len() as int);
}

proof fn same_volume(a: Seq<u32>, b: Seq<u32>, n: int)
    requires
        n <= a.len(),
        n <= b.len(),
        forall|i: int| 0 <= i < n ==> a[i] == b[i],
    ensures
        volume_of(a, n) == volume_of(b, n),
    decreases n,
{
    if n > 0 {
        same_volume(a, b, n - 1);
    }
}

/// Text `s` holds text `t`.
pub open spec fn holds(s: Seq<char>, t: Seq<char>) -> bool {
    exists|k: int| 0 <= k <= s.len() - t.len() && #[trigger] s.subrange(k, k + t.len()) == t
}

/// Text `s` holds a line with a key and a value, both in quotes.
pub open spec fn has_line(s: Seq<char>, key: Seq<char>, value: Seq<char>) -> bool {
    holds(s, "\""@ + key + "\" \""@ + value + "\"\n"@)
}

pub proof fn held_before(a: Seq<char>, b: Seq<char>, t: Seq<char>)
    requires
        holds(a, t),
    ensures
        holds(a + b, t),
{
    let k = choose|k: int| 0 <= k <= a.len() - t.len() && #[trigger] a.subrange(k, k + t.len()) == t;
    assert((a + b).subrange(k, k + t.len()) =~= a.subrange(k, k + t.len()));
}

pub proof fn held_behind(a: Seq<char>, t: Seq<char>)
    ensures
        holds(a + t, t),
{
    let k = a.len() as int;
    assert((a + t).subrange(k, k + t.len()) =~= t);
}

/// The text of a solid has a line for each of its numbers: its place, its name, its mass and volume,
/// what it is made of, and its own damping, damping of rotation and inertia, or those of all solids
/// where it has none.
#[verifier::spinoff_prover]
#[verifier::rlimit(60)]
pub proof fn solids_tell_their_numbers(i: int, s: PhySolid, g: SolidGeometry, params: PhyParams)
    ensures
        ({
            let t = solid_block(i, s, g, params);
            &&& has_line(t, "index"@, decimal(i as nat))
            &&& has_line(t, "name"@, s.name@)
            &&& s.parent matches Some(p) ==> has_line(t, "parent"@, p@)
            &&& has_line(t, "mass"@, six_decimals(g.mass))
            &&& has_line(t, "surfaceprop"@, params.surface_prop@)
            &&& has_line(
                t,
                "damping"@,
                six_decimals(
                    match s.damping {
                        Some(v) => v,
                        None => params.damping,
                    },
                ),
            )
            &&& has_line(
                t,
                "rotdamping"@,
                six_decimals(
                    match s.rot_damping {
                        Some(v) => v,
                        None => params.rot_damping,
                    },
                ),
            )
            &&& params.drag matches Some(v) ==> has_line(t, "drag"@, six_decimals(v))
            &&& has_line(
                t,
                "inertia"@,
                six_decimals(
                    match s.inertia {
                        Some(v) => v,
                        None => params.inertia,
                    },
                ),
            )
            &&& has_line(t, "volume"@, six_decimals(g.volume))
        }),
{
    let a = "solid {\n"@;
    let b = super::section::line("index"@, decimal(i as nat));
    let c = super::section::line("name"@, s.name@);
    let d = match s.parent {
        Some(p) => super::section::line("parent"@, p@),
        None => Seq::empty(),
    };
    let e = super::section::line("mass"@, six_decimals(g.mass));
    let f = super::section::line("surfaceprop"@, params.surface_prop@);
    let h = super::section::line("damping"@, super::section::own_or(s.damping, params.damping));
    let j = super::section::line("rotdamping"@, super::section::own_or(s.rot_damping, params.rot_damping));
    let k = super::section::line_if("drag"@, params.drag);
    let l = super::section::line("inertia"@, super::section::own_or(s.inertia, params.inertia));
    let m = super::section::line("volume"@, six_decimals(g.volume));
    let n = if super::section::bias_counts(s.mass_bias) {
        super::section::line("massbias"@, six_decimals(s.mass_bias))
    } else {
        Seq::empty()
    };
    let z = "}\n"@;
    assert(solid_block(i, s, g, params) == a + b + c + d + e + f + h + j + k + l + m + n + z);
    ten_parts(a, b, c, d, e, f, h, j, k, l, m, n, z);
}

/// Each part of a text is held by it.
proof fn ten_parts(
    a: Seq<char>,
    b: Seq<char>,
    c: Seq<char>,
    d: Seq<char>,
    e: Seq<char>,
    f: Seq<char>,
    h: Seq<char>,
    j: Seq<char>,
    k: Seq<char>,
    l: Seq<char>,
    m: Seq<char>,
    n: Seq<char>,
    z: Seq<char>,
)
    ensures
        ({
            let t = a + b + c + d + e + f + h + j + k + l + m + n + z;
            &&& holds(t, b) && holds(t, c) && holds(t, d) && holds(t, e) && holds(t, f)
            &&& holds(t, h) && holds(t, j) && holds(t, k) && holds(t, l) && holds(t, m)
            &&& holds(t, n)
        }),
{
    let t1 = a + b;
    let t2 = t1 + c;
    let t3 = t2 + d;
    let t4 = t3 + e;
    let t5 = t4 + f;
    let t6 = t5 + h;
    let t7 = t6 + j;
    let t8 = t7 + k;
    let t9 = t8 + l;
    let t10 = t9 + m;
    let t11 = t10 + n;
    let t = t11 + z;
    held_behind(a, b);
    held_behind(t1, c);
    held_behind(t2, d);
    held_behind(t3, e);
    held_behind(t4, f);
    held_behind(t5, h);
    held_behind(t6, j);
    held_behind(t7, k);
    held_behind(t8, l);
    held_behind(t9, m);
    held_behind(t10, n);
    kept(t1, c, b);
    kept2(t2, d, b, c);
    kept3(t3, e, b, c, d);
    kept4(t4, f, b, c, d, e);
    kept4(t5, h, b, c, d, e);
    kept(t5, h, f);
    kept4(t6, j, b, c, d, e);
    kept2(t6, j, f, h);
    kept4(t7, k, b, c, d, e);
    kept3(t7, k, f, h, j);
    kept4(t8, l, b, c, d, e);
    kept4(t8, l, f, h, j, k);
    kept4(t9, m, b, c, d, e);
    kept4(t9, m, f, h, j, k);
    kept(t9, m, l);
    kept4(t10, n, b, c, d, e);
    kept4(t10, n, f, h, j, k);
    kept2(t10, n, l, m);
    kept4(t11, z, b, c, d, e);
    kept4(t11, z, f, h, j, k);
    kept3(t11, z, l, m, n);
}

proof fn kept(t: Seq<char>, x: Seq<char>, b: Seq<char>)
    requires
        holds(t, b),
    ensures
        holds(t + x, b),
{
    held_before(t, x, b);
}

proof fn kept2(t: Seq<char>, x: Seq<char>, b: Seq<char>, c: Seq<char>)
    requires
        holds(t, b),
        holds(t, c),
    ensures
        holds(t + x, b),
        holds(t + x, c),
{
    held_before(t, x, b);
    held_before(t, x, c);
}

proof fn kept3(t: Seq<char>, x: Seq<char>, b: Seq<char>, c: Seq<char>, d: Seq<char>)
    requires
        holds(t, b),
        holds(t, c),
        holds(t, d),
    ensures
        holds(t + x, b),
        holds(t + x, c),
        holds(t + x, d),
{
    kept2(t, x, b, c);
    held_before(t, x, d);
}

proof fn kept4(t: Seq<char>, x: Seq<char>, b: Seq<char>, c: Seq<char>, d: Seq<char>, e: Seq<char>)
    requires
        holds(t, b),
        holds(t, c),
        holds(t, d),
        holds(t, e),
    ensures
        holds(t + x, b),
        holds(t + x, c),
        holds(t + x, d),
        holds(t + x, e),
{
    kept2(t, x, b, c);
    kept2(t, x, d, e);
}

/// The limits of a joint about an axis are those that were given last for its bone and that axis.
pub proof fn the_last_limit_counts(
    limits: Seq<JointConstraint>,
    c: JointConstraint,
    bone: Seq<char>,
    axis: int,
)
    requires
        0 <= axis < 3,
        c.axis < 3,
    ensures
        c.bone@ == bone && c.axis == axis ==> axis_limits(
            limits.push(c),
            bone,
            axis,
            (limits.len() + 1) as int,
        ) == c.kind.values(c.min, c.max, c.friction),
        c.bone@ != bone || c.axis != axis ==> axis_limits(
            limits.push(c),
            bone,
            axis,
            (limits.len() + 1) as int,
        ) == axis_limits(limits, bone, axis, limits.len() as int),
        axis_limits(Seq::empty(), bone, axis, 0) == (0u32, 0u32, 0u32),
{
    same_limits(limits, limits.push(c), bone, axis, limits.len() as int);
}

proof fn same_limits(
    a: Seq<JointConstraint>,
    b: Seq<JointConstraint>,
    bone: Seq<char>,
    axis: int,
    n: int,
)
    requires
        n <= a.len(),
        n <= b.len(),
        forall|i: int| 0 <= i < n ==> a[i] == b[i],
    ensures
        axis_limits(a, bone, axis, n) == axis_limits(b, bone, axis, n),
    decreases n,
{
    if n > 0 {
        same_limits(a, b, bone, axis, n - 1);
    }
}

/// A fixed joint does not turn, a free one turns all the way round, and any other between its two
/// angles; the friction is the fifth part.
pub proof fn limits_are_angles(min: u32, max: u32, friction: u32)
    ensures
        JointLimitType::Fixed.values(min, max, friction) == (0u32, 0u32, 0u32),
        ({
            let v = JointLimitType::Free.values(min, max, friction);
            exact(v.0) == -360 * one() && exact(v.1) == 360 * one()
        }),
        ({
            let v = JointLimitType::Limit.values(min, max, friction);
            v.0 == min && v.1 == max && (finite_bits(v.2) ==> 16777216 * size(
                exact(v.2) * (5 * one()) - exact(friction) * one(),
            ) <= size(exact(v.2) * (5 * one())) + 8388608 * (5 * one()))
        }),
{
    lemma2_to64();
    lemma_pow2_adds(134, 15);
    lemma_pow2_adds(128, 21);
    lemma_pow2_pos(134);
    lemma_pow2_pos(128);
    assert(significand(0x43B4_0000) == 11796480);
    assert(exponent(0x43B4_0000) == 134);
    assert(magnitude_of(ROUND) == 0x43B4_0000 && magnitude_of(MINUS_ROUND) == 0x43B4_0000);
    assert(significand(0x40A0_0000) == 10485760);
    assert(exponent(0x40A0_0000) == 128);
    assert(magnitude_of(FIVE) == 0x40A0_0000);
    assert(exact(FIVE) == 5 * one());
    let v = JointLimitType::Limit.values(min, max, friction);
    if finite_bits(v.2) {
        quotients_are_near(friction, FIVE);
    }
}

/// Six digits behind the point: what is printed is the nearest number of millionths.
pub proof fn printed_numbers_are_near(bits: u32)
    requires
        finite_bits(bits),
    ensures
        ({
            let n = millionths(magnitude_of(bits));
            &&& 2 * size(n * one() - units(magnitude_of(bits)) * 1000000) <= one()
            &&& six_decimals(bits) == (if has_sign(bits) {
                "-"@
            } else {
                Seq::<char>::empty()
            }) + decimal(n / 1000000) + "."@ + six_digits(n % 1000000)
        }),
{
    reveal(six_decimals);
    lemma_pow2_pos(149);
    let num = units(magnitude_of(bits)) * 1000000;
    let den = pow2(149);
    vstd::arithmetic::div_mod::lemma_fundamental_div_mod(num as int, den as int);
    let q = num / den;
    let r = num % den;
    let n = half_even(num, den);
    assert(q * den == den * q) by (nonlinear_arith);
    assert((q + 1) * den == q * den + den) by (nonlinear_arith);
}

/// Every corner of a mesh leads to its own place among the points without repeats.
pub proof fn welded_corners_keep_their_places(t: Seq<TriangleView>, f: int, c: int)
    requires
        0 <= f < t.len(),
        0 <= c < 3,
        mesh_points(t).len() <= u32::MAX,
    ensures
        ({
            let points = mesh_points(t);
            let k = welded_face(points, t, f)@[c] as int;
            &&& k < points.len()
            &&& points[k] == t[f].vertices[c].position
            &&& points.no_duplicates()
        }),
{
    let all = corner_points(t, 3 * t.len() as int);
    distinct_holds_each_once(all);
    let e = 3 * f + c;
    assert(e / 3 == f && e % 3 == c);
    assert(all[e] == t[f].vertices[c].position);
    assert(all.contains(all[e]));
    assert(mesh_points(t).contains(all[e]));
    let k = position(mesh_points(t), all[e]);
    assert(0 <= k < mesh_points(t).len() && mesh_points(t)[k] == all[e]);
    assert(corner_of(t, 3 * f + c) == t[f].vertices[c]);
}

/// Of the triangles of a mesh those with three different corners are kept, in their order.
pub proof fn faces_with_three_corners_are_kept(points: Seq<[u32; 3]>, t: Seq<TriangleView>, n: int)
    requires
        0 <= n <= t.len(),
    ensures
        welded_faces(points, t, n) == Seq::new(n as nat, |f: int| welded_face(points, t, f)).filter(
            |f: [u32; 3]| f@[0] != f@[1] && f@[1] != f@[2] && f@[0] != f@[2],
        ),
    decreases n,
{
    reveal(Seq::filter);
    let all = Seq::new(n as nat, |f: int| welded_face(points, t, f));
    let pred = |f: [u32; 3]| f@[0] != f@[1] && f@[1] != f@[2] && f@[0] != f@[2];
    if n > 0 {
        faces_with_three_corners_are_kept(points, t, n - 1);
        assert(all.drop_last() =~= Seq::new((n - 1) as nat, |f: int| welded_face(points, t, f)));
        assert(all.last() == welded_face(points, t, n - 1));
    } else {
        assert(all.filter(pred) =~= Seq::empty());
    }
}

/// A triangle belongs to a bone exactly if one of its corners is linked to it, or to a bone that is
/// merged into it.
pub proof fn bones_own_their_triangles(m: SmdView, merged: Map<i32, i32>, b: i32, n: int, f: u32)
    requires
        0 <= n <= m.triangles.len() <= u32::MAX,
    ensures
        owned(m, merged, b, n).contains(f) <==> f < n && exists|c: int, l: int|
            0 <= c < 3 && 0 <= l < m.triangles[f as int].vertices[c].links.len() && resolved(
                merged,
                (#[trigger] m.triangles[f as int].vertices[c].links[l]).bone,
                merge_steps(m),
            ) == b,
    decreases n,
{
    if n > 0 {
        bones_own_their_triangles(m, merged, b, n - 1, f);
        let before = owned(m, merged, b, n - 1);
        let after = owned(m, merged, b, n);
        let k = n - 1;
        corner_links(m, merged, b, k);
        if owns(m, merged, b, k) {
            assert(after[after.len() - 1] == k as u32);
            assert(before.contains(f) ==> after.contains(f)) by {
                if before.contains(f) {
                    let i = before.index_of(f);
                    assert(after[i] == f);
                }
            }
            assert(after.contains(f) ==> before.contains(f) || f == k) by {
                if after.contains(f) {
                    let i = after.index_of(f);
                    if i < before.len() {
                        assert(before[i] == f);
                    }
                }
            }
            assert(f == k ==> after.contains(f));
        }
    }
}

proof fn corner_links(m: SmdView, merged: Map<i32, i32>, b: i32, f: int)
    requires
        0 <= f < m.triangles.len(),
    ensures
        owns(m, merged, b, f) <==> exists|c: int, l: int|
            0 <= c < 3 && 0 <= l < m.triangles[f].vertices[c].links.len() && resolved(
                merged,
                (#[trigger] m.triangles[f].vertices[c].links[l]).bone,
                merge_steps(m),
            ) == b,
{
    let t = m.triangles;
    assert(corner_of(t, 3 * f) == t[f].vertices[0]) by {
        assert((3 * f) / 3 == f && (3 * f) % 3 == 0);
    }
    assert(corner_of(t, 3 * f + 1) == t[f].vertices[1]) by {
        assert((3 * f + 1) / 3 == f && (3 * f + 1) % 3 == 1);
    }
    assert(corner_of(t, 3 * f + 2) == t[f].vertices[2]) by {
        assert((3 * f + 2) / 3 == f && (3 * f + 2) % 3 == 2);
    }
    if exists|c: int, l: int|
        0 <= c < 3 && 0 <= l < t[f].vertices[c].links.len() && resolved(
            merged,
            (#[trigger] t[f].vertices[c].links[l]).bone,
            merge_steps(m),
        ) == b {
        let (c, l) = choose|c: int, l: int|
            0 <= c < 3 && 0 <= l < t[f].vertices[c].links.len() && resolved(
                merged,
                (#[trigger] t[f].vertices[c].links[l]).bone,
                merge_steps(m),
            ) == b;
        assert(corner_of(t, 3 * f + c).links[l] == t[f].vertices[c].links[l]);
        assert(super::ragdoll::linked_to(m, merged, 3 * f + c, b, 0));
    }
    if super::ragdoll::linked_to(m, merged, 3 * f, b, 0) {
        let l = choose|l: int|
            0 <= l < corner_of(t, 3 * f).links.len() && resolved(
                merged,
                (#[trigger] corner_of(t, 3 * f).links[l]).bone,
                merge_steps(m),
            ) == b;
        assert(resolved(merged, t[f].vertices[0].links[l].bone, merge_steps(m)) == b);
    }
    if super::ragdoll::linked_to(m, merged, 3 * f + 1, b, 0) {
        let l = choose|l: int|
            0 <= l < corner_of(t, 3 * f + 1).links.len() && resolved(
                merged,
                (#[trigger] corner_of(t, 3 * f + 1).links[l]).bone,
                merge_steps(m),
            ) == b;
        assert(resolved(merged, t[f].vertices[1].links[l].bone, merge_steps(m)) == b);
    }
    if super::ragdoll::linked_to(m, merged, 3 * f + 2, b, 0) {
        let l = choose|l: int|
            0 <= l < corner_of(t, 3 * f + 2).links.len() && resolved(
                merged,
                (#[trigger] corner_of(t, 3 * f + 2).links[l]).bone,
                merge_steps(m),
            ) == b;
        assert(resolved(merged, t[f].vertices[2].links[l].bone, merge_steps(m)) == b);
    }
}

/// A bone that is not merged stays itself; one that is merged counts as the bone that it is merged
/// into.
pub proof fn merged_bones_count_as_one(merged: Map<i32, i32>, b: i32, steps: nat)
    requires
        steps > 0,
    ensures
        !merged.contains_key(b) ==> resolved(merged, b, steps) == b,
        merged.contains_key(b) && merged[b] != b && !merged.contains_key(merged[b]) ==> resolved(
            merged,
            b,
            steps,
        ) == merged[b],
{
    reveal_with_fuel(resolved, 3);
}

/// What moves a corner: the names of the bones that it is linked to, by their numbers, with the
/// weights of the links, in the order of the links.
pub proof fn links_become_weights(nodes: Seq<NodeView>, links: Seq<SmdBoneLink>, n: int)
    requires
        0 <= n <= links.len(),
        forall|l: int|
            0 <= l < n ==> node_with(nodes, (#[trigger] links[l]).bone, nodes.len() as int) is Some,
    ensures
        ({
            let w = weights_of(nodes, links, n);
            &&& w.len() == n
            &&& forall|l: int|
                0 <= l < n ==> (#[trigger] w[l]).weight == links[l].weight && exists|k: int|
                    0 <= k < nodes.len() && (#[trigger] nodes[k]).index == links[l].bone
                        && nodes[k].name == w[l].name
        }),
    decreases n,
{
    if n > 0 {
        links_become_weights(nodes, links, n - 1);
        let l = n - 1;
        assert(node_with(nodes, links[l].bone, nodes.len() as int) is Some);
        node_is_found(nodes, links[l].bone, nodes.len() as int);
        let before = weights_of(nodes, links, n - 1);
        let w = weights_of(nodes, links, n);
        assert forall|i: int| 0 <= i < n implies (#[trigger] w[i]).weight == links[i].weight
            && exists|k: int|
            0 <= k < nodes.len() && (#[trigger] nodes[k]).index == links[i].bone && nodes[k].name
                == w[i].name by {
            if i < n - 1 {
                assert(w[i] == before[i]);
            } else {
                let k = node_with(nodes, links[l].bone, nodes.len() as int)->Some_0;
                assert(nodes[k].index == links[i].bone && nodes[k].name == w[i].name);
            }
        }
    }
}

proof fn node_is_found(nodes: Seq<NodeView>, index: i32, n: int)
    requires
        n <= nodes.len(),
    ensures
        node_with(nodes, index, n) matches Some(k) ==> 0 <= k < n && nodes[k].index == index,
        node_with(nodes, index, n) is None ==> forall|k: int|
            0 <= k < n ==> (#[trigger] nodes[k]).index != index,
    decreases n,
{
    if n > 0 {
        node_is_found(nodes, index, n - 1);
    }
}

/// At rest a bone stands where its pose in the first frame says, and hangs from the bone whose
/// number it gives.
pub proof fn bones_rest_as_the_first_frame_says(m: SmdView, i: int)
    requires
        0 <= i < m.nodes.len() <= i32::MAX,
    ensures
        ({
            let b = rest_bones(m)[i];
            &&& rest_bones(m).len() == m.nodes.len()
            &&& b.name == m.nodes[i].name
            &&& m.frames.len() > 0 && i < m.frames[0].poses.len() ==> b.position
                == m.frames[0].poses[i].position && b.rotation == m.frames[0].poses[i].rotation
            &&& m.nodes[i].parent < 0 ==> b.parent == -1
            &&& b.parent >= 0 ==> b.parent < m.nodes.len() && m.nodes[b.parent as int].index
                == m.nodes[i].parent
            &&& b.parent < 0 && m.nodes[i].parent >= 0 ==> forall|k: int|
                0 <= k < m.nodes.len() ==> (#[trigger] m.nodes[k]).index != m.nodes[i].parent
        }),
{
    node_is_found(m.nodes, m.nodes[i].parent, m.nodes.len() as int);
}

/// In a sequence a bone stands where its pose in the frame says.
pub proof fn bones_stand_as_the_frame_says(bones: Seq<BoneView>, frame: Seq<SmdPose>, i: int)
    requires
        0 <= i < bones.len(),
    ensures
        posed_bones(bones, frame).len() == bones.len(),
        posed_bones(bones, frame)[i].name == bones[i].name,
        i < frame.len() ==> posed_bones(bones, frame)[i].position == frame[i].position
            && posed_bones(bones, frame)[i].rotation == frame[i].rotation,
        i >= frame.len() ==> (bones[i].position matches Some(p) ==> posed_bones(
            bones,
            frame,
        )[i].position@ == seq![p.x, p.y, p.z]),
{
    if bones[i].position is Some && i >= frame.len() {
        let p = bones[i].position->Some_0;
        assert([p.x, p.y, p.z]@ =~= seq![p.x, p.y, p.z]);
    }
}

} // verus!
