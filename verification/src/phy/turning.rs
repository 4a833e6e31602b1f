//! What the matrices of bones do to points.
use vstd::arithmetic::power2::lemma_pow2_pos;
use vstd::prelude::*;

use super::pose::BoneWeightView;
use super::world::{carried, matrix_of, transformed, world_place, BoneMatrixView, RestPose};
use crate::across::{adding_nothing, exact_stays, no_units, one, size};
use crate::arith::{exact, product, sum};
use crate::near::{dots_are_near, finite_bits, scaled_sums_are_near, size_of_sum, turned_error};
use crate::seqs::viewed;
use crate::single::{magnitude_of, units};
use crate::tangent::triple;

verus! {

/// Coordinate `i` of a vector.
pub open spec fn coordinate(p: (u32, u32, u32), i: int) -> u32 {
    if i == 0 {
        p.0
    } else if i == 1 {
        p.1
    } else {
        p.2
    }
}

/// All numbers of a matrix are finite.
pub open spec fn finite_matrix(m: Seq<u32>) -> bool {
    m.len() == 12 && forall|k: int| 0 <= k < 12 ==> finite_bits(#[trigger] m[k])
}

/// All coordinates of a point are finite.
pub open spec fn finite_point(p: (u32, u32, u32)) -> bool {
    finite_bits(p.0) && finite_bits(p.1) && finite_bits(p.2)
}

/// What stands exactly at row `i` of a matrix times a point, in units squared: the sum of the
/// products along the row, and the last number of the row.
pub open spec fn exact_row(m: Seq<u32>, i: int, p: (u32, u32, u32)) -> int {
    exact(m[4 * i]) * exact(p.0) + exact(m[4 * i + 1]) * exact(p.1) + exact(m[4 * i + 2]) * exact(
        p.2,
    ) + exact(m[4 * i + 3]) * one()
}

/// Coordinate `i` of where a matrix takes a point is row `i` times the point, but for a rounding
/// error: about a millionth part of the products, and a few of the smallest numbers.
pub proof fn rows_times_points(m: Seq<u32>, p: (u32, u32, u32), i: int)
    requires
        m.len() == 12,
        0 <= i < 3,
        finite_bits(coordinate(transformed(m, p), i)),
    ensures
        ({
            let r = exact(coordinate(transformed(m, p), i)) * one();
            let (x, y, z, w) = (
                exact(m[4 * i]) * exact(p.0),
                exact(m[4 * i + 1]) * exact(p.1),
                exact(m[4 * i + 2]) * exact(p.2),
                exact(m[4 * i + 3]) * one(),
            );
            900000 * size(r - exact_row(m, i, p)) <= size(x) + size(y) + size(z) + size(w)
                + 16777216 * one()
        }),
{
    lemma_pow2_pos(149);
    let a = (m[4 * i], m[4 * i + 1], m[4 * i + 2]);
    let d = sum(sum(product(a.0, p.0), product(a.1, p.1)), product(a.2, p.2));
    assert(coordinate(transformed(m, p), i) == sum(d, m[4 * i + 3]));
    scaled_sums_are_near(d, m[4 * i + 3]);
    dots_are_near(a, p);
    let (x, y, z, w) = (
        exact(a.0) * exact(p.0),
        exact(a.1) * exact(p.1),
        exact(a.2) * exact(p.2),
        exact(m[4 * i + 3]) * one(),
    );
    let (e, f) = (exact(d) * one(), exact(sum(d, m[4 * i + 3])) * one());
    turned_error(f, e + w, 8388608 * one());
    let c = e - (x + y + z);
    size_of_sum(x, y);
    size_of_sum(x + y, z);
    size_of_sum(x + y + z, w);
    size_of_sum(x + y + z + w, c);
    assert(e + w == (x + y + z + w) + c);
    size_of_sum(c, f - (e + w));
    assert(f - (x + y + z + w) == c + (f - (e + w)));
    bounded(
        size(x) + size(y) + size(z),
        size(w),
        size(c),
        size(e + w),
        size(f - (e + w)),
        8388608 * one(),
        size(f - (x + y + z + w)),
    );
}

proof fn bounded(x: int, w: int, c: int, ew: int, g: int, h: int, e: int)
    requires
        0 <= x && 0 <= w && 0 <= c && 0 <= h,
        1048576 * c <= x + h,
        16777215 * g <= ew + h,
        ew <= x + w + c,
        e <= c + g,
    ensures
        900000 * e <= x + w + h + h,
{
}

/// A product with nothing is nothing, on either side.
proof fn nothing_times(a: u32, b: u32)
    requires
        finite_bits(a),
        finite_bits(b),
        exact(a) == 0 || exact(b) == 0,
    ensures
        finite_bits(product(a, b)),
        exact(product(a, b)) == 0,
{
    reveal(product);
    no_units();
    if magnitude_of(a) > 0 {
        crate::across::units_grow(0, magnitude_of(a));
    }
    if magnitude_of(b) > 0 {
        crate::across::units_grow(0, magnitude_of(b));
    }
    crate::arith::zero_times_anything(a, b);
}

/// A row with a single number picks one coordinate of a point: it takes the point to the product
/// of the two and the last number of the row, and no other coordinate counts. So a turn by a right
/// angle takes each coordinate where it belongs.
pub proof fn single_numbers_pick_coordinates(m: Seq<u32>, p: (u32, u32, u32), i: int, j: int)
    requires
        finite_matrix(m),
        finite_point(p),
        0 <= i < 3,
        0 <= j < 3,
        forall|k: int| 0 <= k < 3 && k != j ==> exact(#[trigger] m[4 * i + k]) == 0,
        finite_bits(product(m[4 * i + j], coordinate(p, j))),
    ensures
        exact(m[4 * i + 3]) == 0 ==> exact(coordinate(transformed(m, p), i)) == exact(
            product(m[4 * i + j], coordinate(p, j)),
        ),
        exact(m[4 * i + j]) == one() && exact(m[4 * i + 3]) == 0 ==> exact(
            coordinate(transformed(m, p), i),
        ) == exact(coordinate(p, j)),
        exact(m[4 * i + j]) == -one() && exact(m[4 * i + 3]) == 0 ==> exact(
            coordinate(transformed(m, p), i),
        ) == -exact(coordinate(p, j)),
        exact(m[4 * i + j]) == 0 ==> exact(coordinate(transformed(m, p), i)) == exact(m[4 * i + 3]),
{
    let a = m[4 * i + 0];
    let b = m[4 * i + 1];
    let c = m[4 * i + 2];
    let t = m[4 * i + 3];
    let (x, y, z) = (product(a, p.0), product(b, p.1), product(c, p.2));
    if j != 0 {
        assert(exact(m[4 * i + 0]) == 0);
        nothing_times(a, p.0);
    }
    if j != 1 {
        assert(exact(m[4 * i + 1]) == 0);
        nothing_times(b, p.1);
    }
    if j != 2 {
        assert(exact(m[4 * i + 2]) == 0);
        nothing_times(c, p.2);
    }
    if exact(m[4 * i + j]) == 0 {
        nothing_times(m[4 * i + j], coordinate(p, j));
    }
    adding_nothing(x, y);
    adding_nothing(sum(x, y), z);
    let d = sum(sum(x, y), z);
    assert(exact(d) == exact(product(m[4 * i + j], coordinate(p, j))));
    if exact(t) == 0 || exact(d) == 0 {
        adding_nothing(d, t);
    }
    signed_one_times(m[4 * i + j], coordinate(p, j));
}

/// One or minus one times a number.
proof fn signed_one_times(a: u32, x: u32)
    requires
        finite_bits(a),
        finite_bits(x),
    ensures
        exact(a) == one() ==> exact(product(a, x)) == exact(x),
        exact(a) == -one() ==> exact(product(a, x)) == -exact(x),
{
    reveal(product);
    lemma_pow2_pos(149);
    lemma_pow2_pos(298);
    vstd::arithmetic::power2::lemma_pow2_adds(149, 149);
    if exact(a) == one() || exact(a) == -one() {
        let b = vstd::arithmetic::power2::pow2(149);
        let u = units(magnitude_of(x));
        assert(units(magnitude_of(a)) == b);
        assert(b * u * b == u * (b * b)) by (nonlinear_arith);
        exact_stays(b * u, vstd::arithmetic::power2::pow2(298), magnitude_of(x));
        no_units();
    }
}

/// The corner of the unit cube on axis `j` goes to column `j`, moved by the last column.
pub proof fn axes_go_to_columns(m: Seq<u32>, e: (u32, u32, u32), i: int, j: int)
    requires
        finite_matrix(m),
        finite_point(e),
        0 <= i < 3,
        0 <= j < 3,
        exact(coordinate(e, j)) == one(),
        forall|k: int| 0 <= k < 3 && k != j ==> exact(#[trigger] coordinate(e, k)) == 0,
    ensures
        exact(m[4 * i + 3]) == 0 ==> exact(coordinate(transformed(m, e), i)) == exact(
            m[4 * i + j],
        ),
        exact(m[4 * i + j]) == 0 ==> exact(coordinate(transformed(m, e), i)) == exact(
            m[4 * i + 3],
        ),
{
    let a = m[4 * i + 0];
    let b = m[4 * i + 1];
    let c = m[4 * i + 2];
    let t = m[4 * i + 3];
    assert(finite_bits(a) && finite_bits(b) && finite_bits(c) && finite_bits(t));
    assert(j != 0 ==> exact(coordinate(e, 0)) == 0);
    assert(j != 1 ==> exact(coordinate(e, 1)) == 0);
    assert(j != 2 ==> exact(coordinate(e, 2)) == 0);
    if j != 0 {
        nothing_times(a, e.0);
    }
    if j != 1 {
        nothing_times(b, e.1);
    }
    if j != 2 {
        nothing_times(c, e.2);
    }
    let n = m[4 * i + j];
    let o = coordinate(e, j);
    crate::arith::multiplying_commutes(n, o);
    signed_one_times(o, n);
    finite_with_one(o, n);
    let (x, y, z) = (product(a, e.0), product(b, e.1), product(c, e.2));
    adding_nothing(x, y);
    adding_nothing(sum(x, y), z);
    let d = sum(sum(x, y), z);
    if exact(t) == 0 || exact(d) == 0 {
        adding_nothing(d, t);
    }
}

proof fn finite_with_one(a: u32, x: u32)
    requires
        finite_bits(a),
        finite_bits(x),
        exact(a) == one(),
    ensures
        finite_bits(product(a, x)),
{
    reveal(product);
    lemma_pow2_pos(149);
    lemma_pow2_pos(298);
    vstd::arithmetic::power2::lemma_pow2_adds(149, 149);
    let b = vstd::arithmetic::power2::pow2(149);
    let u = units(magnitude_of(x));
    assert(units(magnitude_of(a)) == b) by {
        no_units();
    }
    assert(b * u * b == u * (b * b)) by (nonlinear_arith);
    exact_stays(b * u, vstd::arithmetic::power2::pow2(298), magnitude_of(x));
}

/// A bone that rests where it is made, and that alone moves a point, takes the point where the pose
/// takes it: each coordinate that a row of the pose picks is that coordinate of the point.
pub proof fn one_bone_takes_its_points(
    p: [u32; 3],
    links: Seq<BoneWeightView>,
    rest: RestPose,
    pose: Seq<BoneMatrixView>,
    i: int,
    j: int,
)
    requires
        links.len() == 1,
        exact(links[0].weight) == one(),
        finite_bits(links[0].weight),
        matrix_of(viewed(rest.inverse@), links[0].name) is None,
        matrix_of(pose, links[0].name) matches Some(m) && finite_matrix(m) && (forall|k: int|
            0 <= k < 4 && k != j ==> exact(#[trigger] m[4 * i + k]) == 0) && exact(m[4 * i + j])
            == one(),
        finite_point(triple(p)),
        0 <= i < 3,
        0 <= j < 3,
    ensures
        exact(coordinate(world_place(p, links, rest, pose), i)) == exact(coordinate(triple(p), j)),
{
    let m = matrix_of(pose, links[0].name)->Some_0;
    let q = triple(p);
    assert(exact(m[4 * i + 3]) == 0);
    finite_with_one(m[4 * i + j], coordinate(q, j));
    single_numbers_pick_coordinates(m, q, i, j);
    let w = transformed(m, q);
    finite_image(m, q, i, j);
    signed_one_times(links[0].weight, coordinate(w, i));
    finite_with_one(links[0].weight, coordinate(w, i));
    no_units();
    adding_nothing(0, product(links[0].weight, coordinate(w, i)));
    reveal_with_fuel(super::world::blended, 2);
    assert(carried(q, links[0].name, rest, pose) == w);
}

proof fn finite_image(m: Seq<u32>, p: (u32, u32, u32), i: int, j: int)
    requires
        finite_matrix(m),
        finite_point(p),
        0 <= i < 3,
        0 <= j < 3,
        forall|k: int| 0 <= k < 4 && k != j ==> exact(#[trigger] m[4 * i + k]) == 0,
        finite_bits(product(m[4 * i + j], coordinate(p, j))),
    ensures
        finite_bits(coordinate(transformed(m, p), i)),
{
    let (a, b, c, t) = (m[4 * i + 0], m[4 * i + 1], m[4 * i + 2], m[4 * i + 3]);
    assert(finite_bits(a) && finite_bits(b) && finite_bits(c) && finite_bits(t));
    if j != 0 {
        nothing_times(a, p.0);
    }
    if j != 1 {
        nothing_times(b, p.1);
    }
    if j != 2 {
        nothing_times(c, p.2);
    }
    let (x, y, z) = (product(a, p.0), product(b, p.1), product(c, p.2));
    adding_nothing(x, y);
    adding_nothing(sum(x, y), z);
    adding_nothing(sum(sum(x, y), z), t);
}

} // verus!
