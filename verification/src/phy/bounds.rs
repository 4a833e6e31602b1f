//! Bounding boxes of hulls and of tree nodes.
use vstd::prelude::*;

use super::solid::{
    finite_point, hull_good, names_point, prepares, prepares_hull, tri_point, tri_points_exist,
    tris_over_all_points, HullView, PreparedHull, PreparedSolid,
};
use super::surface::NodeGeometry;
use super::tree::{tree, TreeNode};
use crate::arith::{below, difference, less, minus, sqrt};
use crate::double;
use crate::single::{is_finite, larger, max, min, smaller, INFINITE};
use crate::tangent::{dot, length};

verus! {

/// The number one half in double precision.
pub const HALF: u64 = 0x3FE0_0000_0000_0000;

/// The steps of a box along an axis are this part (`1 / 250`) of the radius.
pub const BOUNDINGBOX_STEP: u64 = 0x3F70_624D_D2F1_A9FC;

/// The bit pattern of negative infinity.
pub const MINUS_INFINITE: u32 = 0xFF80_0000;

/// A box: its least and its greatest coordinates.
#[derive(Debug, Clone, Copy)]
pub struct Bounds {
    /// The least coordinates.
    pub low: [u32; 3],
    /// The greatest coordinates.
    pub high: [u32; 3],
}

/// The box as a mathematical value.
#[verifier::ext_equal]
pub struct BoundsView {
    /// The least coordinates.
    pub low: Seq<u32>,
    /// The greatest coordinates.
    pub high: Seq<u32>,
}

impl View for Bounds {
    type V = BoundsView;

    open spec fn view(&self) -> BoundsView {
        BoundsView { low: self.low@, high: self.high@ }
    }
}

/// The least number along an axis among the first `n` of the points that `used` names.
pub open spec fn least(points: Seq<[u32; 3]>, used: Seq<u32>, axis: int, n: int) -> u32
    decreases n,
{
    if n <= 1 {
        points[used[0] as int]@[axis]
    } else {
        let v = points[used[n - 1] as int]@[axis];
        let before = least(points, used, axis, n - 1);
        if below(v, before) {
            v
        } else {
            before
        }
    }
}

/// The greatest number along an axis among the first `n` of the points that `used` names.
pub open spec fn greatest(points: Seq<[u32; 3]>, used: Seq<u32>, axis: int, n: int) -> u32
    decreases n,
{
    if n <= 1 {
        points[used[0] as int]@[axis]
    } else {
        let v = points[used[n - 1] as int]@[axis];
        let before = greatest(points, used, axis, n - 1);
        if below(before, v) {
            v
        } else {
            before
        }
    }
}

/// The box around the first `n` of the points that `used` names.
pub open spec fn box_around(points: Seq<[u32; 3]>, used: Seq<u32>, n: int) -> BoundsView {
    BoundsView {
        low: seq![
            least(points, used, 0, n),
            least(points, used, 1, n),
            least(points, used, 2, n),
        ],
        high: seq![
            greatest(points, used, 0, n),
            greatest(points, used, 1, n),
            greatest(points, used, 2, n),
        ],
    }
}

/// The box around two boxes.
pub open spec fn box_of_both(a: BoundsView, b: BoundsView) -> BoundsView {
    BoundsView {
        low: seq![
            smaller(a.low[0], b.low[0]),
            smaller(a.low[1], b.low[1]),
            smaller(a.low[2], b.low[2]),
        ],
        high: seq![
            larger(a.high[0], b.high[0]),
            larger(a.high[1], b.high[1]),
            larger(a.high[2], b.high[2]),
        ],
    }
}

/// The box around hull `h` of a solid.
pub open spec fn hull_box(p: PreparedSolid, h: int) -> BoundsView {
    box_around(p.points@, p.hulls@[h].used@, p.hulls@[h].used@.len() as int)
}

/// The box around the hulls `first .. first + count` of a solid: that around one half of them and
/// the other.
pub open spec fn range_box(p: PreparedSolid, first: nat, count: nat) -> BoundsView
    decreases count,
{
    if count <= 1 {
        hull_box(p, first as int)
    } else {
        box_of_both(
            range_box(p, first, count / 2),
            range_box(p, first + count / 2, (count - count / 2) as nat),
        )
    }
}

/// Half of a box along an axis.
pub open spec fn half_size(b: BoundsView, axis: int) -> u64 {
    double::product(
        double::difference(double::widened(b.high[axis]), double::widened(b.low[axis])),
        HALF,
    )
}

/// The middle of a box along an axis.
pub open spec fn middle_of(b: BoundsView, axis: int) -> u32 {
    double::narrowed(
        double::product(
            double::sum(double::widened(b.low[axis]), double::widened(b.high[axis])),
            HALF,
        ),
    )
}

/// The distance from the middle of a box to its corners.
pub open spec fn radius_of(b: BoundsView) -> u32 {
    let x = half_size(b, 0);
    let y = half_size(b, 1);
    let z = half_size(b, 2);
    double::narrowed(
        double::root(
            double::sum(
                double::sum(double::product(x, x), double::product(y, y)),
                double::product(z, z),
            ),
        ),
    )
}

/// One more than the whole part of a number, as far as a byte holds it; 0 for NaN.
pub open spec fn steps(v: u64) -> u8 {
    let w = double::whole(double::magnitude_of(v));
    if double::is_nan(v) {
        0
    } else if double::has_sign(v) {
        if w == 0 && !double::is_infinite(v) {
            1
        } else {
            0
        }
    } else if w >= 254 || double::is_infinite(v) {
        255
    } else {
        (w + 1) as u8
    }
}

/// Half of a box along an axis, in steps that reach it.
pub open spec fn half_steps(b: BoundsView, axis: int) -> u8 {
    let r = radius_of(b);
    if below(0, r) {
        steps(
            double::quotient(
                half_size(b, axis),
                double::product(double::widened(r), BOUNDINGBOX_STEP),
            ),
        )
    } else {
        0
    }
}

/// `g` measures the box `b`.
pub open spec fn measures_box(g: NodeGeometry, b: BoundsView) -> bool {
    &&& g.center@ == seq![middle_of(b, 0), middle_of(b, 1), middle_of(b, 2)]
    &&& g.radius == radius_of(b)
    &&& g.box_sizes@ == seq![half_steps(b, 0), half_steps(b, 1), half_steps(b, 2)]
}

/// One more than the whole part of a number, as far as a byte holds it; 0 for NaN.
fn count_steps(v: u64) -> (r: u8)
    ensures
        r == steps(v),
{
    let m: u64 = v % 0x8000_0000_0000_0000;
    if m > double::INFINITE {
        return 0;
    }
    if m == double::INFINITE {
        return if v >= 0x8000_0000_0000_0000 {
            0
        } else {
            255
        };
    }
    let w: u8 = double::whole_byte(m);
    if v >= 0x8000_0000_0000_0000 {
        if w == 0 {
            1
        } else {
            0
        }
    } else if w >= 254 {
        255
    } else {
        w + 1
    }
}

/// Half of a box along an axis.
fn half_of(low: u32, high: u32) -> (r: u64)
    ensures
        r == double::product(double::difference(double::widened(high), double::widened(low)), HALF),
{
    double::times(double::minus(double::widen(high), double::widen(low)), HALF)
}

/// The middle between two numbers.
fn center_of(low: u32, high: u32) -> (r: u32)
    ensures
        r == double::narrowed(
            double::product(double::sum(double::widened(low), double::widened(high)), HALF),
        ),
{
    double::narrow(double::times(double::plus(double::widen(low), double::widen(high)), HALF))
}

/// The middle, the radius and the steps of a box.
pub fn node_geometry(b: Bounds) -> (r: NodeGeometry)
    ensures
        measures_box(r, b@),
{
    let x: u64 = half_of(b.low[0], b.high[0]);
    let y: u64 = half_of(b.low[1], b.high[1]);
    let z: u64 = half_of(b.low[2], b.high[2]);
    let center: [u32; 3] = [
        center_of(b.low[0], b.high[0]),
        center_of(b.low[1], b.high[1]),
        center_of(b.low[2], b.high[2]),
    ];
    let square: u64 = double::plus(
        double::plus(double::times(x, x), double::times(y, y)),
        double::times(z, z),
    );
    let radius: u32 = double::narrow(double::sqrt(square));
    let mut box_sizes: [u8; 3] = [0, 0, 0];
    if less(0, radius) {
        let step: u64 = double::times(double::widen(radius), BOUNDINGBOX_STEP);
        box_sizes = [
            count_steps(double::over(x, step)),
            count_steps(double::over(y, step)),
            count_steps(double::over(z, step)),
        ];
    }
    let r: NodeGeometry = NodeGeometry { center, radius, box_sizes };
    assert(r.center@ =~= seq![middle_of(b@, 0), middle_of(b@, 1), middle_of(b@, 2)]);
    assert(r.box_sizes@ =~= seq![half_steps(b@, 0), half_steps(b@, 1), half_steps(b@, 2)]);
    r
}

/// The least number along an axis among the first `n` of the points that `used` names; NaN does
/// not count, and infinity stands where there is none.
pub open spec fn lowest(points: Seq<[u32; 3]>, used: Seq<u32>, axis: int, n: int) -> u32
    decreases n,
{
    if n <= 0 {
        INFINITE
    } else {
        let v = points[used[n - 1] as int]@[axis];
        let before = lowest(points, used, axis, n - 1);
        if below(v, before) {
            v
        } else {
            before
        }
    }
}

/// The greatest number along an axis among the first `n` of the points that `used` names; NaN does
/// not count, and negative infinity stands where there is none.
pub open spec fn highest(points: Seq<[u32; 3]>, used: Seq<u32>, axis: int, n: int) -> u32
    decreases n,
{
    if n <= 0 {
        MINUS_INFINITE
    } else {
        let v = points[used[n - 1] as int]@[axis];
        let before = highest(points, used, axis, n - 1);
        if below(before, v) {
            v
        } else {
            before
        }
    }
}

/// The box around the first `n` of the points that `used` names, whether they are numbers or not.
pub open spec fn open_box(points: Seq<[u32; 3]>, used: Seq<u32>, n: int) -> BoundsView {
    BoundsView {
        low: seq![
            lowest(points, used, 0, n),
            lowest(points, used, 1, n),
            lowest(points, used, 2, n),
        ],
        high: seq![
            highest(points, used, 0, n),
            highest(points, used, 1, n),
            highest(points, used, 2, n),
        ],
    }
}

/// The box around the points that `used` names, whether they are numbers or not.
pub fn box_of_points(points: &Vec<[u32; 3]>, used: &Vec<u32>) -> (r: Bounds)
    requires
        forall|i: int| 0 <= i < used@.len() ==> #[trigger] used@[i] < points@.len(),
    ensures
        r@ == open_box(points@, used@, used@.len() as int),
{
    let mut low: [u32; 3] = [INFINITE, INFINITE, INFINITE];
    let mut high: [u32; 3] = [MINUS_INFINITE, MINUS_INFINITE, MINUS_INFINITE];
    let mut i: usize = 0;
    assert(low@ =~= open_box(points@, used@, 0).low);
    assert(high@ =~= open_box(points@, used@, 0).high);
    while i < used.len()
        invariant
            i <= used@.len(),
            forall|i: int| 0 <= i < used@.len() ==> #[trigger] used@[i] < points@.len(),
            low@ == open_box(points@, used@, i as int).low,
            high@ == open_box(points@, used@, i as int).high,
        decreases used@.len() - i,
    {
        assert(used@[i as int] < points@.len());
        let p: [u32; 3] = points[used[i] as usize];
        low = lower_of(low, p);
        high = higher_of(high, p);
        i = i + 1;
        assert(low@ =~= open_box(points@, used@, i as int).low);
        assert(high@ =~= open_box(points@, used@, i as int).high);
    }
    Bounds { low, high }
}

/// Around points that are finite numbers both boxes are the same.
pub proof fn boxes_agree(points: Seq<[u32; 3]>, used: Seq<u32>, n: int)
    requires
        1 <= n <= used.len(),
        forall|i: int|
            0 <= i < used.len() ==> finite_point(points[#[trigger] used[i] as int]),
    ensures
        open_box(points, used, n) == box_around(points, used, n),
    decreases n,
{
    assert(finite_point(points[used[n - 1] as int]));
    if n > 1 {
        boxes_agree(points, used, n - 1);
        let a = open_box(points, used, n - 1);
        let b = box_around(points, used, n - 1);
        assert(a.low[0] == b.low[0] && a.low[1] == b.low[1] && a.low[2] == b.low[2]);
        assert(a.high[0] == b.high[0] && a.high[1] == b.high[1] && a.high[2] == b.high[2]);
    } else {
        let p = points[used[0] as int];
        reveal_with_fuel(lowest, 2);
        reveal_with_fuel(highest, 2);
        assert forall|axis: int| 0 <= axis < 3 implies #[trigger] lowest(points, used, axis, 1)
            == p@[axis] && highest(points, used, axis, 1) == p@[axis] by {
            finite_is_between(p@[axis]);
        }
        assert(lowest(points, used, 0, 1) == p@[0]);
        assert(lowest(points, used, 1, 1) == p@[1]);
        assert(lowest(points, used, 2, 1) == p@[2]);
    }
    assert(open_box(points, used, n).low =~= box_around(points, used, n).low);
    assert(open_box(points, used, n).high =~= box_around(points, used, n).high);
}

/// A finite number lies between the infinities.
proof fn finite_is_between(v: u32)
    requires
        is_finite(v),
    ensures
        below(v, INFINITE),
        below(MINUS_INFINITE, v),
{
    let m = v % 0x8000_0000;
    assert(m < INFINITE) by {
        if m >= INFINITE {
            assert((v / 8388608) % 256 == 255);
        }
    }
}

/// The less of two numbers on each axis.
fn lower_of(a: [u32; 3], p: [u32; 3]) -> (r: [u32; 3])
    ensures
        forall|axis: int|
            0 <= axis < 3 ==> #[trigger] r@[axis] == (if below(p@[axis], a@[axis]) {
                p@[axis]
            } else {
                a@[axis]
            }),
{
    [
        if less(p[0], a[0]) {
            p[0]
        } else {
            a[0]
        },
        if less(p[1], a[1]) {
            p[1]
        } else {
            a[1]
        },
        if less(p[2], a[2]) {
            p[2]
        } else {
            a[2]
        },
    ]
}

/// The greater of two numbers on each axis.
fn higher_of(a: [u32; 3], p: [u32; 3]) -> (r: [u32; 3])
    ensures
        forall|axis: int|
            0 <= axis < 3 ==> #[trigger] r@[axis] == (if below(a@[axis], p@[axis]) {
                p@[axis]
            } else {
                a@[axis]
            }),
{
    [
        if less(a[0], p[0]) {
            p[0]
        } else {
            a[0]
        },
        if less(a[1], p[1]) {
            p[1]
        } else {
            a[1]
        },
        if less(a[2], p[2]) {
            p[2]
        } else {
            a[2]
        },
    ]
}

/// Each hull has points, and all of them exist.
pub open spec fn points_exist(p: PreparedSolid) -> bool {
    forall|h: int| 0 <= h < p.hulls@.len() ==> hull_points_exist(#[trigger] p.hulls@[h], p)
}

/// A hull has points, and all of them are among those of the solid.
pub open spec fn hull_points_exist(q: PreparedHull, p: PreparedSolid) -> bool {
    &&& q.used@.len() > 0
    &&& forall|i: int| 0 <= i < q.used@.len() ==> #[trigger] q.used@[i] < p.points@.len()
}

/// Whatever hulls a solid was prepared from, its points exist.
pub proof fn prepared_points_exist(p: PreparedSolid, hulls: Seq<HullView>)
    requires
        prepares(p, hulls),
    ensures
        points_exist(p),
{
    let n = hulls.len() as int;
    assert forall|h: int| 0 <= h < p.hulls@.len() implies hull_points_exist(
        #[trigger] p.hulls@[h],
        p,
    ) by {
        let q = p.hulls@[h];
        assert(prepares_hull(q, hulls, h));
        assert(hull_good(hulls, h));
        tris_over_all_points(hulls, h, n);
        tri_points_exist(hulls, h, 0);
        assert(names_point(q.tris@, tri_point(q.tris@, 0)));
        assert(q.used@.contains(tri_point(q.tris@, 0)));
        assert forall|i: int| 0 <= i < q.used@.len() implies #[trigger] q.used@[i]
            < p.points@.len() by {
            assert(q.used@.contains(q.used@[i]));
            assert(names_point(q.tris@, q.used@[i]));
            let e = choose|e: int|
                0 <= e < 3 * q.tris@.len() && #[trigger] tri_point(q.tris@, e) == q.used@[i];
            tri_points_exist(hulls, h, e);
        }
    }
}

/// The box around the points that `used` names.
pub fn aabb_of(points: &Vec<[u32; 3]>, used: &Vec<u32>) -> (r: Bounds)
    requires
        used@.len() > 0,
        forall|i: int| 0 <= i < used@.len() ==> #[trigger] used@[i] < points@.len(),
    ensures
        r@ == box_around(points@, used@, used@.len() as int),
{
    assert(used@[0] < points@.len());
    let first: [u32; 3] = points[used[0] as usize];
    let mut low: [u32; 3] = first;
    let mut high: [u32; 3] = first;
    let mut i: usize = 1;
    assert(low@ =~= box_around(points@, used@, 1).low);
    assert(high@ =~= box_around(points@, used@, 1).high);
    while i < used.len()
        invariant
            1 <= i <= used@.len(),
            forall|i: int| 0 <= i < used@.len() ==> #[trigger] used@[i] < points@.len(),
            low@ == box_around(points@, used@, i as int).low,
            high@ == box_around(points@, used@, i as int).high,
        decreases used@.len() - i,
    {
        assert(used@[i as int] < points@.len());
        let p: [u32; 3] = points[used[i] as usize];
        low = lower_of(low, p);
        high = higher_of(high, p);
        i = i + 1;
        assert(low@ =~= box_around(points@, used@, i as int).low);
        assert(high@ =~= box_around(points@, used@, i as int).high);
    }
    Bounds { low, high }
}

/// The box around two boxes.
fn join_boxes(a: Bounds, b: Bounds) -> (r: Bounds)
    ensures
        r@ == box_of_both(a@, b@),
{
    let low: [u32; 3] = [
        min(a.low[0], b.low[0]),
        min(a.low[1], b.low[1]),
        min(a.low[2], b.low[2]),
    ];
    let high: [u32; 3] = [
        max(a.high[0], b.high[0]),
        max(a.high[1], b.high[1]),
        max(a.high[2], b.high[2]),
    ];
    let r: Bounds = Bounds { low, high };
    assert(r@ =~= box_of_both(a@, b@));
    r
}

/// The box around the hulls `first .. first + count` of a solid.
fn box_of_range(p: &PreparedSolid, first: usize, count: usize) -> (r: Bounds)
    requires
        points_exist(*p),
        count >= 1,
        first + count <= p.hulls@.len(),
    ensures
        r@ == range_box(*p, first as nat, count as nat),
    decreases count,
{
    if count == 1 {
        assert(hull_points_exist(p.hulls@[first as int], *p));
        return aabb_of(&p.points, &p.hulls[first].used);
    }
    let total: usize = p.hulls.len();
    let mid: usize = count / 2;
    assert(first + mid <= total);
    let a: Bounds = box_of_range(p, first, mid);
    let b: Bounds = box_of_range(p, first + mid, count - mid);
    join_boxes(a, b)
}

/// A node is over hulls that exist.
pub open spec fn node_in_range(t: TreeNode, first: nat, count: nat) -> bool {
    t.count >= 1 && first <= t.first && t.first + t.count <= first + count
}

/// The nodes of a tree are over the hulls that the tree is over.
pub proof fn nodes_in_range(first: nat, count: nat)
    requires
        count >= 1,
        first + count <= usize::MAX,
    ensures
        forall|i: int|
            0 <= i < tree(first, count).len() ==> node_in_range(
                #[trigger] tree(first, count)[i],
                first,
                count,
            ),
    decreases count,
{
    if count > 1 {
        let mid = count / 2;
        let left = tree(first, mid);
        let right = tree(first + mid, (count - mid) as nat);
        nodes_in_range(first, mid);
        nodes_in_range(first + mid, (count - mid) as nat);
        let all = tree(first, count);
        assert forall|i: int| 0 <= i < all.len() implies node_in_range(
            #[trigger] all[i],
            first,
            count,
        ) by {
            if 0 < i <= left.len() {
                assert(all[i] == left[i - 1]);
            } else if i > 0 {
                assert(all[i] == right[i - 1 - left.len()]);
            }
        }
    }
}

/// `g` measures the boxes of the first `n` tree nodes of a solid.
pub open spec fn measures_nodes(g: Seq<NodeGeometry>, p: PreparedSolid, n: int) -> bool {
    forall|i: int|
        0 <= i < n ==> measures_box(
            #[trigger] g[i],
            range_box(p, p.nodes@[i].first as nat, p.nodes@[i].count as nat),
        )
}

/// The measures of the tree nodes of a solid.
pub fn measure_nodes(p: &PreparedSolid) -> (r: Vec<NodeGeometry>)
    requires
        points_exist(*p),
        p.hulls@.len() > 0,
        p.nodes@ == tree(0, p.hulls@.len()),
    ensures
        r@.len() == p.nodes@.len(),
        measures_nodes(r@, *p, r@.len() as int),
{
    let mut out: Vec<NodeGeometry> = Vec::new();
    let total: usize = p.hulls.len();
    proof {
        nodes_in_range(0, total as nat);
    }
    let mut i: usize = 0;
    while i < p.nodes.len()
        invariant
            i <= p.nodes@.len(),
            points_exist(*p),
            forall|i: int|
                0 <= i < p.nodes@.len() ==> node_in_range(
                    #[trigger] p.nodes@[i],
                    0,
                    p.hulls@.len(),
                ),
            out@.len() == i,
            measures_nodes(out@, *p, i as int),
        decreases p.nodes@.len() - i,
    {
        let t: TreeNode = p.nodes[i];
        assert(node_in_range(p.nodes@[i as int], 0, p.hulls@.len()));
        let ghost before = out@;
        out.push(node_geometry(box_of_range(p, t.first, t.count)));
        i = i + 1;
        assert forall|j: int| 0 <= j < i implies measures_box(
            #[trigger] out@[j],
            range_box(*p, p.nodes@[j].first as nat, p.nodes@[j].count as nat),
        ) by {
            if j < i - 1 {
                assert(out@[j] == before[j]);
            }
        }
    }
    out
}

/// The distance of two points.
pub open spec fn distance(p: [u32; 3], c: [u32; 3]) -> u32 {
    length(
        (difference(p@[0], c@[0]), difference(p@[1], c@[1]), difference(p@[2], c@[2])),
    )
}

/// The distance of the farthest of the first `n` points from a centre.
pub open spec fn reach(points: Seq<[u32; 3]>, c: [u32; 3], n: int) -> u32
    decreases n,
{
    if n <= 0 {
        0
    } else {
        larger(reach(points, c, n - 1), distance(points[n - 1], c))
    }
}

/// The distance of the farthest point from a centre.
pub fn farthest(points: &Vec<[u32; 3]>, c: [u32; 3]) -> (r: u32)
    ensures
        r == reach(points@, c, points@.len() as int),
{
    let mut r: u32 = 0;
    let mut i: usize = 0;
    while i < points.len()
        invariant
            i <= points@.len(),
            r == reach(points@, c, i as int),
        decreases points@.len() - i,
    {
        let p: [u32; 3] = points[i];
        let d: [u32; 3] = [minus(p[0], c[0]), minus(p[1], c[1]), minus(p[2], c[2])];
        r = max(r, sqrt(dot(d, d)));
        i = i + 1;
    }
    r
}

} // verus!
