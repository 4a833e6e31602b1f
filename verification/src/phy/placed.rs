//! From the axes and inches of a model to the axes and metres of a collision file.
use vstd::prelude::*;

use super::solid::{HullView, PhyHull};
use crate::arith::{product, times};
use crate::single::{negate, negated};

verus! {

/// The metres in an inch, `0.0254`.
pub const SOURCE_TO_IVP: u32 = 0x3CD0_13A9;

/// A point of a model along the axes of a collision file: `(-y, -z, x)`.
pub open spec fn turned(v: [u32; 3]) -> [u32; 3] {
    [negated(v@[1]), negated(v@[2]), v@[0]]
}

/// A point of a model along the axes of a collision file, in metres.
pub open spec fn ivp(v: [u32; 3]) -> [u32; 3] {
    let a = turned(v);
    [
        product(a@[0], SOURCE_TO_IVP),
        product(a@[1], SOURCE_TO_IVP),
        product(a@[2], SOURCE_TO_IVP),
    ]
}

/// A point of a model along the axes of a collision file: `(-y, -z, x)`.
pub fn source_to_ivp_axis(v: [u32; 3]) -> (r: [u32; 3])
    ensures
        r == turned(v),
{
    let r: [u32; 3] = [negate(v[1]), negate(v[2]), v[0]];
    assert(r@ =~= turned(v)@);
    r
}

/// A point of a model along the axes of a collision file, in metres.
pub fn to_ivp(v: [u32; 3]) -> (r: [u32; 3])
    ensures
        r == ivp(v),
{
    let a: [u32; 3] = source_to_ivp_axis(v);
    let r: [u32; 3] = [
        times(a[0], SOURCE_TO_IVP),
        times(a[1], SOURCE_TO_IVP),
        times(a[2], SOURCE_TO_IVP),
    ];
    assert(r@ =~= ivp(v)@);
    r
}

/// A hull of a model as a collision file has it.
pub open spec fn placed(hull: HullView) -> HullView {
    HullView {
        vertices: Seq::new(hull.vertices.len(), |i: int| ivp(hull.vertices[i])),
        faces: hull.faces,
    }
}

/// The hulls of a solid as a collision file has them.
pub open spec fn placed_hulls(hulls: Seq<PhyHull>) -> Seq<HullView> {
    Seq::new(hulls.len(), |i: int| placed(hulls[i]@))
}

/// A hull of a model as a collision file has it.
pub fn place_hull(hull: &PhyHull) -> (r: PhyHull)
    ensures
        r@ == placed(hull@),
{
    let mut vertices: Vec<[u32; 3]> = Vec::new();
    let mut i: usize = 0;
    while i < hull.vertices.len()
        invariant
            i <= hull.vertices@.len(),
            vertices@ == placed(hull@).vertices.take(i as int),
        decreases hull.vertices@.len() - i,
    {
        vertices.push(to_ivp(hull.vertices[i]));
        i = i + 1;
        assert(vertices@ =~= placed(hull@).vertices.take(i as int));
    }
    let mut faces: Vec<[u32; 3]> = Vec::new();
    let mut i: usize = 0;
    while i < hull.faces.len()
        invariant
            i <= hull.faces@.len(),
            faces@ == hull.faces@.take(i as int),
        decreases hull.faces@.len() - i,
    {
        faces.push(hull.faces[i]);
        i = i + 1;
        assert(faces@ =~= hull.faces@.take(i as int));
    }
    let r: PhyHull = PhyHull { vertices, faces };
    assert(r@.vertices =~= placed(hull@).vertices);
    assert(r@.faces =~= placed(hull@).faces);
    r
}

/// The hulls of a solid as a collision file has them.
pub fn place_hulls(hulls: &Vec<PhyHull>) -> (r: Vec<PhyHull>)
    ensures
        super::solid::hull_views(r@) == placed_hulls(hulls@),
        r@.len() == hulls@.len(),
{
    let mut out: Vec<PhyHull> = Vec::new();
    let mut i: usize = 0;
    while i < hulls.len()
        invariant
            i <= hulls@.len(),
            out@.len() == i,
            forall|j: int| 0 <= j < i ==> (#[trigger] out@[j])@ == placed(hulls@[j]@),
        decreases hulls@.len() - i,
    {
        out.push(place_hull(&hulls[i]));
        i = i + 1;
    }
    assert(super::solid::hull_views(out@) =~= placed_hulls(hulls@));
    out
}

} // verus!
