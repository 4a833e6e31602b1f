//! What is asked of points and faces before a hull is made of them, and of hulls that came out.
use vstd::prelude::*;

use super::error::PhyError;
use super::solid::{finite_point, PhyHull};
use crate::single::{finite, is_nan, INFINITE};
use crate::text::{decimal, push_decimal};

verus! {

/// The first point from `k` on that is not finite.
pub open spec fn not_finite(points: Seq<[u32; 3]>, k: int) -> Option<int>
    decreases points.len() - k,
{
    if k < 0 || k >= points.len() {
        None
    } else if finite_point(points[k]) {
        not_finite(points, k + 1)
    } else {
        Some(k)
    }
}

/// The first point that is not finite.
fn find_not_finite(points: &Vec<[u32; 3]>) -> (r: Option<usize>)
    ensures
        match r {
            Some(k) => k < points@.len() && not_finite(points@, 0) == Some(k as int),
            None => not_finite(points@, 0) is None,
        },
{
    let mut k: usize = 0;
    while k < points.len()
        invariant
            k <= points@.len(),
            not_finite(points@, k as int) == not_finite(points@, 0),
        decreases points@.len() - k,
    {
        let p: [u32; 3] = points[k];
        if !(finite(p[0]) && finite(p[1]) && finite(p[2])) {
            return Some(k);
        }
        k = k + 1;
    }
    None
}

/// What is wrong with the points of a mesh that is to be taken apart.
pub open spec fn points_error(points: Seq<[u32; 3]>) -> Option<PhyError> {
    if points.len() < 4 {
        Some(PhyError::HullTooFewPoints { solid: 0, points: points.len() as usize })
    } else {
        match not_finite(points, 0) {
            Some(k) => Some(PhyError::NonFinitePoint { solid: 0, point: k as usize }),
            None => None,
        }
    }
}

/// The first point from `k` on with a coordinate that is no number.
pub open spec fn not_a_number(points: Seq<[u32; 3]>, k: int) -> Option<int>
    decreases points.len() - k,
{
    if k < 0 || k >= points.len() {
        None
    } else if is_nan(points[k]@[0]) || is_nan(points[k]@[1]) || is_nan(points[k]@[2]) {
        Some(k)
    } else {
        not_a_number(points, k + 1)
    }
}

/// An error says what is wrong with points that a hull is to be made of: there are fewer than four,
/// one is no number, or one is infinite.
pub open spec fn is_points_error(points: Seq<[u32; 3]>, e: PhyError) -> bool {
    if points.len() < 4 {
        e == (PhyError::HullTooFewPoints { solid: 0, points: points.len() as usize })
    } else {
        match not_a_number(points, 0) {
            Some(k) => e matches PhyError::HullDegenerate { solid, detail } && solid == 0 && detail@
                == "第 "@ + decimal(k as nat) + " 个顶点含 NaN"@,
            None => match not_finite(points, 0) {
                Some(k) => e == (PhyError::NonFinitePoint { solid: 0, point: k as usize }),
                None => false,
            },
        }
    }
}

/// Whether a hull can be made of points, as far as the points alone show.
pub open spec fn points_good(points: Seq<[u32; 3]>) -> bool {
    points.len() >= 4 && not_a_number(points, 0) is None && not_finite(points, 0) is None
}

/// The first point with a coordinate that is no number.
fn find_not_a_number(points: &Vec<[u32; 3]>) -> (r: Option<usize>)
    ensures
        match r {
            Some(k) => k < points@.len() && not_a_number(points@, 0) == Some(k as int),
            None => not_a_number(points@, 0) is None,
        },
{
    let mut k: usize = 0;
    while k < points.len()
        invariant
            k <= points@.len(),
            not_a_number(points@, k as int) == not_a_number(points@, 0),
        decreases points@.len() - k,
    {
        let p: [u32; 3] = points[k];
        if p[0] % 0x8000_0000 > INFINITE || p[1] % 0x8000_0000 > INFINITE || p[2] % 0x8000_0000
            > INFINITE {
            return Some(k);
        }
        k = k + 1;
    }
    None
}

/// Refuses points that no hull can be made of.
pub fn check_points(points: &Vec<[u32; 3]>) -> (r: Result<(), PhyError>)
    ensures
        match r {
            Ok(_) => points_good(points@),
            Err(e) => !points_good(points@) && is_points_error(points@, e),
        },
{
    if points.len() < 4 {
        return Err(PhyError::HullTooFewPoints { solid: 0, points: points.len() });
    }
    if let Some(k) = find_not_a_number(points) {
        let mut detail: String = "第 ".to_owned();
        push_decimal(&mut detail, k as u64);
        detail.push_str(" 个顶点含 NaN");
        return Err(PhyError::HullDegenerate { solid: 0, detail });
    }
    if let Some(k) = find_not_finite(points) {
        return Err(PhyError::NonFinitePoint { solid: 0, point: k });
    }
    Ok(())
}

/// The first corner from `e` on, counted over all faces, that names no point.
pub open spec fn stray_corner(faces: Seq<[u32; 3]>, n: nat, e: int) -> Option<int>
    decreases 3 * faces.len() - e,
{
    if e < 0 || e >= 3 * faces.len() {
        None
    } else if faces[e / 3]@[e % 3] < n {
        stray_corner(faces, n, e + 1)
    } else {
        Some(e)
    }
}

/// The first corner that names no point, as a face and a place in it.
fn find_stray_corner(faces: &Vec<[u32; 3]>, n: usize) -> (r: Option<(usize, usize)>)
    ensures
        match r {
            Some((f, k)) => f < faces@.len() && k < 3 && stray_corner(faces@, n as nat, 0) == Some(
                3 * f + k,
            ),
            None => stray_corner(faces@, n as nat, 0) is None,
        },
{
    let mut f: usize = 0;
    while f < faces.len()
        invariant
            f <= faces@.len(),
            stray_corner(faces@, n as nat, 3 * f) == stray_corner(faces@, n as nat, 0),
        decreases faces@.len() - f,
    {
        let face: [u32; 3] = faces[f];
        assert((3 * f) / 3 == f && (3 * f) % 3 == 0);
        assert((3 * f + 1) / 3 == f && (3 * f + 1) % 3 == 1);
        assert((3 * f + 2) / 3 == f && (3 * f + 2) % 3 == 2);
        if face[0] as usize >= n {
            return Some((f, 0));
        }
        assert(stray_corner(faces@, n as nat, 3 * f + 1) == stray_corner(faces@, n as nat, 0));
        if face[1] as usize >= n {
            return Some((f, 1));
        }
        assert(stray_corner(faces@, n as nat, 3 * f + 2) == stray_corner(faces@, n as nat, 0));
        if face[2] as usize >= n {
            return Some((f, 2));
        }
        f = f + 1;
    }
    None
}

/// An error says what is wrong with a mesh that is to be taken apart.
pub open spec fn is_mesh_error(points: Seq<[u32; 3]>, faces: Seq<[u32; 3]>, e: PhyError) -> bool {
    if points.len() == 0 || faces.len() == 0 {
        &&& e matches PhyError::BadParameter { what, detail }
        &&& what@ == "decompose_concave"@
        &&& detail@ == "顶点或面表为空"@
    } else {
        match points_error(points) {
            Some(x) => e == x,
            None => match stray_corner(faces, points.len(), 0) {
                Some(c) => e == (PhyError::IndexOutOfRange {
                    solid: 0,
                    face: (c / 3) as usize,
                    index: faces[c / 3]@[c % 3],
                    vertex_count: points.len() as usize,
                }),
                None => false,
            },
        }
    }
}

/// Whether a mesh can be taken apart.
pub open spec fn mesh_good(points: Seq<[u32; 3]>, faces: Seq<[u32; 3]>) -> bool {
    points.len() > 0 && faces.len() > 0 && points_error(points) is None && stray_corner(
        faces,
        points.len(),
        0,
    ) is None
}

/// Refuses a mesh that cannot be taken apart.
pub fn check_mesh(points: &Vec<[u32; 3]>, faces: &Vec<[u32; 3]>) -> (r: Result<(), PhyError>)
    ensures
        match r {
            Ok(_) => mesh_good(points@, faces@),
            Err(e) => is_mesh_error(points@, faces@, e),
        },
{
    if points.len() == 0 || faces.len() == 0 {
        return Err(
            PhyError::BadParameter {
                what: "decompose_concave",
                detail: "顶点或面表为空".to_owned(),
            },
        );
    }
    if points.len() < 4 {
        return Err(PhyError::HullTooFewPoints { solid: 0, points: points.len() });
    }
    if let Some(k) = find_not_finite(points) {
        return Err(PhyError::NonFinitePoint { solid: 0, point: k });
    }
    if let Some((f, k)) = find_stray_corner(faces, points.len()) {
        assert((3 * f + k) / 3 == f as int && (3 * f + k) % 3 == k as int);
        return Err(
            PhyError::IndexOutOfRange {
                solid: 0,
                face: f,
                index: faces[f][k],
                vertex_count: points.len(),
            },
        );
    }
    Ok(())
}

/// Whether a piece is a body: it has four points at least, and a face.
pub open spec fn is_body(h: PhyHull) -> bool {
    h.vertices@.len() >= 4 && h.faces@.len() > 0
}

/// The pieces from `k` on that are bodies.
pub open spec fn bodies(list: Seq<PhyHull>, k: int) -> Seq<PhyHull>
    decreases list.len() - k,
{
    if k < 0 || k >= list.len() {
        Seq::empty()
    } else if is_body(list[k]) {
        seq![list[k]] + bodies(list, k + 1)
    } else {
        bodies(list, k + 1)
    }
}

/// Keeps the pieces that are bodies, of which there must be one.
pub fn keep_bodies(list: Vec<PhyHull>) -> (r: Result<Vec<PhyHull>, PhyError>)
    ensures
        match r {
            Ok(v) => v@ == bodies(list@, 0) && v@.len() > 0,
            Err(e) => bodies(list@, 0).len() == 0 && (e matches PhyError::HullDegenerate {
                solid,
                detail,
            } && solid == 0 && detail@ == "VHACD 没有产出任何有效的凸块"@),
        },
{
    let ghost all = list@;
    let mut rest: Vec<PhyHull> = list;
    let mut out: Vec<PhyHull> = Vec::new();
    assert(out@ + bodies(all, 0) =~= bodies(all, 0));
    assert(all.skip(0) =~= all);
    let ghost mut k: int = 0;
    while rest.len() > 0
        invariant
            0 <= k <= all.len(),
            rest@ == all.skip(k),
            out@ + bodies(all, k) == bodies(all, 0),
        decreases rest@.len(),
    {
        let ghost before = out@;
        let h: PhyHull = rest.remove(0);
        assert(h == all[k]);
        let ghost more = bodies(all, k + 1);
        if h.vertices.len() >= 4 && h.faces.len() > 0 {
            out.push(h);
            assert(before + (seq![all[k]] + more) =~= out@ + more);
        }
        proof {
            assert(rest@ =~= all.skip(k + 1));
            k = k + 1;
        }
    }
    assert(out@ + bodies(all, k) =~= out@);
    if out.len() == 0 {
        return Err(
            PhyError::HullDegenerate {
                solid: 0,
                detail: "VHACD 没有产出任何有效的凸块".to_owned(),
            },
        );
    }
    Ok(out)
}

/// The hulls from `k` on, as far as there are any.
pub open spec fn spanned(list: Seq<Option<PhyHull>>, k: int) -> Seq<PhyHull>
    decreases list.len() - k,
{
    if k < 0 || k >= list.len() {
        Seq::empty()
    } else {
        match list[k] {
            Some(h) => seq![h] + spanned(list, k + 1),
            None => spanned(list, k + 1),
        }
    }
}

/// The hulls of the parts of a mesh, without the parts that span none; nothing where no part spans
/// one, and the whole mesh gets a hull.
pub fn keep_spanned(list: Vec<Option<PhyHull>>) -> (r: Option<Vec<PhyHull>>)
    ensures
        match r {
            Some(v) => v@ == spanned(list@, 0) && v@.len() > 0,
            None => spanned(list@, 0).len() == 0,
        },
{
    let ghost all = list@;
    let mut rest: Vec<Option<PhyHull>> = list;
    let mut out: Vec<PhyHull> = Vec::new();
    assert(out@ + spanned(all, 0) =~= spanned(all, 0));
    assert(all.skip(0) =~= all);
    let ghost mut k: int = 0;
    while rest.len() > 0
        invariant
            0 <= k <= all.len(),
            rest@ == all.skip(k),
            out@ + spanned(all, k) == spanned(all, 0),
        decreases rest@.len(),
    {
        let ghost before = out@;
        let part: Option<PhyHull> = rest.remove(0);
        assert(part == all[k]);
        let ghost more = spanned(all, k + 1);
        if let Some(h) = part {
            out.push(h);
            assert(before + (seq![h] + more) =~= out@ + more);
        }
        proof {
            assert(rest@ =~= all.skip(k + 1));
            k = k + 1;
        }
    }
    assert(out@ + spanned(all, k) =~= out@);
    if out.len() == 0 {
        None
    } else {
        Some(out)
    }
}

} // verus!
