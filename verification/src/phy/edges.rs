//! Directed edges of triangle meshes and how they pair up.
use std::collections::HashMap;
use vstd::prelude::*;

use super::error::PhyError;

verus! {

broadcast use vstd::std_specs::hash::group_hash_axioms;

/// Where edge `e` starts: edge `e` is edge `e % 3` of face `e / 3`.
pub open spec fn edge_from(faces: Seq<[u32; 3]>, e: int) -> u32 {
    faces[e / 3]@[e % 3]
}

/// Where edge `e` ends.
pub open spec fn edge_to(faces: Seq<[u32; 3]>, e: int) -> u32 {
    faces[e / 3]@[(e % 3 + 1) % 3]
}

/// Edges `d` and `e` join the same points in the same direction.
pub open spec fn same_edge(faces: Seq<[u32; 3]>, d: int, e: int) -> bool {
    edge_from(faces, d) == edge_from(faces, e) && edge_to(faces, d) == edge_to(faces, e)
}

/// Edge `d` runs along edge `e` in the other direction.
pub open spec fn opposite(faces: Seq<[u32; 3]>, d: int, e: int) -> bool {
    edge_from(faces, d) == edge_to(faces, e) && edge_to(faces, d) == edge_from(faces, e)
}

/// Edge `e` repeats an earlier edge or, where `loops` are not allowed, joins a point to itself.
pub open spec fn repeats(faces: Seq<[u32; 3]>, loops: bool, e: int) -> bool {
    ||| !loops && edge_from(faces, e) == edge_to(faces, e)
    ||| exists|d: int| 0 <= d < e && #[trigger] same_edge(faces, d, e)
}

/// No edge runs along edge `e` in the other direction.
pub open spec fn unmatched(faces: Seq<[u32; 3]>, e: int) -> bool {
    forall|d: int| 0 <= d < 3 * faces.len() ==> !#[trigger] opposite(faces, d, e)
}

/// No edge repeats, and each has an edge that runs back.
pub open spec fn edges_pair_up(faces: Seq<[u32; 3]>, loops: bool) -> bool {
    &&& forall|e: int| 0 <= e < 3 * faces.len() ==> !#[trigger] repeats(faces, loops, e)
    &&& forall|e: int| 0 <= e < 3 * faces.len() ==> !#[trigger] unmatched(faces, e)
}

/// How the edges of a mesh pair up.
pub enum Pairing {
    /// For each edge the one that runs back.
    Closed(Vec<u32>),
    /// The first edge that repeats.
    Repeated(usize),
    /// The first edge without one that runs back.
    Open(usize),
}

/// One number for a directed edge.
spec fn key(from: u32, to: u32) -> u64 {
    (from * 4294967296 + to) as u64
}

proof fn key_is_injective(a: u32, b: u32, c: u32, d: u32)
    requires
        key(a, b) == key(c, d),
    ensures
        a == c && b == d,
{
}

fn edge_key(from: u32, to: u32) -> (r: u64)
    ensures
        r == key(from, to),
{
    from as u64 * 4294967296 + to as u64
}

/// The start and the end of an edge.
fn edge(faces: &Vec<[u32; 3]>, e: usize) -> (r: (u32, u32))
    requires
        e < 3 * faces@.len(),
    ensures
        r.0 == edge_from(faces@, e as int),
        r.1 == edge_to(faces@, e as int),
{
    let f: usize = e / 3;
    let i: usize = e % 3;
    let j: usize = (i + 1) % 3;
    (faces[f][i], faces[f][j])
}

/// Pairs each edge with the one that runs back.
pub fn pair_edges(faces: &Vec<[u32; 3]>, loops: bool) -> (r: Pairing)
    requires
        3 * faces@.len() <= u32::MAX,
    ensures
        match r {
            Pairing::Closed(back) => {
                &&& edges_pair_up(faces@, loops)
                &&& back@.len() == 3 * faces@.len()
                &&& forall|e: int| 0 <= e < back@.len() ==> {
                    &&& (#[trigger] back@[e]) < back@.len()
                    &&& opposite(faces@, back@[e] as int, e)
                }
            },
            Pairing::Repeated(e) => {
                &&& e < 3 * faces@.len()
                &&& repeats(faces@, loops, e as int)
                &&& forall|d: int| 0 <= d < e ==> !#[trigger] repeats(faces@, loops, d)
            },
            Pairing::Open(e) => {
                &&& forall|d: int|
                    0 <= d < 3 * faces@.len() ==> !#[trigger] repeats(faces@, loops, d)
                &&& e < 3 * faces@.len()
                &&& unmatched(faces@, e as int)
                &&& forall|d: int| 0 <= d < e ==> !#[trigger] unmatched(faces@, d)
            },
        },
{
    let n: usize = 3 * faces.len();
    let mut place: HashMap<u64, u32> = HashMap::new();
    let mut e: usize = 0;
    while e < n
        invariant
            e <= n,
            n == 3 * faces@.len(),
            n <= u32::MAX,
            forall|d: int| 0 <= d < e ==> !#[trigger] repeats(faces@, loops, d),
            forall|k: u64| #[trigger]
                place@.contains_key(k) ==> place@[k] < e && k == key(
                    edge_from(faces@, place@[k] as int),
                    edge_to(faces@, place@[k] as int),
                ),
            forall|d: int|
                0 <= d < e ==> place@.contains_key(
                    #[trigger] key(edge_from(faces@, d), edge_to(faces@, d)),
                ),
        decreases n - e,
    {
        let (u, v) = edge(faces, e);
        let k: u64 = edge_key(u, v);
        if !loops && u == v {
            return Pairing::Repeated(e);
        }
        if place.contains_key(&k) {
            proof {
                let d = place@[k] as int;
                key_is_injective(edge_from(faces@, d), edge_to(faces@, d), u, v);
                assert(same_edge(faces@, d, e as int));
            }
            return Pairing::Repeated(e);
        }
        assert(!repeats(faces@, loops, e as int)) by {
            assert forall|d: int| 0 <= d < e implies !#[trigger] same_edge(faces@, d, e as int) by {
                assert(place@.contains_key(key(edge_from(faces@, d), edge_to(faces@, d))));
            }
        }
        let ghost before = place@;
        place.insert(k, e as u32);
        e = e + 1;
        assert forall|d: int| 0 <= d < e implies place@.contains_key(
            #[trigger] key(edge_from(faces@, d), edge_to(faces@, d)),
        ) by {
            if d < e - 1 {
                assert(before.contains_key(key(edge_from(faces@, d), edge_to(faces@, d))));
            }
        }
    }
    let mut back: Vec<u32> = Vec::new();
    let mut e: usize = 0;
    while e < n
        invariant
            e <= n,
            n == 3 * faces@.len(),
            n <= u32::MAX,
            forall|d: int| 0 <= d < n ==> !#[trigger] repeats(faces@, loops, d),
            forall|k: u64| #[trigger]
                place@.contains_key(k) ==> place@[k] < n && k == key(
                    edge_from(faces@, place@[k] as int),
                    edge_to(faces@, place@[k] as int),
                ),
            forall|d: int|
                0 <= d < n ==> place@.contains_key(
                    #[trigger] key(edge_from(faces@, d), edge_to(faces@, d)),
                ),
            back@.len() == e,
            forall|d: int| 0 <= d < e ==> {
                &&& (#[trigger] back@[d]) < n
                &&& opposite(faces@, back@[d] as int, d)
            },
            forall|d: int| 0 <= d < e ==> !#[trigger] unmatched(faces@, d),
        decreases n - e,
    {
        let (u, v) = edge(faces, e);
        let k: u64 = edge_key(v, u);
        match place.get(&k) {
            Some(d) => {
                let d: u32 = *d;
                proof {
                    key_is_injective(
                        edge_from(faces@, d as int),
                        edge_to(faces@, d as int),
                        v,
                        u,
                    );
                    assert(opposite(faces@, d as int, e as int));
                }
                back.push(d);
            },
            None => {
                assert(unmatched(faces@, e as int)) by {
                    assert forall|d: int| 0 <= d < 3 * faces@.len() implies !#[trigger] opposite(
                        faces@,
                        d,
                        e as int,
                    ) by {
                        assert(place@.contains_key(key(edge_from(faces@, d), edge_to(faces@, d))));
                    }
                }
                return Pairing::Open(e);
            },
        }
        e = e + 1;
    }
    Pairing::Closed(back)
}

/// `e` names the first edge that repeats, or else the first that no edge runs back along.
pub open spec fn edge_error(faces: Seq<[u32; 3]>, solid: usize, e: PhyError) -> bool {
    match e {
            PhyError::DuplicateEdge { solid: s, from, to } => {
                &&& s == solid
                &&& exists|e: int|
                    {
                        &&& 0 <= e < 3 * faces.len()
                        &&& #[trigger] repeats(faces, false, e)
                        &&& forall|d: int| 0 <= d < e ==> !#[trigger] repeats(faces, false, d)
                        &&& from == edge_from(faces, e) && to == edge_to(faces, e)
                    }
            },
            PhyError::OpenMesh { solid: s, from, to } => {
                &&& s == solid
                &&& forall|e: int|
                    0 <= e < 3 * faces.len() ==> !#[trigger] repeats(faces, false, e)
                &&& exists|e: int|
                    {
                        &&& 0 <= e < 3 * faces.len()
                        &&& #[trigger] unmatched(faces, e)
                        &&& forall|d: int| 0 <= d < e ==> !#[trigger] unmatched(faces, d)
                        &&& from == edge_from(faces, e) && to == edge_to(faces, e)
                    }
            },
            _ => false,
    }
}

/// For each edge of a closed mesh the face and the side of the edge that runs back.
pub fn build_reverse_edges(faces: &Vec<[u32; 3]>, solid: usize) -> (r: Result<
    Vec<[u32; 2]>,
    PhyError,
>)
    requires
        3 * faces@.len() <= u32::MAX,
    ensures
        match r {
            Ok(back) => {
                &&& edges_pair_up(faces@, false)
                &&& back@.len() == 3 * faces@.len()
                &&& forall|e: int| 0 <= e < back@.len() ==> back_edge_fits(
                    faces@,
                    #[trigger] back@[e],
                    e,
                )
            },
            Err(e) => edge_error(faces@, solid, e),
        },
{
    match pair_edges(faces, false) {
        Pairing::Closed(back) => {
            let mut out: Vec<[u32; 2]> = Vec::new();
            let mut e: usize = 0;
            while e < back.len()
                invariant
                    e <= back@.len(),
                    out@.len() == e,
                    forall|d: int| 0 <= d < back@.len() ==> {
                        &&& (#[trigger] back@[d]) < back@.len()
                        &&& opposite(faces@, back@[d] as int, d)
                    },
                    back@.len() == 3 * faces@.len(),
                    forall|d: int| 0 <= d < e ==> back_edge_fits(faces@, #[trigger] out@[d], d),
                decreases back@.len() - e,
            {
                let b: u32 = back[e];
                out.push([b / 3, b % 3]);
                assert(out@[e as int]@[0] == b / 3 && out@[e as int]@[1] == b % 3);
                e = e + 1;
            }
            Ok(out)
        },
        Pairing::Repeated(e) => {
            let (u, v) = edge(faces, e);
            Err(PhyError::DuplicateEdge { solid, from: u, to: v })
        },
        Pairing::Open(e) => {
            let (u, v) = edge(faces, e);
            Err(PhyError::OpenMesh { solid, from: u, to: v })
        },
    }
}

/// `back` names, by face and side, an edge that runs along edge `e` in the other direction.
pub open spec fn back_edge_fits(faces: Seq<[u32; 3]>, back: [u32; 2], e: int) -> bool {
    &&& back@[0] < faces.len()
    &&& back@[1] < 3
    &&& opposite(faces, 3 * back@[0] + back@[1], e)
}

/// An edge of a mesh whose edges pair up has one opposite edge only.
pub proof fn opposite_edge_is_unique(faces: Seq<[u32; 3]>, loops: bool, c: int, d: int, e: int)
    requires
        edges_pair_up(faces, loops),
        0 <= c < 3 * faces.len(),
        0 <= d < 3 * faces.len(),
        0 <= e < 3 * faces.len(),
        opposite(faces, c, e),
        opposite(faces, d, e),
    ensures
        c == d,
{
    if c < d {
        assert(same_edge(faces, c, d));
        assert(repeats(faces, loops, d));
    } else if d < c {
        assert(same_edge(faces, d, c));
        assert(repeats(faces, loops, c));
    }
}

/// Running back twice along an edge leads to the edge itself.
pub proof fn opposite_is_an_involution(faces: Seq<[u32; 3]>, back: Seq<[u32; 2]>, e: int)
    requires
        edges_pair_up(faces, false),
        back.len() == 3 * faces.len(),
        forall|d: int| 0 <= d < back.len() ==> back_edge_fits(faces, #[trigger] back[d], d),
        0 <= e < back.len(),
    ensures
        ({
            let d = 3 * back[e]@[0] + back[e]@[1];
            3 * back[d]@[0] + back[d]@[1] == e
        }),
{
    let d = 3 * back[e]@[0] + back[e]@[1];
    assert(back_edge_fits(faces, back[e], e));
    assert(back_edge_fits(faces, back[d], d));
    let c = 3 * back[d]@[0] + back[d]@[1];
    assert(opposite(faces, e, d));
    opposite_edge_is_unique(faces, false, c, e, d);
}

} // verus!
