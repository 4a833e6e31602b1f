//! The connected parts of a collision mesh.
use vstd::prelude::*;

verus! {

/// The most parts that a concave mesh is taken apart into.
pub const MAX_CONVEX_PIECES: usize = 20;

/// Corner `k` of face `f`, as the vertex that it is welded to.
pub open spec fn welded_corner(weld: Seq<u32>, faces: Seq<[u32; 3]>, f: int, k: int) -> int {
    weld[faces[f]@[k] as int] as int
}

/// Each face names vertices that exist, and each vertex is welded to one that exists.
pub open spec fn faces_exist(weld: Seq<u32>, faces: Seq<[u32; 3]>) -> bool {
    &&& forall|i: int| 0 <= i < weld.len() ==> (#[trigger] weld[i]) < weld.len()
    &&& forall|f: int|
        0 <= f < faces.len() ==> {
            &&& (#[trigger] faces[f])@[0] < weld.len()
            &&& faces[f]@[1] < weld.len()
            &&& faces[f]@[2] < weld.len()
        }
}

/// The mark of a vertex before any face is looked at: -1 for one that is welded to another, and
/// past all faces for the others.
pub open spec fn first_mark(weld: Seq<u32>, faces: Seq<[u32; 3]>, i: int) -> int {
    if weld[i] != i {
        -1
    } else {
        faces.len() as int + 1
    }
}

/// A face has one mark at its corners, which is not past its own number.
pub open spec fn face_marked(
    weld: Seq<u32>,
    faces: Seq<[u32; 3]>,
    marks: Seq<i32>,
    f: int,
) -> bool {
    let a = marks[welded_corner(weld, faces, f, 0)];
    &&& a == marks[welded_corner(weld, faces, f, 1)]
    &&& a == marks[welded_corner(weld, faces, f, 2)]
    &&& a <= f
}

/// Marks that agree on each face and are not past where they start.
pub open spec fn agrees(weld: Seq<u32>, faces: Seq<[u32; 3]>, marks: Seq<i32>) -> bool {
    &&& marks.len() == weld.len()
    &&& forall|i: int|
        0 <= i < marks.len() ==> (#[trigger] marks[i]) <= first_mark(weld, faces, i)
    &&& forall|f: int| 0 <= f < faces.len() ==> #[trigger] face_marked(weld, faces, marks, f)
}

/// No mark in `a` is past that in `b`.
pub open spec fn below(a: Seq<i32>, b: Seq<i32>) -> bool {
    forall|i: int| 0 <= i < b.len() ==> (#[trigger] a[i]) <= b[i]
}

/// How far marks can still fall.
spec fn height(marks: Seq<i32>, n: int) -> int
    decreases n,
{
    if n <= 0 {
        0
    } else {
        height(marks, n - 1) + marks[n - 1] + 1
    }
}

proof fn height_positive(marks: Seq<i32>, n: int)
    requires
        0 <= n <= marks.len(),
        forall|i: int| 0 <= i < marks.len() ==> (#[trigger] marks[i]) >= -1,
    ensures
        height(marks, n) >= 0,
    decreases n,
{
    if n > 0 {
        height_positive(marks, n - 1);
    }
}

proof fn height_falls(a: Seq<i32>, v: int, x: i32, n: int)
    requires
        0 <= v < a.len(),
        0 <= n <= a.len(),
        x < a[v],
    ensures
        v < n ==> height(a.update(v, x), n) < height(a, n),
        n <= v ==> height(a.update(v, x), n) == height(a, n),
    decreases n,
{
    if n > 0 {
        height_falls(a, v, x, n - 1);
    }
}

/// Lowers a mark; the result tells whether it changed.
fn lower_mark(marks: &mut Vec<i32>, v: usize, x: i32) -> (r: bool)
    requires
        v < old(marks)@.len(),
        x <= old(marks)@[v as int],
    ensures
        final(marks)@ == old(marks)@.update(v as int, x),
        r == (old(marks)@[v as int] != x),
        r ==> height(final(marks)@, final(marks)@.len() as int) < height(
            old(marks)@,
            old(marks)@.len() as int,
        ),
        !r ==> final(marks)@ == old(marks)@,
{
    if marks[v] != x {
        proof {
            height_falls(marks@, v as int, x, marks@.len() as int);
        }
        marks.set(v, x);
        true
    } else {
        assert(marks@.update(v as int, x) =~= marks@);
        false
    }
}

/// What holds of marks on the way.
spec fn on_the_way(weld: Seq<u32>, faces: Seq<[u32; 3]>, marks: Seq<i32>) -> bool {
    &&& marks.len() == weld.len()
    &&& forall|i: int|
        0 <= i < marks.len() ==> -1 <= (#[trigger] marks[i]) <= first_mark(weld, faces, i)
    &&& forall|x: Seq<i32>| #[trigger] agrees(weld, faces, x) ==> below(x, marks)
}

/// Lowering the corners of a face to the least of its marks and its number loses no marks that
/// agree.
proof fn stays_on_the_way(
    weld: Seq<u32>,
    faces: Seq<[u32; 3]>,
    marks: Seq<i32>,
    f: int,
    low: i32,
    v: int,
)
    requires
        on_the_way(weld, faces, marks),
        faces_exist(weld, faces),
        0 <= f < faces.len(),
        v == welded_corner(weld, faces, f, 0) || v == welded_corner(weld, faces, f, 1) || v
            == welded_corner(weld, faces, f, 2),
        -1 <= low <= marks[v],
        low == f || low == marks[welded_corner(weld, faces, f, 0)] || low
            == marks[welded_corner(weld, faces, f, 1)] || low == marks[welded_corner(
            weld,
            faces,
            f,
            2,
        )],
    ensures
        on_the_way(weld, faces, marks.update(v, low)),
{
    let next = marks.update(v, low);
    assert(faces[f]@[0] < weld.len());
    assert(weld[faces[f]@[0] as int] < weld.len());
    assert(weld[faces[f]@[1] as int] < weld.len());
    assert(weld[faces[f]@[2] as int] < weld.len());
    assert forall|x: Seq<i32>| #[trigger] agrees(weld, faces, x) implies below(x, next) by {
        assert(below(x, marks));
        assert(face_marked(weld, faces, x, f));
        assert forall|i: int| 0 <= i < next.len() implies (#[trigger] x[i]) <= next[i] by {
            assert(x[welded_corner(weld, faces, f, 0)] <= marks[welded_corner(weld, faces, f, 0)]);
            assert(x[welded_corner(weld, faces, f, 1)] <= marks[welded_corner(weld, faces, f, 1)]);
            assert(x[welded_corner(weld, faces, f, 2)] <= marks[welded_corner(weld, faces, f, 2)]);
        }
    }
}

/// The smaller of two marks.
fn lesser(a: i32, b: i32) -> (r: i32)
    ensures
        r == a || r == b,
        r <= a,
        r <= b,
{
    if a <= b {
        a
    } else {
        b
    }
}

/// Lowers the marks of each face once; the result tells whether one changed.
fn lower_faces(weld: &Vec<u32>, faces: &Vec<[u32; 3]>, marks: &mut Vec<i32>) -> (r: bool)
    requires
        faces_exist(weld@, faces@),
        faces@.len() < i32::MAX,
        on_the_way(weld@, faces@, old(marks)@),
    ensures
        on_the_way(weld@, faces@, final(marks)@),
        r ==> height(final(marks)@, final(marks)@.len() as int) < height(
            old(marks)@,
            old(marks)@.len() as int,
        ),
        !r ==> agrees(weld@, faces@, final(marks)@),
{
    let mut changed: bool = false;
    let mut f: usize = 0;
    while f < faces.len()
        invariant
            f <= faces@.len(),
            faces_exist(weld@, faces@),
            faces@.len() < i32::MAX,
            on_the_way(weld@, faces@, marks@),
            changed ==> height(marks@, marks@.len() as int) < height(
                old(marks)@,
                old(marks)@.len() as int,
            ),
            !changed ==> marks@ == old(marks)@,
            !changed ==> forall|g: int|
                0 <= g < f ==> #[trigger] face_marked(weld@, faces@, marks@, g),
        decreases faces@.len() - f,
    {
        assert(faces@[f as int]@[0] < weld@.len());
        let face: [u32; 3] = faces[f];
        assert(weld@[face@[0] as int] < weld@.len());
        assert(weld@[face@[1] as int] < weld@.len());
        assert(weld@[face@[2] as int] < weld@.len());
        let a: usize = weld[face[0] as usize] as usize;
        let b: usize = weld[face[1] as usize] as usize;
        let c: usize = weld[face[2] as usize] as usize;
        let low: i32 = lesser(lesser(lesser(f as i32, marks[a]), marks[b]), marks[c]);
        let ghost before = marks@;
        proof {
            assert(-1 <= marks@[a as int] && -1 <= marks@[b as int] && -1 <= marks@[c as int]);
            stays_on_the_way(weld@, faces@, marks@, f as int, low, a as int);
        }
        let x: bool = lower_mark(marks, a, low);
        proof {
            stays_on_the_way(weld@, faces@, marks@, f as int, low, b as int);
        }
        let y: bool = lower_mark(marks, b, low);
        proof {
            stays_on_the_way(weld@, faces@, marks@, f as int, low, c as int);
        }
        let z: bool = lower_mark(marks, c, low);
        if x || y || z {
            changed = true;
        }
        f = f + 1;
    }
    changed
}

/// Marks the connected parts of a mesh: each vertex gets the least number of a face that it is
/// connected to through welded corners. These are the greatest marks that agree on each face.
pub fn mark_connected_meshes(weld: &Vec<u32>, faces: &Vec<[u32; 3]>) -> (r: Vec<i32>)
    requires
        faces_exist(weld@, faces@),
        faces@.len() < i32::MAX,
    ensures
        agrees(weld@, faces@, r@),
        forall|x: Seq<i32>| #[trigger] agrees(weld@, faces@, x) ==> below(x, r@),
        forall|i: int| 0 <= i < r@.len() ==> -1 <= #[trigger] r@[i],
{
    let mut marks: Vec<i32> = Vec::new();
    let past: i32 = (faces.len() + 1) as i32;
    let mut i: usize = 0;
    while i < weld.len()
        invariant
            i <= weld@.len(),
            past == faces@.len() + 1,
            marks@.len() == i,
            forall|k: int|
                0 <= k < i ==> (#[trigger] marks@[k]) == first_mark(weld@, faces@, k),
        decreases weld@.len() - i,
    {
        if weld[i] as usize != i {
            marks.push(-1);
        } else {
            marks.push(past);
        }
        i = i + 1;
    }
    assert(on_the_way(weld@, faces@, marks@));
    loop
        invariant
            faces_exist(weld@, faces@),
            faces@.len() < i32::MAX,
            on_the_way(weld@, faces@, marks@),
        decreases height(marks@, marks@.len() as int),
    {
        let changed: bool = lower_faces(weld, faces, &mut marks);
        proof {
            height_positive(marks@, marks@.len() as int);
        }
        if !changed {
            return marks;
        }
    }
}

/// The places from `k` on that have the given mark.
pub open spec fn marked(marks: Seq<i32>, id: i32, k: int) -> Seq<usize>
    decreases marks.len() - k,
{
    if k < 0 || k >= marks.len() {
        Seq::empty()
    } else if marks[k] == id {
        seq![k as usize] + marked(marks, id, k + 1)
    } else {
        marked(marks, id, k + 1)
    }
}

/// Whether a vertex is the first of a part: its mark is a face's, and no vertex before has it.
pub open spec fn starts_part(marks: Seq<i32>, limit: int, i: int) -> bool {
    &&& 0 <= marks[i] <= limit
    &&& forall|j: int| 0 <= j < i ==> #[trigger] marks[j] != marks[i]
}

/// The parts that start at the vertices from `i` on, each with more than two vertices.
pub open spec fn parts_from(marks: Seq<i32>, limit: int, i: int) -> Seq<Seq<usize>>
    decreases marks.len() - i,
{
    if i < 0 || i >= marks.len() {
        Seq::empty()
    } else {
        let rest = parts_from(marks, limit, i + 1);
        let part = marked(marks, marks[i], i);
        if starts_part(marks, limit, i) && part.len() > 2 {
            seq![part] + rest
        } else {
            rest
        }
    }
}

/// Lists of vertices.
pub open spec fn lists(s: Seq<Vec<usize>>) -> Seq<Seq<usize>> {
    Seq::new(s.len(), |i: int| s[i]@)
}

/// The places from `i` on that have the given mark.
fn list_marked(marks: &Vec<i32>, id: i32, i: usize) -> (r: Vec<usize>)
    requires
        i <= marks@.len(),
    ensures
        r@ == marked(marks@, id, i as int),
{
    let mut out: Vec<usize> = Vec::new();
    let mut k: usize = i;
    assert(out@ + marked(marks@, id, i as int) =~= marked(marks@, id, i as int));
    while k < marks.len()
        invariant
            i <= k <= marks@.len(),
            out@ + marked(marks@, id, k as int) == marked(marks@, id, i as int),
        decreases marks@.len() - k,
    {
        let ghost before = out@;
        let ghost rest = marked(marks@, id, k + 1);
        if marks[k] == id {
            out.push(k);
            assert(before + (seq![k] + rest) =~= out@ + rest);
        }
        k = k + 1;
    }
    assert(out@ + marked(marks@, id, k as int) =~= out@);
    out
}

/// Tells whether a vertex is the first of a part.
fn is_start(marks: &Vec<i32>, limit: usize, i: usize) -> (r: bool)
    requires
        i < marks@.len(),
    ensures
        r == starts_part(marks@, limit as int, i as int),
{
    let id: i32 = marks[i];
    if id < 0 || id as usize > limit {
        return false;
    }
    let mut j: usize = 0;
    while j < i
        invariant
            j <= i < marks@.len(),
            id == marks@[i as int],
            forall|k: int| 0 <= k < j ==> #[trigger] marks@[k] != id,
        decreases i - j,
    {
        if marks[j] == id {
            return false;
        }
        j = j + 1;
    }
    true
}

/// The parts of a mesh of `num_faces` faces: the vertices of each mark, in order of first
/// appearance. Parts of fewer than three vertices are left out.
pub fn connected_parts(marks: &Vec<i32>, num_faces: usize) -> (r: Vec<Vec<usize>>)
    ensures
        lists(r@) == parts_from(marks@, num_faces as int, 0),
{
    let ghost limit = num_faces as int;
    let mut out: Vec<Vec<usize>> = Vec::new();
    let mut i: usize = 0;
    assert(lists(out@) + parts_from(marks@, limit, 0) =~= parts_from(marks@, limit, 0));
    while i < marks.len()
        invariant
            i <= marks@.len(),
            limit == num_faces as int,
            lists(out@) + parts_from(marks@, limit, i as int) == parts_from(marks@, limit, 0),
        decreases marks@.len() - i,
    {
        let ghost before = lists(out@);
        let ghost rest = parts_from(marks@, limit, i + 1);
        if is_start(marks, num_faces, i) {
            let part: Vec<usize> = list_marked(marks, marks[i], i);
            if part.len() > 2 {
                out.push(part);
                assert(lists(out@) =~= before.push(part@));
                assert(before + (seq![part@] + rest) =~= lists(out@) + rest);
            }
        }
        i = i + 1;
    }
    assert(lists(out@) + parts_from(marks@, limit, i as int) =~= lists(out@));
    out
}

/// Tells whether a concave mesh is taken as one piece after all: where a part is flat, where there
/// are too many parts, and where there is none.
pub fn is_one_piece(any_planar: bool, parts: usize) -> (r: bool)
    ensures
        r == (any_planar || parts > MAX_CONVEX_PIECES || parts == 0),
{
    any_planar || parts > MAX_CONVEX_PIECES || parts == 0
}

} // verus!
