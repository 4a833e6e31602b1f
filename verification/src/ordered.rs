//! What is listed, and in what order: times of a report, names of a complaint, points of a mesh.
use vstd::prelude::*;

use crate::phy::names::{in_order, precedes, precedes_from, with_name};
use crate::phy::pose::{corner_at, corner_weights, point_weights};
use crate::phy::shape::{not_a_number, not_finite, stray_corner};
use crate::phy::solid::finite_point;
use crate::phy::weld::corner_of;
use crate::prof::{by_time, entry_named, noted, top_time, with_entry, EntryView};
use crate::single::is_nan;
use crate::smd::SmdView;
use crate::text::begins;

verus! {

proof fn entry_is_found(list: Seq<EntryView>, name: Seq<char>, k: int)
    requires
        0 <= k,
    ensures
        entry_named(list, name, k) matches Some(i) ==> k <= i < list.len() && list[i].name == name,
        entry_named(list, name, k) is None ==> forall|i: int|
            k <= i < list.len() ==> (#[trigger] list[i]).name != name,
    decreases list.len() - k,
{
    if k < list.len() && list[k].name != name {
        entry_is_found(list, name, k + 1);
    }
}

/// A time that is noted is added to what was noted under the name before, and to nothing else; a
/// new name comes last.
pub proof fn times_add_up(list: Seq<EntryView>, name: Seq<char>, time: u64, n: u64, i: int)
    requires
        forall|j: int, k: int|
            0 <= j < k < list.len() ==> (#[trigger] list[j]).name != (#[trigger] list[k]).name,
        0 <= i < list.len(),
    ensures
        ({
            let now = noted(list, name, time, n);
            &&& now[i].name == list[i].name
            &&& list[i].name != name ==> now[i] == list[i]
            &&& list[i].name == name ==> now.len() == list.len() && (list[i].total + time
                <= u64::MAX ==> now[i].total == list[i].total + time) && (list[i].count + n
                <= u64::MAX ==> now[i].count == list[i].count + n)
        }),
        (forall|j: int| 0 <= j < list.len() ==> (#[trigger] list[j]).name != name) ==> noted(
            list,
            name,
            time,
            n,
        ) == list.push(EntryView { name, total: time, count: n }),
{
    entry_is_found(list, name, 0);
    match entry_named(list, name, 0) {
        Some(f) => {
            if list[i].name == name && f != i {
                if f < i {
                    assert(list[f].name != list[i].name);
                } else {
                    assert(list[i].name != list[f].name);
                }
            }
        },
        None => {},
    }
}

/// The longest times come first.
pub open spec fn falls(list: Seq<EntryView>) -> bool {
    forall|i: int, j: int|
        0 <= i < j < list.len() ==> (#[trigger] list[i]).total >= (#[trigger] list[j]).total
}

proof fn put_in_place(list: Seq<EntryView>, e: EntryView)
    requires
        falls(list),
    ensures
        falls(with_entry(list, e)),
        with_entry(list, e).len() == list.len() + 1,
        with_entry(list, e).to_multiset() == list.to_multiset().insert(e),
        forall|x: EntryView| #[trigger]
            with_entry(list, e).contains(x) ==> x == e || list.contains(x),
    decreases list.len(),
{
    let now = with_entry(list, e);
    if list.len() == 0 || list.last().total >= e.total {
        assert forall|i: int, j: int| 0 <= i < j < now.len() implies (#[trigger] now[i]).total >= (
        #[trigger] now[j]).total by {
            if j == list.len() {
                assert(list.last() == list[list.len() - 1]);
                if i < list.len() - 1 {
                    assert(list[i].total >= list[list.len() - 1].total);
                }
            }
        }
        assert forall|x: EntryView| #[trigger] now.contains(x) implies x == e || list.contains(x) by {
            let k = now.index_of(x);
            if k < list.len() {
                assert(list[k] == x);
            }
        }
        vstd::seq_lib::to_multiset_build(list, e);
    } else {
        let front = list.drop_last();
        assert forall|i: int, j: int| 0 <= i < j < front.len() implies (#[trigger] front[i]).total
            >= (#[trigger] front[j]).total by {
            assert(front[i] == list[i] && front[j] == list[j]);
        }
        put_in_place(front, e);
        let p = with_entry(front, e);
        assert forall|i: int, j: int| 0 <= i < j < now.len() implies (#[trigger] now[i]).total >= (
        #[trigger] now[j]).total by {
            if j == p.len() {
                assert(p.contains(p[i]));
                if p[i] != e {
                    let k = front.index_of(p[i]);
                    assert(front[k] == list[k]);
                    assert(list[k].total >= list[list.len() - 1].total);
                }
            }
        }
        assert forall|x: EntryView| #[trigger] now.contains(x) implies x == e || list.contains(x) by {
            let k = now.index_of(x);
            if k < p.len() {
                assert(p[k] == x);
                assert(p.contains(x));
                if x != e {
                    assert(list[front.index_of(x)] == x);
                }
            } else {
                assert(list[list.len() - 1] == x);
            }
        }
        vstd::seq_lib::to_multiset_build(p, list.last());
        vstd::seq_lib::to_multiset_build(front, list.last());
        assert(front.push(list.last()) =~= list);
        assert(front.to_multiset().insert(e).insert(list.last())
            =~= front.to_multiset().insert(list.last()).insert(e));
    }
}

/// A report holds each entry, and those that took longest come first.
pub proof fn reports_put_the_longest_first(list: Seq<EntryView>, n: int)
    requires
        0 <= n <= list.len(),
    ensures
        falls(by_time(list, n)),
        by_time(list, n).to_multiset() == list.take(n).to_multiset(),
    decreases n,
{
    if n > 0 {
        reports_put_the_longest_first(list, n - 1);
        put_in_place(by_time(list, n - 1), list[n - 1]);
        vstd::seq_lib::to_multiset_build(list.take(n - 1), list[n - 1]);
        assert(list.take(n - 1).push(list[n - 1]) =~= list.take(n));
    } else {
        assert(list.take(0) =~= Seq::empty());
    }
}

/// The whole time is that of the entries that stand under no other: those whose names do not begin
/// with two blanks.
pub proof fn whole_times_add_up(list: Seq<EntryView>, e: EntryView)
    ensures
        ({
            let n = list.len() as int;
            let before = top_time(list, n);
            let now = top_time(list.push(e), n + 1);
            &&& begins(e.name, "  "@) ==> now == before
            &&& !begins(e.name, "  "@) && before + e.total <= u64::MAX ==> now == before + e.total
        }),
        top_time(Seq::empty(), 0) == 0,
{
    same_time(list, list.push(e), list.len() as int);
}

proof fn same_time(a: Seq<EntryView>, b: Seq<EntryView>, n: int)
    requires
        n <= a.len(),
        n <= b.len(),
        forall|i: int| 0 <= i < n ==> a[i] == b[i],
    ensures
        top_time(a, n) == top_time(b, n),
    decreases n,
{
    if n > 0 {
        same_time(a, b, n - 1);
    }
}

proof fn common_start(p: Seq<char>, a: Seq<char>, b: Seq<char>, i: int)
    requires
        0 <= i <= p.len(),
    ensures
        precedes_from(p + a, p + b, i) == precedes_from(p + a, p + b, p.len() as int),
    decreases p.len() - i,
{
    if i < p.len() {
        assert((p + a)[i] == p[i] && (p + b)[i] == p[i]);
        if i < (p + b).len() {
            common_start(p, a, b, i + 1);
        }
    }
}

/// Names are ordered by the first character in which they differ; a name comes before those that it
/// begins.
pub proof fn names_are_ordered_by_their_characters(
    p: Seq<char>,
    x: char,
    y: char,
    a: Seq<char>,
    b: Seq<char>,
)
    ensures
        x != y ==> (precedes(p + seq![x] + a, p + seq![y] + b) <==> x < y),
        precedes(p, p + seq![y] + b),
        !precedes(p + seq![x] + a, p),
        !precedes(p, p),
{
    let n = p.len() as int;
    let ax = seq![x] + a;
    let by = seq![y] + b;
    assert(p + seq![x] + a =~= p + ax);
    assert(p + seq![y] + b =~= p + by);
    common_start(p, ax, by, 0);
    assert((p + ax)[n] == x && (p + by)[n] == y);
    let e = Seq::<char>::empty();
    assert(p + e =~= p);
    common_start(p, e, by, 0);
    common_start(p, ax, e, 0);
    common_start(p, e, e, 0);
}

proof fn name_is_put_in(s: Seq<Seq<char>>, x: Seq<char>)
    ensures
        forall|y: Seq<char>| #[trigger] with_name(s, x).contains(y) <==> y == x || s.contains(y),
    decreases s.len(),
{
    let now = with_name(s, x);
    if s.len() == 0 {
        assert(now[0] == x);
        assert forall|y: Seq<char>| #[trigger] now.contains(y) implies y == x by {}
    } else if s.last() == x {
        assert(s[s.len() - 1] == x);
    } else if precedes(s.last(), x) {
        assert(now[s.len() as int] == x);
        assert forall|y: Seq<char>| s.contains(y) implies #[trigger] now.contains(y) by {
            assert(now[s.index_of(y)] == y);
        }
        assert forall|y: Seq<char>| #[trigger] now.contains(y) implies y == x || s.contains(y) by {
            let k = now.index_of(y);
            if k < s.len() {
                assert(s[k] == y);
            }
        }
    } else {
        let front = s.drop_last();
        name_is_put_in(front, x);
        let p = with_name(front, x);
        assert forall|y: Seq<char>| y == x || s.contains(y) implies #[trigger] now.contains(y) by {
            if y == x || front.contains(y) {
                assert(p.contains(y));
                assert(now[p.index_of(y)] == y);
            } else {
                let k = s.index_of(y);
                if k < front.len() {
                    assert(front[k] == y);
                }
                assert(now[p.len() as int] == y);
            }
        }
        assert forall|y: Seq<char>| #[trigger] now.contains(y) implies y == x || s.contains(y) by {
            let k = now.index_of(y);
            if k < p.len() {
                assert(p[k] == y);
                assert(p.contains(y));
                if y != x {
                    assert(s[front.index_of(y)] == y);
                }
            } else {
                assert(s[s.len() - 1] == y);
            }
        }
    }
}

/// A list of names holds each name that was given, and no other.
pub proof fn lists_hold_the_given_names(s: Seq<Seq<char>>, n: int)
    requires
        0 <= n <= s.len(),
    ensures
        forall|y: Seq<char>| #[trigger] in_order(s, n).contains(y) <==> s.take(n).contains(y),
    decreases n,
{
    if n > 0 {
        lists_hold_the_given_names(s, n - 1);
        name_is_put_in(in_order(s, n - 1), s[n - 1]);
        assert forall|y: Seq<char>| #[trigger] in_order(s, n).contains(y) <==> s.take(n).contains(
            y,
        ) by {
            if s.take(n).contains(y) {
                let k = s.take(n).index_of(y);
                if k < n - 1 {
                    assert(s.take(n - 1)[k] == y);
                }
            }
            if s.take(n - 1).contains(y) {
                assert(s.take(n)[s.take(n - 1).index_of(y)] == y);
            }
            assert(s.take(n)[n - 1] == s[n - 1]);
        }
    }
}

/// The first bad point and the first bad corner are told.
pub proof fn the_first_fault_is_told(points: Seq<[u32; 3]>, faces: Seq<[u32; 3]>, k: int, e: int)
    requires
        0 <= k,
        0 <= e,
    ensures
        not_finite(points, k) matches Some(i) ==> k <= i < points.len() && !finite_point(points[i]),
        forall|j: int| #![trigger points[j]]
            k <= j < (match not_finite(points, k) {
                Some(i) => i,
                None => points.len() as int,
            }) ==> finite_point(points[j]),
        not_a_number(points, k) matches Some(i) ==> k <= i < points.len() && (is_nan(points[i]@[0])
            || is_nan(points[i]@[1]) || is_nan(points[i]@[2])),
        forall|j: int| #![trigger points[j]]
            k <= j < (match not_a_number(points, k) {
                Some(i) => i,
                None => points.len() as int,
            }) ==> !is_nan(points[j]@[0]) && !is_nan(points[j]@[1]) && !is_nan(points[j]@[2]),
        stray_corner(faces, points.len(), e) matches Some(i) ==> e <= i < 3 * faces.len()
            && faces[i / 3]@[i % 3] >= points.len(),
    decreases points.len() - k, 3 * faces.len() - e,
{
    if k < points.len() {
        the_first_fault_is_told(points, faces, k + 1, e);
    } else if e < 3 * faces.len() {
        the_first_fault_is_told(points, faces, k, e + 1);
    }
    corners_are_told(faces, points.len(), e);
}

proof fn corners_are_told(faces: Seq<[u32; 3]>, n: nat, e: int)
    requires
        0 <= e,
    ensures
        stray_corner(faces, n, e) matches Some(i) ==> e <= i < 3 * faces.len() && faces[i / 3]@[i
            % 3] >= n,
    decreases 3 * faces.len() - e,
{
    if e < 3 * faces.len() && faces[e / 3]@[e % 3] < n {
        corners_are_told(faces, n, e + 1);
    }
}

/// A point has the weights of the first corner that stands in its place.
pub proof fn points_have_the_weights_of_their_corner(m: SmdView, p: [u32; 3], k: int, e: int)
    requires
        0 <= k <= e < 3 * m.triangles.len(),
        corner_of(m.triangles, e).position == p,
        forall|j: int| 0 <= j < e ==> (#[trigger] corner_of(m.triangles, j)).position != p,
    ensures
        corner_at(m.triangles, p, k) == Some(e),
        point_weights(m, p) == corner_weights(m.nodes, corner_of(m.triangles, e)),
    decreases e - k, k,
{
    if k < e {
        assert(corner_of(m.triangles, k).position != p);
        points_have_the_weights_of_their_corner(m, p, k + 1, e);
    } else {
        first_corner(m, p, 0, e);
    }
}

proof fn first_corner(m: SmdView, p: [u32; 3], k: int, e: int)
    requires
        0 <= k <= e < 3 * m.triangles.len(),
        corner_of(m.triangles, e).position == p,
        forall|j: int| 0 <= j < e ==> (#[trigger] corner_of(m.triangles, j)).position != p,
    ensures
        corner_at(m.triangles, p, k) == Some(e),
    decreases e - k,
{
    if k < e {
        assert(corner_of(m.triangles, k).position != p);
        first_corner(m, p, k + 1, e);
    }
}

} // verus!
