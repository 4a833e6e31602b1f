//! What the lines of a vertex animation mean, wherever they stand in it.
use vstd::prelude::*;

use crate::single::reading;
use crate::text::lower;
use crate::vta::{
    before_hash, start_of, starts_comment, vta_line, vta_lines, VtaErrorView, VtaRead, VtaSection,
    VtaVert,
};
use crate::words::{integer_reading, words};

verus! {

/// The words of a line.
pub open spec fn vta_words(line: Seq<char>) -> Seq<Seq<char>> {
    words(before_hash(line))
}

/// The corner is what the words of its line say: its number, its place and its normal.
pub open spec fn shape_says(t: Seq<Seq<char>>, v: VtaVert) -> bool {
    &&& t.len() == 7
    &&& integer_reading(t[0]) matches Some(i) && i >= 0 && v.index == i
    &&& reading(t[1]) == Some(v.pos[0])
    &&& reading(t[2]) == Some(v.pos[1])
    &&& reading(t[3]) == Some(v.pos[2])
    &&& reading(t[4]) == Some(v.normal[0])
    &&& reading(t[5]) == Some(v.normal[1])
    &&& reading(t[6]) == Some(v.normal[2])
}

/// The words of a line give a corner, if a time was given.
pub open spec fn gives_a_corner(t: Seq<Seq<char>>) -> bool {
    t.len() == 7 && !starts_comment(t[0]) && lower(t[0]) != lower("end"@)
}

/// A line of seven words in the animation gives one corner. It stands behind those that were read
/// for the frame before, which are kept; nothing else changes, but that the number of corners is
/// above the number of every corner.
pub proof fn corner_lines_are_kept(line: nat, text: Seq<char>, t: Seq<Seq<char>>, r: VtaRead)
    requires
        r.section == VtaSection::Animation,
        gives_a_corner(t),
    ensures
        vta_line(line, text, t, r) is Ok <==> r.time >= 0 && (integer_reading(t[0]) matches Some(i)
            && i >= 0) && reading(t[1]) is Some && reading(t[2]) is Some && reading(t[3]) is Some
            && reading(t[4]) is Some && reading(t[5]) is Some && reading(t[6]) is Some,
        vta_line(line, text, t, r) matches Ok(q) ==> {
            &&& q.verts.len() == r.verts.len() + 1
            &&& q.verts == r.verts.push(q.verts.last())
            &&& shape_says(t, q.verts.last())
            &&& q.count == (if q.verts.last().index >= r.count {
                (q.verts.last().index + 1) as nat
            } else {
                r.count
            })
            &&& q == (VtaRead { verts: q.verts, count: q.count, ..r })
        },
{
}

/// A time in the animation puts the corners that were read before into the frame of the time
/// before, and begins with none. It is an error out of the range of the skeleton.
pub proof fn times_begin_with_no_corners(line: nat, text: Seq<char>, t: Seq<Seq<char>>, r: VtaRead)
    requires
        r.section == VtaSection::Animation,
        t.len() > 0 && t.len() != 7,
        !starts_comment(t[0]),
        lower(t[0]) == lower("time"@),
    ensures
        vta_line(line, text, t, r) is Ok <==> t.len() >= 2 && (integer_reading(t[1]) matches Some(v)
            && (r.start matches Some(s) && s <= v <= r.end)),
        vta_line(line, text, t, r) matches Ok(q) ==> {
            let k = r.time - start_of(r);
            &&& t.len() >= 2
            &&& integer_reading(t[1]) == Some(q.time)
            &&& r.start matches Some(s) && s <= q.time <= r.end
            &&& q.verts.len() == 0
            &&& q.frames.len() == r.frames.len()
            &&& r.verts.len() > 0 && 0 <= k < r.frames.len() ==> q.frames[k] == r.verts
            &&& forall|j: int|
                0 <= j < r.frames.len() && j != k ==> #[trigger] q.frames[j] == r.frames[j]
            &&& q.section == r.section && q.start == r.start && q.end == r.end && q.count
                == r.count
        },
{
    assert(lower("time"@) != lower("end"@)) by {
        reveal_strlit("time");
        reveal_strlit("end");
        assert(lower("time"@).len() != lower("end"@).len());
    }
}

/// The end of the animation puts the corners that were read last into the frame of the last time.
pub proof fn the_end_keeps_the_corners(line: nat, text: Seq<char>, t: Seq<Seq<char>>, r: VtaRead)
    requires
        r.section == VtaSection::Animation,
        t.len() > 0,
        !starts_comment(t[0]),
        lower(t[0]) == lower("end"@),
    ensures
        vta_line(line, text, t, r) matches Ok(q) && ({
            let k = r.time - start_of(r);
            &&& q.verts.len() == 0
            &&& q.frames.len() == r.frames.len()
            &&& r.verts.len() > 0 && 0 <= k < r.frames.len() ==> q.frames[k] == r.verts
            &&& forall|j: int|
                0 <= j < r.frames.len() && j != k ==> #[trigger] q.frames[j] == r.frames[j]
            &&& q.section == VtaSection::Outside
        }),
{
}

/// Blank lines and comments change nothing.
pub proof fn remarks_change_nothing(line: nat, text: Seq<char>, t: Seq<Seq<char>>, r: VtaRead)
    requires
        t.len() == 0 || starts_comment(t[0]),
    ensures
        vta_line(line, text, t, r) == Ok::<VtaRead, VtaErrorView>(r),
{
}

/// The lines from `from` to `to` all give corners.
pub open spec fn all_corners(all: Seq<Seq<char>>, from: int, to: int) -> bool {
    forall|i: int| from <= i < to ==> gives_a_corner(vta_words(#[trigger] all[i]))
}

/// What lines of corners come to.
proof fn corners_are_read(all: Seq<Seq<char>>, from: int, to: int)
    requires
        0 <= from <= to <= all.len(),
        all_corners(all, from, to),
        vta_lines(all, to) is Ok,
        vta_lines(all, from) matches Ok(r) && r.section == VtaSection::Animation && r.verts.len()
            == 0,
    ensures
        vta_lines(all, from) matches Ok(r) && (vta_lines(all, to) matches Ok(q) && ({
            &&& q.verts.len() == to - from
            &&& forall|c: int|
                0 <= c < to - from ==> shape_says(vta_words(all[from + c]), #[trigger] q.verts[c])
            &&& q.frames == r.frames && q.section == r.section && q.time == r.time && q.start
                == r.start && q.end == r.end
        })),
    decreases to - from,
{
    if to > from {
        let text = before_hash(all[to - 1]);
        assert(vta_lines(all, to - 1) is Ok);
        corners_are_read(all, from, to - 1);
        let p = vta_lines(all, to - 1)->Ok_0;
        assert(gives_a_corner(vta_words(all[to - 1])));
        corner_lines_are_kept(to as nat, text, words(text), p);
        let q = vta_lines(all, to)->Ok_0;
        assert forall|c: int| 0 <= c < to - from implies shape_says(
            vta_words(all[from + c]),
            #[trigger] q.verts[c],
        ) by {
            if c < to - from - 1 {
                assert(q.verts[c] == p.verts[c]);
            }
        }
    }
}

/// The lines between a time and the next time, or the end, are the corners of the frame of that
/// time: as many as there are lines, in the order of the lines, and each what its words say.
pub proof fn frames_hold_their_lines(all: Seq<Seq<char>>, from: int, to: int)
    requires
        0 < from < to < all.len(),
        vta_lines(all, to + 1) is Ok,
        vta_lines(all, from - 1) matches Ok(r) && r.section == VtaSection::Animation,
        ({
            let t = vta_words(all[from - 1]);
            &&& t.len() > 0 && t.len() != 7
            &&& !starts_comment(t[0])
            &&& lower(t[0]) == lower("time"@)
        }),
        all_corners(all, from, to),
        ({
            let t = vta_words(all[to]);
            &&& t.len() > 0 && t.len() != 7
            &&& !starts_comment(t[0])
            &&& lower(t[0]) == lower("time"@) || lower(t[0]) == lower("end"@)
        }),
    ensures
        vta_lines(all, to + 1) matches Ok(q) && (q.start matches Some(start) && (integer_reading(
            vta_words(all[from - 1])[1],
        ) matches Some(time) && ({
            let k = time - start;
            0 <= k < q.frames.len() ==> {
                &&& q.frames[k].len() == to - from
                &&& forall|c: int|
                    0 <= c < to - from ==> shape_says(
                        vta_words(all[from + c]),
                        #[trigger] q.frames[k][c],
                    )
            }
        }))),
{
    earlier_lines_are_read(all, from, to + 1);
    earlier_lines_are_read(all, to, to + 1);
    let r = vta_lines(all, from - 1)->Ok_0;
    let text = before_hash(all[from - 1]);
    times_begin_with_no_corners(from as nat, text, words(text), r);
    corners_are_read(all, from, to);
    let p = vta_lines(all, to)->Ok_0;
    let last = before_hash(all[to]);
    let t = words(last);
    if lower(t[0]) == lower("end"@) {
        the_end_keeps_the_corners((to + 1) as nat, last, t, p);
    } else {
        times_begin_with_no_corners((to + 1) as nat, last, t, p);
    }
}

proof fn earlier_lines_are_read(all: Seq<Seq<char>>, i: int, n: int)
    requires
        0 <= i <= n,
        vta_lines(all, n) is Ok,
    ensures
        vta_lines(all, i) is Ok,
    decreases n - i,
{
    if i < n {
        assert(vta_lines(all, n - 1) is Ok);
        earlier_lines_are_read(all, i, n - 1);
    }
}

/// A frame stays what it is while other times are read.
pub proof fn frames_of_other_times_stay(line: nat, text: Seq<char>, t: Seq<Seq<char>>, r: VtaRead, k: int)
    requires
        r.section == VtaSection::Animation,
        0 <= k < r.frames.len(),
        k != r.time - start_of(r),
    ensures
        vta_line(line, text, t, r) matches Ok(q) ==> q.frames.len() == r.frames.len()
            && q.frames[k] == r.frames[k],
{
}

/// The times of a skeleton give the range of the frames: the first is where it starts, the last
/// where it ends, and there is one frame for each time in between.
pub proof fn skeletons_give_the_range(line: nat, text: Seq<char>, t: Seq<Seq<char>>, r: VtaRead)
    requires
        r.section == VtaSection::Skeleton,
        t.len() >= 2,
        !starts_comment(t[0]),
        lower(t[0]) == lower("time"@),
    ensures
        vta_line(line, text, t, r) matches Ok(q) ==> {
            &&& integer_reading(t[1]) matches Some(v) && q.times == r.times.push(v) && q.last
                == Some(v)
            &&& r.last matches Some(p) ==> p <= integer_reading(t[1])->Some_0
            &&& r.start is Some ==> q.start == r.start
            &&& r.start is None ==> q.start == integer_reading(t[1])
            &&& q.end >= r.end && q.end >= integer_reading(t[1])->Some_0
            &&& q.end == r.end || q.end == integer_reading(t[1])->Some_0
            &&& q.frames == r.frames && q.verts == r.verts
        },
{
    assert(lower("time"@) != lower("end"@)) by {
        reveal_strlit("time");
        reveal_strlit("end");
        assert(lower("time"@).len() != lower("end"@).len());
    }
}

} // verus!
