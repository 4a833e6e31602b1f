//! Vertex animations: moved corners, frame by frame, in a plain text format.
use vstd::prelude::*;

use crate::single::{parse, reading};
use crate::smd::{signed_decimal, signed_text};
use crate::text::{decimal, lower, push_decimal, same_but_case};
use crate::words::{
    before_char, find_char, integer_reading, lines, parse_integer, shown, shown_text, split_lines,
    split_words, views, words,
};

verus! {

/// What is wrong with an animation, and on which line.
#[derive(Debug, Clone, PartialEq, Eq)]
pub struct VtaError {
    /// The line, counted from 1; 0 where none applies.
    pub line: usize,
    /// What is wrong.
    pub message: String,
}

/// An error as a mathematical value.
#[verifier::ext_equal]
pub struct VtaErrorView {
    /// The line.
    pub line: nat,
    /// What is wrong.
    pub message: Seq<char>,
}

impl View for VtaError {
    type V = VtaErrorView;

    open spec fn view(&self) -> VtaErrorView {
        VtaErrorView { line: self.line as nat, message: self.message@ }
    }
}

impl VtaError {
    /// The error on one line.
    pub fn describe(&self) -> (r: String)
        ensures
            r@ == "第 "@ + decimal(self.line as nat) + " 行："@ + self.message@,
    {
        let mut s: String = "第 ".to_owned();
        push_decimal(&mut s, self.line as u64);
        s.push_str(" 行：");
        s.push_str(self.message.as_str());
        s
    }
}

/// A corner in a frame; the numbers are bit patterns.
#[derive(Debug, Clone, Copy, PartialEq)]
pub struct VtaVert {
    /// The number of the corner in this file.
    pub index: u32,
    /// The position.
    pub pos: [u32; 3],
    /// The normal.
    pub normal: [u32; 3],
}

/// An animation.
#[derive(Debug, Clone, PartialEq)]
pub struct Vta {
    /// The first time of the skeleton.
    pub start_frame: i32,
    /// The last time of the skeleton.
    pub end_frame: i32,
    /// The frames, counted from the first time on; a frame without data is empty.
    pub frames: Vec<Vec<VtaVert>>,
    /// One more than the largest number of a corner.
    pub num_vertices: usize,
    /// What was passed over.
    pub warnings: Vec<String>,
}

/// An animation as a mathematical value.
#[verifier::ext_equal]
pub struct VtaView {
    /// The first time of the skeleton.
    pub start_frame: i32,
    /// The last time of the skeleton.
    pub end_frame: i32,
    /// The frames.
    pub frames: Seq<Seq<VtaVert>>,
    /// One more than the largest number of a corner.
    pub num_vertices: nat,
    /// What was passed over.
    pub warnings: Seq<Seq<char>>,
}

/// Frames as mathematical values.
pub open spec fn shapes(s: Seq<Vec<VtaVert>>) -> Seq<Seq<VtaVert>> {
    Seq::new(s.len(), |i: int| s[i]@)
}

impl View for Vta {
    type V = VtaView;

    open spec fn view(&self) -> VtaView {
        VtaView {
            start_frame: self.start_frame,
            end_frame: self.end_frame,
            frames: shapes(self.frames@),
            num_vertices: self.num_vertices as nat,
            warnings: views(self.warnings@),
        }
    }
}

impl Vta {
    /// The frame `rel` after the first; nothing where there is none.
    pub fn frame(&self, rel: i32) -> (r: Option<&Vec<VtaVert>>)
        ensures
            match r {
                Some(f) => 0 <= rel < self.frames@.len() && *f == self.frames@[rel as int],
                None => rel < 0 || rel >= self.frames@.len(),
            },
    {
        if rel < 0 || rel as usize >= self.frames.len() {
            None
        } else {
            Some(&self.frames[rel as usize])
        }
    }

    /// How many frames there are.
    pub fn num_frames(&self) -> (r: usize)
        ensures
            r == self.frames@.len(),
    {
        self.frames.len()
    }
}

/// The part of the file that a line stands in.
#[derive(Clone, Copy, PartialEq, Eq, Structural)]
pub enum VtaSection {
    /// No part.
    Outside,
    /// Bones.
    Nodes,
    /// Poses.
    Skeleton,
    /// Moved corners.
    Animation,
}

/// What the lines read so far come to.
#[verifier::ext_equal]
pub struct VtaRead {
    /// The part of the file.
    pub section: VtaSection,
    /// Whether the version was given.
    pub version_seen: bool,
    /// The first time of the skeleton.
    pub start: Option<i32>,
    /// The last time of the skeleton.
    pub end: i32,
    /// The times of the skeleton.
    pub times: Seq<i32>,
    /// The time of the skeleton that was given last.
    pub last: Option<i32>,
    /// The time of the frame that is being read.
    pub time: i32,
    /// The corners of the frame that is being read.
    pub verts: Seq<VtaVert>,
    /// The frames.
    pub frames: Seq<Seq<VtaVert>>,
    /// One more than the largest number of a corner.
    pub count: nat,
    /// What was passed over.
    pub warnings: Seq<Seq<char>>,
}

/// An error on a line.
pub open spec fn vta_error(line: nat, message: Seq<char>) -> VtaErrorView {
    VtaErrorView { line, message }
}

/// The integer at place `k`, as `what`.
pub open spec fn integer_at(line: nat, t: Seq<Seq<char>>, k: int, what: Seq<char>) -> Result<
    i32,
    VtaErrorView,
> {
    if k >= t.len() {
        Err(vta_error(line, what + " 缺参数"@))
    } else {
        match integer_reading(t[k]) {
            Some(v) => Ok(v),
            None => Err(vta_error(line, what + " 不是合法整数："@ + shown_text(t[k]))),
        }
    }
}

/// The number at place `k`, as `what`.
pub open spec fn number_at(line: nat, t: Seq<Seq<char>>, k: int, what: Seq<char>) -> Result<
    u32,
    VtaErrorView,
> {
    if k >= t.len() {
        Err(vta_error(line, what + " 缺参数"@))
    } else {
        match reading(t[k]) {
            Some(v) => Ok(v),
            None => Err(vta_error(line, what + " 不是合法浮点数："@ + shown_text(t[k]))),
        }
    }
}

/// The three numbers from place `k` on.
pub open spec fn vector_at(
    line: nat,
    t: Seq<Seq<char>>,
    k: int,
    what: (Seq<char>, Seq<char>, Seq<char>),
) -> Result<[u32; 3], VtaErrorView> {
    match number_at(line, t, k, what.0) {
        Err(e) => Err(e),
        Ok(x) => match number_at(line, t, k + 1, what.1) {
            Err(e) => Err(e),
            Ok(y) => match number_at(line, t, k + 2, what.2) {
                Err(e) => Err(e),
                Ok(z) => Ok([x, y, z]),
            },
        },
    }
}

/// The first time of the skeleton; 0 where there is none.
pub open spec fn start_of(r: VtaRead) -> int {
    match r.start {
        Some(s) => s as int,
        None => 0,
    }
}

/// The first time from `t` to `end` that is not among `times`.
pub open spec fn first_missing(times: Seq<i32>, t: int, end: int) -> Option<int>
    decreases end - t + 1,
{
    if t > end {
        None
    } else if exists|i: int| 0 <= i < times.len() && times[i] == t {
        first_missing(times, t + 1, end)
    } else {
        Some(t)
    }
}

/// The frame that was being read is put in its place.
pub open spec fn flush(r: VtaRead) -> VtaRead {
    let rel = r.time - start_of(r);
    VtaRead {
        frames: if 0 <= rel < r.frames.len() && r.verts.len() > 0 {
            r.frames.update(rel, r.verts)
        } else {
            r.frames
        },
        verts: Seq::empty(),
        ..r
    }
}

/// The part of the file ends.
pub open spec fn close_section(line: nat, r: VtaRead) -> Result<VtaRead, VtaErrorView> {
    match r.section {
        VtaSection::Skeleton => match first_missing(r.times, start_of(r), r.end as int) {
            Some(t) => Err(
                vta_error(
                    line,
                    "skeleton 缺帧 "@ + signed_decimal(t) + "（`time "@ + signed_decimal(t)
                        + "` 未出现）"@,
                ),
            ),
            None => Ok(VtaRead { section: VtaSection::Outside, ..r }),
        },
        VtaSection::Animation => Ok(VtaRead { section: VtaSection::Outside, ..flush(r) }),
        _ => Ok(VtaRead { section: VtaSection::Outside, ..r }),
    }
}

/// A time of the skeleton.
pub open spec fn add_time(line: nat, t: int, r: VtaRead) -> Result<VtaRead, VtaErrorView> {
    if r.last matches Some(p) && t < p {
        Err(
            vta_error(
                line,
                "skeleton 的 time 倒退："@ + signed_decimal(r.last->0 as int) + " → "@
                    + signed_decimal(t),
            ),
        )
    } else {
        Ok(
            VtaRead {
                last: Some(t as i32),
                start: match r.start {
                    Some(s) => Some(s),
                    None => Some(t as i32),
                },
                end: if t > r.end {
                    t as i32
                } else {
                    r.end
                },
                times: r.times.push(t as i32),
                ..r
            },
        )
    }
}

/// A line of the skeleton.
pub open spec fn pose_line(line: nat, text: Seq<char>, t: Seq<Seq<char>>, r: VtaRead) -> Result<
    VtaRead,
    VtaErrorView,
> {
    if lower(t[0]) == lower("time"@) {
        match integer_at(line, t, 1, "skeleton 的 time"@) {
            Err(e) => Err(e),
            Ok(v) => add_time(line, v as int, r),
        }
    } else if t.len() == 7 {
        Ok(r)
    } else {
        Ok(
            VtaRead {
                warnings: r.warnings.push(
                    "第 "@ + decimal(line) + " 行：skeleton 里忽略 "@ + shown_text(text),
                ),
                ..r
            },
        )
    }
}

/// A line that gives a corner.
pub open spec fn corner_line(line: nat, text: Seq<char>, t: Seq<Seq<char>>, r: VtaRead) -> Result<
    VtaRead,
    VtaErrorView,
> {
    if r.time < 0 {
        Err(
            vta_error(
                line,
                "vertexanimation 的数据行出现在 `time` 之前："@ + shown_text(text),
            ),
        )
    } else {
        match integer_at(line, t, 0, "顶点下标"@) {
            Err(e) => Err(e),
            Ok(index) => if index < 0 {
                Err(vta_error(line, "顶点下标为负："@ + signed_decimal(index as int)))
            } else {
                match vector_at(line, t, 1, ("PosX"@, "PosY"@, "PosZ"@)) {
                    Err(e) => Err(e),
                    Ok(pos) => match vector_at(line, t, 4, ("NormX"@, "NormY"@, "NormZ"@)) {
                        Err(e) => Err(e),
                        Ok(normal) => Ok(
                            VtaRead {
                                count: if index >= r.count {
                                    (index + 1) as nat
                                } else {
                                    r.count
                                },
                                verts: r.verts.push(VtaVert { index: index as u32, pos, normal }),
                                ..r
                            },
                        ),
                    },
                }
            },
        }
    }
}

/// A line that starts a frame.
pub open spec fn time_line(line: nat, t: Seq<Seq<char>>, r: VtaRead) -> Result<
    VtaRead,
    VtaErrorView,
> {
    let f = flush(r);
    match integer_at(line, t, 1, "vertexanimation 的 time"@) {
        Err(e) => Err(e),
        Ok(v) => match r.start {
            None => Err(
                vta_error(line, "vertexanimation 出现在 skeleton 之前（帧范围未知）"@),
            ),
            Some(start) => if v < start || v > r.end {
                Err(
                    vta_error(
                        line,
                        "time "@ + signed_decimal(v as int) + " 超出 skeleton 范围 ["@
                            + signed_decimal(start as int) + ", "@ + signed_decimal(r.end as int)
                            + "]"@,
                    ),
                )
            } else {
                Ok(VtaRead { time: v, ..f })
            },
        },
    }
}

/// A line of the moved corners.
pub open spec fn shape_line(line: nat, text: Seq<char>, t: Seq<Seq<char>>, r: VtaRead) -> Result<
    VtaRead,
    VtaErrorView,
> {
    if t.len() == 7 {
        corner_line(line, text, t, r)
    } else if lower(t[0]) == lower("time"@) {
        time_line(line, t, r)
    } else {
        Err(
            vta_error(
                line,
                "vertexanimation 里的未知命令或格式错误的数据行："@ + shown_text(text)
                    + "（数据行必须是 7 个字段：`<下标> <px py pz> <nx ny nz>`，实际 "@ + decimal(
                    t.len(),
                ) + " 个）"@,
            ),
        )
    }
}

/// How many frames there are from `start` to `end`.
pub open spec fn frame_count(start: int, end: int) -> nat {
    if end >= start {
        (end - start + 1) as nat
    } else {
        0
    }
}

/// Empty frames.
pub open spec fn empty_frames(n: nat) -> Seq<Seq<VtaVert>> {
    Seq::new(n, |i: int| Seq::<VtaVert>::empty())
}

/// A line outside all parts.
pub open spec fn outer_line(line: nat, t: Seq<Seq<char>>, r: VtaRead) -> Result<
    VtaRead,
    VtaErrorView,
> {
    if lower(t[0]) == lower("version"@) {
        match integer_at(line, t, 1, "version"@) {
            Err(e) => Err(e),
            Ok(v) => if v != 1 {
                Err(
                    vta_error(
                        line,
                        "bad version："@ + signed_decimal(v as int) + "（只支持 1）"@,
                    ),
                )
            } else {
                Ok(VtaRead { version_seen: true, ..r })
            },
        }
    } else if lower(t[0]) == lower("nodes"@) {
        Ok(VtaRead { section: VtaSection::Nodes, ..r })
    } else if lower(t[0]) == lower("skeleton"@) {
        Ok(VtaRead { section: VtaSection::Skeleton, ..r })
    } else if lower(t[0]) == lower("vertexanimation"@) {
        match r.start {
            None => Err(
                vta_error(line, "vertexanimation 出现在 skeleton 之前（帧范围未知）"@),
            ),
            Some(start) => Ok(
                VtaRead {
                    frames: empty_frames(frame_count(start as int, r.end as int)),
                    section: VtaSection::Animation,
                    ..r
                },
            ),
        }
    } else {
        Ok(
            VtaRead {
                warnings: r.warnings.push(
                    "第 "@ + decimal(line) + " 行：未知命令 "@ + shown_text(t[0]) + "（已忽略）"@,
                ),
                ..r
            },
        )
    }
}

/// A word that starts a comment.
pub open spec fn starts_comment(w: Seq<char>) -> bool {
    w.len() >= 2 && w[0] == '/' && w[1] == '/'
}

/// What a line adds to what was read before it. `text` is the line without what stands behind a
/// hash sign, and `t` are its words.
pub open spec fn vta_line(line: nat, text: Seq<char>, t: Seq<Seq<char>>, r: VtaRead) -> Result<
    VtaRead,
    VtaErrorView,
> {
    if t.len() == 0 || starts_comment(t[0]) {
        Ok(r)
    } else if lower(t[0]) == lower("end"@) {
        close_section(line, r)
    } else {
        match r.section {
            VtaSection::Nodes => Ok(r),
            VtaSection::Skeleton => pose_line(line, text, t, r),
            VtaSection::Animation => shape_line(line, text, t, r),
            VtaSection::Outside => outer_line(line, t, r),
        }
    }
}

/// A line without carriage returns at its end.
pub open spec fn without_returns(s: Seq<char>) -> Seq<char>
    decreases s.len(),
{
    if s.len() > 0 && s.last() == '\r' {
        without_returns(s.drop_last())
    } else {
        s
    }
}

/// A line without what stands behind a hash sign.
pub open spec fn before_hash(s: Seq<char>) -> Seq<char> {
    let l = without_returns(s);
    l.take(find_char(l, '#', 0))
}

/// What the first `n` lines come to.
pub open spec fn vta_lines(all: Seq<Seq<char>>, n: int) -> Result<VtaRead, VtaErrorView>
    decreases n,
{
    if n <= 0 {
        Ok(
            VtaRead {
                section: VtaSection::Outside,
                version_seen: false,
                start: None,
                end: -1i32,
                times: Seq::empty(),
                last: None,
                time: -1i32,
                verts: Seq::empty(),
                frames: Seq::empty(),
                count: 0,
                warnings: Seq::empty(),
            },
        )
    } else {
        match vta_lines(all, n - 1) {
            Err(e) => Err(e),
            Ok(r) => {
                let text = before_hash(all[n - 1]);
                vta_line(n as nat, text, words(text), r)
            },
        }
    }
}

/// Frames, with empty ones behind them up to `n`.
pub open spec fn padded(frames: Seq<Seq<VtaVert>>, n: nat) -> Seq<Seq<VtaVert>> {
    if frames.len() >= n {
        frames
    } else {
        frames + empty_frames((n - frames.len()) as nat)
    }
}

/// The animation that what was read comes to.
pub open spec fn vta_finish(r: VtaRead) -> Result<VtaView, VtaErrorView> {
    match r.start {
        None => Err(vta_error(0, "缺少 `skeleton` 块（无法确定帧范围）"@)),
        Some(start) => Ok(
            VtaView {
                start_frame: start,
                end_frame: r.end,
                frames: padded(r.frames, frame_count(start as int, r.end as int)),
                num_vertices: r.count,
                warnings: if r.version_seen {
                    r.warnings
                } else {
                    r.warnings.push("缺少 `version 1`（studiomdl 会报 bad version）"@)
                },
            },
        ),
    }
}

/// The animation that a text gives.
pub open spec fn animation(text: Seq<char>) -> Result<VtaView, VtaErrorView> {
    let all = lines(text);
    match vta_lines(all, all.len() as int) {
        Err(e) => Err(e),
        Ok(r) => vta_finish(r),
    }
}

/// What the lines read so far come to.
struct Reader {
    section: VtaSection,
    version_seen: bool,
    start: Option<i32>,
    end: i32,
    times: Vec<i32>,
    last: Option<i32>,
    time: i32,
    verts: Vec<VtaVert>,
    frames: Vec<Vec<VtaVert>>,
    count: usize,
    warnings: Vec<String>,
}

impl View for Reader {
    type V = VtaRead;

    closed spec fn view(&self) -> VtaRead {
        VtaRead {
            section: self.section,
            version_seen: self.version_seen,
            start: self.start,
            end: self.end,
            times: self.times@,
            last: self.last,
            time: self.time,
            verts: self.verts@,
            frames: shapes(self.frames@),
            count: self.count as nat,
            warnings: views(self.warnings@),
        }
    }
}

/// `r` is what the line comes to.
spec fn came_to(r: Result<Reader, VtaError>, want: Result<VtaRead, VtaErrorView>) -> bool {
    match (r, want) {
        (Ok(a), Ok(b)) => a@ == b,
        (Err(a), Err(b)) => a@ == b,
        _ => false,
    }
}

/// An error on a line.
fn err(line: usize, message: String) -> (r: VtaError)
    ensures
        r@ == vta_error(line as nat, message@),
{
    VtaError { line, message }
}

/// A message made of three parts.
fn join3(a: &str, b: &str, c: &str) -> (r: String)
    ensures
        r@ == a@ + b@ + c@,
{
    let mut s: String = a.to_owned();
    s.push_str(b);
    s.push_str(c);
    s
}

/// A message made of two parts.
fn join2(a: &str, b: &str) -> (r: String)
    ensures
        r@ == a@ + b@,
{
    let mut s: String = a.to_owned();
    s.push_str(b);
    s
}

/// The integer at place `k`.
fn parse_i32(line: usize, t: &Vec<String>, k: usize, what: &str) -> (r: Result<i32, VtaError>)
    ensures
        match (r, integer_at(line as nat, views(t@), k as int, what@)) {
            (Ok(a), Ok(b)) => a == b,
            (Err(a), Err(b)) => a@ == b,
            _ => false,
        },
{
    if k >= t.len() {
        return Err(err(line, join2(what, " 缺参数")));
    }
    match parse_integer(t[k].as_str()) {
        Some(v) => Ok(v),
        None => Err(err(line, join3(what, " 不是合法整数：", shown(t[k].as_str()).as_str()))),
    }
}

/// The number at place `k`.
fn parse_f(line: usize, t: &Vec<String>, k: usize, what: &str) -> (r: Result<u32, VtaError>)
    ensures
        match (r, number_at(line as nat, views(t@), k as int, what@)) {
            (Ok(a), Ok(b)) => a == b,
            (Err(a), Err(b)) => a@ == b,
            _ => false,
        },
{
    if k >= t.len() {
        return Err(err(line, join2(what, " 缺参数")));
    }
    match parse(t[k].as_str()) {
        Some(v) => Ok(v),
        None => Err(err(line, join3(what, " 不是合法浮点数：", shown(t[k].as_str()).as_str()))),
    }
}

/// The three numbers from place `k` on.
fn parse_vector(line: usize, t: &Vec<String>, k: usize, a: &str, b: &str, c: &str) -> (r: Result<
    [u32; 3],
    VtaError,
>)
    requires
        k < 1000,
    ensures
        match (r, vector_at(line as nat, views(t@), k as int, (a@, b@, c@))) {
            (Ok(x), Ok(y)) => x == y,
            (Err(x), Err(y)) => x@ == y,
            _ => false,
        },
{
    let x: u32 = match parse_f(line, t, k, a) {
        Ok(x) => x,
        Err(e) => {
            return Err(e);
        },
    };
    let y: u32 = match parse_f(line, t, k + 1, b) {
        Ok(y) => y,
        Err(e) => {
            return Err(e);
        },
    };
    let z: u32 = match parse_f(line, t, k + 2, c) {
        Ok(z) => z,
        Err(e) => {
            return Err(e);
        },
    };
    Ok([x, y, z])
}

/// The frame that was being read is put in its place.
fn put_frame(r: Reader) -> (q: Reader)
    ensures
        q@ == flush(r@),
{
    let mut q: Reader = r;
    let start: i64 = match q.start {
        Some(s) => s as i64,
        None => 0,
    };
    let rel: i64 = q.time as i64 - start;
    let verts: Vec<VtaVert> = q.verts;
    q.verts = Vec::new();
    if rel >= 0 && (rel as u64) < q.frames.len() as u64 && verts.len() > 0 {
        let ghost before = q.frames@;
        q.frames.set(rel as usize, verts);
        assert(shapes(q.frames@) =~= shapes(before).update(rel as int, verts@));
    }
    assert(q@.verts =~= Seq::empty());
    q
}

/// Tells whether a time is among those of the skeleton.
fn has_time(times: &Vec<i32>, t: i64) -> (r: bool)
    ensures
        r == exists|i: int| 0 <= i < times@.len() && times@[i] == t,
{
    let mut i: usize = 0;
    while i < times.len()
        invariant
            i <= times@.len(),
            forall|j: int| 0 <= j < i ==> times@[j] != t,
        decreases times@.len() - i,
    {
        if times[i] as i64 == t {
            return true;
        }
        i = i + 1;
    }
    false
}

/// The first time that is not among those of the skeleton.
fn find_missing(times: &Vec<i32>, start: i64, end: i64) -> (r: Option<i64>)
    requires
        -0x1_0000_0000 <= start,
        end <= 0x1_0000_0000,
    ensures
        match r {
            Some(t) => first_missing(times@, start as int, end as int) == Some(t as int)
                && start <= t <= end,
            None => first_missing(times@, start as int, end as int) is None,
        },
{
    let mut t: i64 = start;
    while t <= end
        invariant
            -0x1_0000_0000 <= start,
            start <= t,
            end <= 0x1_0000_0000,
            first_missing(times@, t as int, end as int) == first_missing(
                times@,
                start as int,
                end as int,
            ),
        decreases end - t + 1,
    {
        if !has_time(times, t) {
            return Some(t);
        }
        t = t + 1;
    }
    None
}

/// The part of the file ends.
fn take_end(line: usize, r: Reader) -> (q: Result<Reader, VtaError>)
    ensures
        came_to(q, close_section(line as nat, r@)),
{
    let mut q: Reader = r;
    match q.section {
        VtaSection::Skeleton => {
            let start: i64 = match q.start {
                Some(s) => s as i64,
                None => 0,
            };
            if let Some(t) = find_missing(&q.times, start, q.end as i64) {
                let text: String = signed_text(t as i32);
                let mut m: String = "skeleton 缺帧 ".to_owned();
                m.push_str(text.as_str());
                m.push_str("（`time ");
                m.push_str(text.as_str());
                m.push_str("` 未出现）");
                return Err(err(line, m));
            }
        },
        VtaSection::Animation => {
            q = put_frame(q);
        },
        _ => {},
    }
    q.section = VtaSection::Outside;
    Ok(q)
}

/// A note on what was passed over.
fn warn(r: Reader, message: String) -> (q: Reader)
    ensures
        q@ == (VtaRead { warnings: r@.warnings.push(message@), ..r@ }),
{
    let mut q: Reader = r;
    q.warnings.push(message);
    assert(q@.warnings =~= r@.warnings.push(message@));
    q
}

/// A line of the skeleton.
fn take_pose(line: usize, text: &str, t: &Vec<String>, r: Reader) -> (q: Result<Reader, VtaError>)
    requires
        t@.len() > 0,
    ensures
        came_to(q, pose_line(line as nat, text@, views(t@), r@)),
{
    let mut q: Reader = r;
    if same_but_case(t[0].as_str(), "time") {
        let v: i32 = match parse_i32(line, t, 1, "skeleton 的 time") {
            Ok(v) => v,
            Err(e) => {
                return Err(e);
            },
        };
        if let Some(p) = q.last {
            if v < p {
                let mut m: String = "skeleton 的 time 倒退：".to_owned();
                m.push_str(signed_text(p).as_str());
                m.push_str(" → ");
                m.push_str(signed_text(v).as_str());
                return Err(err(line, m));
            }
        }
        q.last = Some(v);
        if q.start.is_none() {
            q.start = Some(v);
        }
        if v > q.end {
            q.end = v;
        }
        q.times.push(v);
        return Ok(q);
    }
    if t.len() == 7 {
        return Ok(q);
    }
    let mut m: String = "第 ".to_owned();
    push_decimal(&mut m, line as u64);
    m.push_str(" 行：skeleton 里忽略 ");
    m.push_str(shown(text).as_str());
    Ok(warn(q, m))
}

/// A line that gives a corner.
fn take_corner(line: usize, text: &str, t: &Vec<String>, r: Reader) -> (q: Result<Reader, VtaError>)
    ensures
        came_to(q, corner_line(line as nat, text@, views(t@), r@)),
{
    let mut q: Reader = r;
    if q.time < 0 {
        return Err(
            err(
                line,
                join2("vertexanimation 的数据行出现在 `time` 之前：", shown(text).as_str()),
            ),
        );
    }
    let index: i32 = match parse_i32(line, t, 0, "顶点下标") {
        Ok(v) => v,
        Err(e) => {
            return Err(e);
        },
    };
    if index < 0 {
        return Err(err(line, join2("顶点下标为负：", signed_text(index).as_str())));
    }
    let pos: [u32; 3] = match parse_vector(line, t, 1, "PosX", "PosY", "PosZ") {
        Ok(v) => v,
        Err(e) => {
            return Err(e);
        },
    };
    let normal: [u32; 3] = match parse_vector(line, t, 4, "NormX", "NormY", "NormZ") {
        Ok(v) => v,
        Err(e) => {
            return Err(e);
        },
    };
    if index as usize >= q.count {
        q.count = index as usize + 1;
    }
    q.verts.push(VtaVert { index: index as u32, pos, normal });
    Ok(q)
}

/// A line that starts a frame.
fn take_time(line: usize, t: &Vec<String>, r: Reader) -> (q: Result<Reader, VtaError>)
    ensures
        came_to(q, time_line(line as nat, views(t@), r@)),
{
    let mut q: Reader = put_frame(r);
    let v: i32 = match parse_i32(line, t, 1, "vertexanimation 的 time") {
        Ok(v) => v,
        Err(e) => {
            return Err(e);
        },
    };
    match q.start {
        None => Err(
            err(line, "vertexanimation 出现在 skeleton 之前（帧范围未知）".to_owned()),
        ),
        Some(start) => {
            if v < start || v > q.end {
                let mut m: String = "time ".to_owned();
                m.push_str(signed_text(v).as_str());
                m.push_str(" 超出 skeleton 范围 [");
                m.push_str(signed_text(start).as_str());
                m.push_str(", ");
                m.push_str(signed_text(q.end).as_str());
                m.push_str("]");
                return Err(err(line, m));
            }
            q.time = v;
            Ok(q)
        },
    }
}

/// A line of the moved corners.
fn take_shape(line: usize, text: &str, t: &Vec<String>, r: Reader) -> (q: Result<Reader, VtaError>)
    requires
        t@.len() > 0,
    ensures
        came_to(q, shape_line(line as nat, text@, views(t@), r@)),
{
    if t.len() == 7 {
        take_corner(line, text, t, r)
    } else if same_but_case(t[0].as_str(), "time") {
        take_time(line, t, r)
    } else {
        let mut m: String = "vertexanimation 里的未知命令或格式错误的数据行：".to_owned();
        m.push_str(shown(text).as_str());
        m.push_str("（数据行必须是 7 个字段：`<下标> <px py pz> <nx ny nz>`，实际 ");
        push_decimal(&mut m, t.len() as u64);
        m.push_str(" 个）");
        Err(err(line, m))
    }
}

/// Puts empty frames behind frames, up to `n`.
fn pad(frames: Vec<Vec<VtaVert>>, n: u64) -> (r: Vec<Vec<VtaVert>>)
    requires
        n <= 0x1_0000_0000,
    ensures
        shapes(r@) == padded(shapes(frames@), n as nat),
{
    let mut out: Vec<Vec<VtaVert>> = frames;
    let ghost before = shapes(out@);
    while (out.len() as u64) < n
        invariant
            n <= 0x1_0000_0000,
            before == shapes(frames@),
            before.len() <= out@.len(),
            out@.len() <= n || out@.len() == before.len(),
            forall|i: int| 0 <= i < before.len() ==> #[trigger] shapes(out@)[i] == before[i],
            forall|i: int|
                before.len() <= i < out@.len() ==> #[trigger] shapes(out@)[i] == Seq::<
                    VtaVert,
                >::empty(),
        decreases n - out@.len(),
    {
        let ghost prev = shapes(out@);
        let e: Vec<VtaVert> = Vec::new();
        assert(e@ =~= Seq::empty());
        out.push(e);
        assert(shapes(out@) =~= prev.push(Seq::empty()));
        assert forall|i: int| 0 <= i < before.len() implies #[trigger] shapes(out@)[i]
            == before[i] by {
            assert(prev[i] == before[i]);
        }
        assert forall|i: int| before.len() <= i < out@.len() implies #[trigger] shapes(out@)[i]
            == Seq::<VtaVert>::empty() by {
            if i < prev.len() {
                assert(prev[i] == Seq::<VtaVert>::empty());
            }
        }
    }
    assert(shapes(out@) =~= padded(before, n as nat));
    out
}

/// How many frames there are from `start` to `end`.
fn count_frames(start: i32, end: i32) -> (r: u64)
    ensures
        r == frame_count(start as int, end as int),
        r <= 0xFFFF_FFFF + 1,
{
    if end >= start {
        (end as i64 - start as i64 + 1) as u64
    } else {
        0
    }
}

/// A line outside all parts.
fn take_outer(line: usize, t: &Vec<String>, r: Reader) -> (q: Result<Reader, VtaError>)
    requires
        t@.len() > 0,
        r@.end >= -1,
    ensures
        came_to(q, outer_line(line as nat, views(t@), r@)),
{
    let mut q: Reader = r;
    let word: &str = t[0].as_str();
    if same_but_case(word, "version") {
        let v: i32 = match parse_i32(line, t, 1, "version") {
            Ok(v) => v,
            Err(e) => {
                return Err(e);
            },
        };
        if v != 1 {
            return Err(
                err(line, join3("bad version：", signed_text(v).as_str(), "（只支持 1）")),
            );
        }
        q.version_seen = true;
        Ok(q)
    } else if same_but_case(word, "nodes") {
        q.section = VtaSection::Nodes;
        Ok(q)
    } else if same_but_case(word, "skeleton") {
        q.section = VtaSection::Skeleton;
        Ok(q)
    } else if same_but_case(word, "vertexanimation") {
        match q.start {
            None => Err(
                err(line, "vertexanimation 出现在 skeleton 之前（帧范围未知）".to_owned()),
            ),
            Some(start) => {
                let n: u64 = count_frames(start, q.end);
                let none: Vec<Vec<VtaVert>> = Vec::new();
                assert(shapes(none@) =~= Seq::empty());
                q.frames = pad_all(none, n);
                q.section = VtaSection::Animation;
                Ok(q)
            },
        }
    } else {
        let mut m: String = "第 ".to_owned();
        push_decimal(&mut m, line as u64);
        m.push_str(" 行：未知命令 ");
        m.push_str(shown(word).as_str());
        m.push_str("（已忽略）");
        Ok(warn(q, m))
    }
}

/// Empty frames.
fn pad_all(none: Vec<Vec<VtaVert>>, n: u64) -> (r: Vec<Vec<VtaVert>>)
    requires
        none@.len() == 0,
        n <= 0x1_0000_0000,
    ensures
        shapes(r@) == empty_frames(n as nat),
{
    let r: Vec<Vec<VtaVert>> = pad(none, n);
    assert(shapes(r@) =~= empty_frames(n as nat));
    r
}

/// Tells whether a word starts a comment.
fn is_comment(w: &str) -> (r: bool)
    ensures
        r == starts_comment(w@),
{
    let c: Vec<char> = crate::text::chars_of(w);
    c.len() >= 2 && c[0] == '/' && c[1] == '/'
}

/// A line.
fn take_line(line: usize, text: &str, t: &Vec<String>, r: Reader) -> (q: Result<Reader, VtaError>)
    requires
        r@.end >= -1,
    ensures
        came_to(q, vta_line(line as nat, text@, views(t@), r@)),
        q matches Ok(x) ==> x@.end >= -1,
{
    if t.len() == 0 || is_comment(t[0].as_str()) {
        return Ok(r);
    }
    if same_but_case(t[0].as_str(), "end") {
        return take_end(line, r);
    }
    match r.section {
        VtaSection::Nodes => Ok(r),
        VtaSection::Skeleton => take_pose(line, text, t, r),
        VtaSection::Animation => take_shape(line, text, t, r),
        VtaSection::Outside => take_outer(line, t, r),
    }
}

/// A line without carriage returns at its end.
fn cut_returns(s: &str) -> (r: String)
    ensures
        r@ == without_returns(s@),
{
    let c: Vec<char> = crate::text::chars_of(s);
    let mut e: usize = c.len();
    assert(s@.take(e as int) =~= s@);
    while e > 0 && c[e - 1] == '\r'
        invariant
            e <= c@.len(),
            c@ == s@,
            without_returns(s@.take(e as int)) == without_returns(s@),
        decreases e,
    {
        assert(s@.take(e as int).last() == s@[e - 1]);
        assert(s@.take(e as int).drop_last() =~= s@.take(e - 1));
        e = e - 1;
    }
    assert(e > 0 ==> s@.take(e as int).last() == s@[e - 1]);
    let r: String = crate::text::string_of(&c, 0, e);
    assert(r@ =~= s@.take(e as int));
    r
}

/// An error among the first lines stays the error of all.
proof fn lines_error_stays(all: Seq<Seq<char>>, m: int, n: int)
    requires
        m <= n,
        vta_lines(all, m) is Err,
    ensures
        vta_lines(all, n) == vta_lines(all, m),
    decreases n - m,
{
    if m < n && n > 0 {
        lines_error_stays(all, m, n - 1);
    }
}

/// Reads an animation.
pub fn parse_vta(text: &str) -> (r: Result<Vta, VtaError>)
    ensures
        match (r, animation(text@)) {
            (Ok(a), Ok(b)) => a@ == b,
            (Err(a), Err(b)) => a@ == b,
            _ => false,
        },
{
    let all: Vec<String> = split_lines(text);
    let ghost v = lines(text@);
    let mut r = Reader {
        section: VtaSection::Outside,
        version_seen: false,
        start: None,
        end: -1,
        times: Vec::new(),
        last: None,
        time: -1,
        verts: Vec::new(),
        frames: Vec::new(),
        count: 0,
        warnings: Vec::new(),
    };
    assert(r@.times =~= Seq::empty());
    assert(r@.verts =~= Seq::empty());
    assert(r@.frames =~= Seq::empty());
    assert(r@.warnings =~= Seq::empty());
    let mut i: usize = 0;
    while i < all.len()
        invariant
            i <= all@.len(),
            v == lines(text@),
            views(all@) == v,
            vta_lines(v, i as int) == Ok::<VtaRead, VtaErrorView>(r@),
            r@.end >= -1,
        decreases all@.len() - i,
    {
        assert(v[i as int] == all@[i as int]@);
        let whole: String = cut_returns(all[i].as_str());
        let body: String = before_char(whole.as_str(), '#');
        let t: Vec<String> = split_words(body.as_str());
        match take_line(i + 1, body.as_str(), &t, r) {
            Ok(q) => {
                r = q;
            },
            Err(e) => {
                proof {
                    lines_error_stays(v, i + 1, v.len() as int);
                }
                return Err(e);
            },
        }
        i = i + 1;
    }
    match r.start {
        None => Err(err(0, "缺少 `skeleton` 块（无法确定帧范围）".to_owned())),
        Some(start) => {
            if !r.version_seen {
                r = warn(r, "缺少 `version 1`（studiomdl 会报 bad version）".to_owned());
            }
            let n: u64 = count_frames(start, r.end);
            Ok(
                Vta {
                    start_frame: start,
                    end_frame: r.end,
                    frames: pad(r.frames, n),
                    num_vertices: r.count,
                    warnings: r.warnings,
                },
            )
        },
    }
}

/// All corners of a frame have numbers below `n`.
pub open spec fn below(verts: Seq<VtaVert>, n: nat) -> bool {
    forall|i: int| 0 <= i < verts.len() ==> (#[trigger] verts[i]).index < n
}

/// What was read is sound: no more frames than times, and no number of a corner above the count.
pub open spec fn sound_read(r: VtaRead) -> bool {
    &&& match r.start {
        Some(s) => s <= r.end && r.frames.len() <= frame_count(s as int, r.end as int),
        None => r.frames.len() == 0 && r.end == -1,
    }
    &&& r.end >= -1
    &&& below(r.verts, r.count)
    &&& forall|i: int| 0 <= i < r.frames.len() ==> below(#[trigger] r.frames[i], r.count)
}

proof fn flush_keeps_sound(r: VtaRead)
    requires
        sound_read(r),
    ensures
        sound_read(flush(r)),
{
    let f = flush(r);
    assert forall|i: int| 0 <= i < f.frames.len() implies below(#[trigger] f.frames[i], f.count) by {
        if f.frames[i] != r.verts {
            assert(f.frames[i] == r.frames[i]);
        }
    }
}

proof fn line_keeps_sound(line: nat, text: Seq<char>, t: Seq<Seq<char>>, r: VtaRead)
    requires
        sound_read(r),
    ensures
        vta_line(line, text, t, r) matches Ok(q) ==> sound_read(q),
{
    flush_keeps_sound(r);
    match vta_line(line, text, t, r) {
        Err(_) => {},
        Ok(q) => {
            assert forall|i: int| 0 <= i < q.frames.len() implies below(
                #[trigger] q.frames[i],
                q.count,
            ) by {
                if q.frames == r.frames {
                    assert(below(r.frames[i], r.count));
                }
            }
        },
    }
}

proof fn lines_keep_sound(all: Seq<Seq<char>>, n: int)
    ensures
        vta_lines(all, n) matches Ok(r) ==> sound_read(r),
    decreases n,
{
    if n > 0 {
        lines_keep_sound(all, n - 1);
        match vta_lines(all, n - 1) {
            Ok(r) => {
                let text = before_hash(all[n - 1]);
                line_keeps_sound(n as nat, text, words(text), r);
            },
            Err(_) => {},
        }
    }
}

/// An animation has one frame for each time from the first to the last, and the number of every
/// corner is below the number of corners.
pub proof fn animations_are_sound(text: Seq<char>)
    ensures
        animation(text) matches Ok(v) ==> {
            &&& v.start_frame <= v.end_frame
            &&& v.frames.len() == v.end_frame - v.start_frame + 1
            &&& forall|i: int|
                0 <= i < v.frames.len() ==> below(#[trigger] v.frames[i], v.num_vertices)
        },
{
    let all = lines(text);
    lines_keep_sound(all, all.len() as int);
    match vta_lines(all, all.len() as int) {
        Ok(r) => {
            match r.start {
                Some(s) => {
                    let n = frame_count(s as int, r.end as int);
                    let f = padded(r.frames, n);
                    assert forall|i: int| 0 <= i < f.len() implies below(
                        #[trigger] f[i],
                        r.count,
                    ) by {
                        if i < r.frames.len() {
                            assert(f[i] == r.frames[i]);
                        }
                    }
                },
                None => {},
            }
        },
        Err(_) => {},
    }
}

} // verus!
