//! Source meshes: bones, poses and triangles in a plain text format.
use vstd::prelude::*;

use crate::seqs::{distinct, distinct_holds_each_once};
use crate::single::{one_less, one_minus, parse, reading};
use crate::text::{decimal, push_decimal, same};
use crate::words::{
    before_slashes, integer_reading, lines, parse_integer, shown, shown_text, slashes_at,
    split_lines, split_words, unquote, views, without_back_quotes, without_front_quotes, words,
};

verus! {

/// What is wrong with a mesh, and on which line.
#[derive(Debug, Clone, PartialEq, Eq)]
pub struct SmdError {
    /// The line, counted from 1.
    pub line: usize,
    /// What is wrong.
    pub message: String,
}

/// An error as a mathematical value.
#[verifier::ext_equal]
pub struct SmdErrorView {
    /// The line.
    pub line: nat,
    /// What is wrong.
    pub message: Seq<char>,
}

impl View for SmdError {
    type V = SmdErrorView;

    open spec fn view(&self) -> SmdErrorView {
        SmdErrorView { line: self.line as nat, message: self.message@ }
    }
}

impl SmdError {
    /// The error on one line.
    pub fn describe(&self) -> (r: String)
        ensures
            r@ == "第 "@ + decimal(self.line as nat) + " 行："@ + self.message@,
    {
        let mut s: String = "第 ".to_owned();
        push_decimal(&mut s, self.line as u64);
        s.push_str(" 行：");
        s.push_str(self.message.as_str());
        s
    }
}

/// A bone.
#[derive(Debug, Clone, PartialEq, Eq)]
pub struct SmdNode {
    /// The index that the file gives it.
    pub index: i32,
    /// The name.
    pub name: String,
    /// The index of the bone that it hangs from; -1 for none.
    pub parent: i32,
}

/// A bone as a mathematical value.
#[verifier::ext_equal]
pub struct NodeView {
    /// The index that the file gives it.
    pub index: i32,
    /// The name.
    pub name: Seq<char>,
    /// The index of the bone that it hangs from.
    pub parent: i32,
}

impl View for SmdNode {
    type V = NodeView;

    open spec fn view(&self) -> NodeView {
        NodeView { index: self.index, name: self.name@, parent: self.parent }
    }
}

/// Where a bone is in a frame; the numbers are bit patterns, the angles are in radians.
#[derive(Debug, Clone, Copy, PartialEq)]
pub struct SmdPose {
    /// The index of the bone.
    pub bone: i32,
    /// The position.
    pub position: [u32; 3],
    /// The rotation.
    pub rotation: [u32; 3],
}

/// A frame.
#[derive(Debug, Clone, PartialEq)]
pub struct SmdFrame {
    /// The time.
    pub time: i32,
    /// Where the bones are.
    pub poses: Vec<SmdPose>,
}

/// A frame as a mathematical value.
#[verifier::ext_equal]
pub struct SmdFrameView {
    /// The time.
    pub time: i32,
    /// Where the bones are.
    pub poses: Seq<SmdPose>,
}

impl View for SmdFrame {
    type V = SmdFrameView;

    open spec fn view(&self) -> SmdFrameView {
        SmdFrameView { time: self.time, poses: self.poses@ }
    }
}

/// A bone that moves a vertex, and how much; the weight is a bit pattern.
#[derive(Debug, Clone, Copy, PartialEq)]
pub struct SmdBoneLink {
    /// The index of the bone.
    pub bone: i32,
    /// The weight.
    pub weight: u32,
}

/// A corner of a triangle; the numbers are bit patterns.
#[derive(Debug, Clone, PartialEq)]
pub struct SmdVertex {
    /// The bone at the start of the line.
    pub parent_bone: i32,
    /// The position.
    pub position: [u32; 3],
    /// The normal.
    pub normal: [u32; 3],
    /// The texture coordinates; the second is one less what the file says.
    pub uv: [u32; 2],
    /// The bones that move the vertex: the first three at most.
    pub links: Vec<SmdBoneLink>,
}

/// A corner as a mathematical value.
#[verifier::ext_equal]
pub struct VertexView {
    /// The bone at the start of the line.
    pub parent_bone: i32,
    /// The position.
    pub position: [u32; 3],
    /// The normal.
    pub normal: [u32; 3],
    /// The texture coordinates.
    pub uv: [u32; 2],
    /// The bones that move the vertex.
    pub links: Seq<SmdBoneLink>,
}

impl View for SmdVertex {
    type V = VertexView;

    open spec fn view(&self) -> VertexView {
        VertexView {
            parent_bone: self.parent_bone,
            position: self.position,
            normal: self.normal,
            uv: self.uv,
            links: self.links@,
        }
    }
}

/// A triangle.
#[derive(Debug, Clone, PartialEq)]
pub struct SmdTriangle {
    /// What it is made of.
    pub material: String,
    /// Its corners.
    pub vertices: [SmdVertex; 3],
}

/// A triangle as a mathematical value.
#[verifier::ext_equal]
pub struct TriangleView {
    /// What it is made of.
    pub material: Seq<char>,
    /// Its corners.
    pub vertices: Seq<VertexView>,
}

impl View for SmdTriangle {
    type V = TriangleView;

    open spec fn view(&self) -> TriangleView {
        TriangleView {
            material: self.material@,
            vertices: seq![self.vertices@[0]@, self.vertices@[1]@, self.vertices@[2]@],
        }
    }
}

/// A mesh.
#[derive(Debug, Clone, PartialEq)]
pub struct Smd {
    /// The version of the format.
    pub version: i32,
    /// The bones.
    pub nodes: Vec<SmdNode>,
    /// The frames.
    pub frames: Vec<SmdFrame>,
    /// The triangles.
    pub triangles: Vec<SmdTriangle>,
}

/// A mesh as a mathematical value.
#[verifier::ext_equal]
pub struct SmdView {
    /// The version of the format.
    pub version: i32,
    /// The bones.
    pub nodes: Seq<NodeView>,
    /// The frames.
    pub frames: Seq<SmdFrameView>,
    /// The triangles.
    pub triangles: Seq<TriangleView>,
}

/// Bones as mathematical values.
pub open spec fn node_views(s: Seq<SmdNode>) -> Seq<NodeView> {
    Seq::new(s.len(), |i: int| s[i]@)
}

/// Frames as mathematical values.
pub open spec fn smd_frame_views(s: Seq<SmdFrame>) -> Seq<SmdFrameView> {
    Seq::new(s.len(), |i: int| s[i]@)
}

/// Triangles as mathematical values.
pub open spec fn triangle_views(s: Seq<SmdTriangle>) -> Seq<TriangleView> {
    Seq::new(s.len(), |i: int| s[i]@)
}

/// Corners as mathematical values.
pub open spec fn vertex_views(s: Seq<SmdVertex>) -> Seq<VertexView> {
    Seq::new(s.len(), |i: int| s[i]@)
}

impl View for Smd {
    type V = SmdView;

    open spec fn view(&self) -> SmdView {
        SmdView {
            version: self.version,
            nodes: node_views(self.nodes@),
            frames: smd_frame_views(self.frames@),
            triangles: triangle_views(self.triangles@),
        }
    }
}

/// The materials of triangles.
pub open spec fn materials(t: Seq<TriangleView>) -> Seq<Seq<char>> {
    Seq::new(t.len(), |i: int| t[i].material)
}

/// The last bone named `name` among the first `n`.
pub open spec fn last_node(nodes: Seq<NodeView>, name: Seq<char>, n: int) -> Option<int>
    decreases n,
{
    if n <= 0 {
        None
    } else if nodes[n - 1].name == name {
        Some(n - 1)
    } else {
        last_node(nodes, name, n - 1)
    }
}

impl Smd {
    /// The place of a bone among the bones, by its name; of several the last.
    pub fn node_index(&self, name: &str) -> (r: Option<usize>)
        ensures
            match r {
                Some(i) => last_node(self@.nodes, name@, self@.nodes.len() as int) == Some(
                    i as int,
                ) && i < self.nodes@.len(),
                None => last_node(self@.nodes, name@, self@.nodes.len() as int) is None,
            },
    {
        let mut i: usize = self.nodes.len();
        while i > 0
            invariant
                i <= self.nodes@.len(),
                last_node(self@.nodes, name@, i as int) == last_node(
                    self@.nodes,
                    name@,
                    self@.nodes.len() as int,
                ),
            decreases i,
        {
            assert(self@.nodes[i - 1] == self.nodes@[i - 1]@);
            if same(self.nodes[i - 1].name.as_str(), name) {
                return Some(i - 1);
            }
            i = i - 1;
        }
        None
    }

    /// The materials, each once, in order of first appearance.
    pub fn materials_in_order(&self) -> (r: Vec<String>)
        ensures
            views(r@) == distinct(materials(self@.triangles)),
    {
        let ghost all = materials(self@.triangles);
        let mut out: Vec<String> = Vec::new();
        let mut i: usize = 0;
        assert(all.take(0) =~= Seq::empty());
        assert(views(out@) =~= distinct(all.take(0)));
        while i < self.triangles.len()
            invariant
                i <= self.triangles@.len(),
                all == materials(self@.triangles),
                views(out@) == distinct(all.take(i as int)),
            decreases self.triangles@.len() - i,
        {
            let m: &String = &self.triangles[i].material;
            assert(self@.triangles[i as int] == self.triangles@[i as int]@);
            let ghost next = all.take(i + 1);
            assert(next.drop_last() =~= all.take(i as int));
            assert(next.last() == m@);
            let ghost before = views(out@);
            if !holds(&out, m.as_str()) {
                out.push(m.clone());
                assert(views(out@) =~= before.push(m@));
            }
            i = i + 1;
        }
        assert(all.take(i as int) =~= all);
        out
    }

    /// The first frame, which gives the rest pose.
    pub fn reference_frame(&self) -> (r: Option<&SmdFrame>)
        ensures
            match r {
                Some(f) => self.frames@.len() > 0 && *f == self.frames@[0],
                None => self.frames@.len() == 0,
            },
    {
        if self.frames.len() == 0 {
            None
        } else {
            Some(&self.frames[0])
        }
    }
}

/// Tells whether a list holds a text.
pub fn holds(list: &Vec<String>, s: &str) -> (r: bool)
    ensures
        r == views(list@).contains(s@),
{
    let mut i: usize = 0;
    while i < list.len()
        invariant
            i <= list@.len(),
            forall|j: int| 0 <= j < i ==> #[trigger] views(list@)[j] != s@,
        decreases list@.len() - i,
    {
        if same(list[i].as_str(), s) {
            assert(views(list@)[i as int] == s@);
            return true;
        }
        i = i + 1;
    }
    false
}

/// The part of the file that a line stands in.
#[derive(Clone, Copy, PartialEq, Eq, Structural)]
pub enum Section {
    /// No part.
    Outside,
    /// Bones.
    Nodes,
    /// Poses.
    Skeleton,
    /// Triangles.
    Triangles,
}

/// What the lines read so far come to.
#[verifier::ext_equal]
pub struct ReadView {
    /// The version.
    pub version: Option<i32>,
    /// The bones.
    pub nodes: Seq<NodeView>,
    /// The frames that are complete.
    pub frames: Seq<SmdFrameView>,
    /// The triangles that are complete.
    pub triangles: Seq<TriangleView>,
    /// The part of the file.
    pub section: Section,
    /// The frame that is being read.
    pub frame: Option<SmdFrameView>,
    /// The material that was named last.
    pub material: Option<Seq<char>>,
    /// The corners of the triangle that is being read.
    pub pending: Seq<VertexView>,
}

/// An error on a line.
pub open spec fn smd_error(line: nat, message: Seq<char>) -> SmdErrorView {
    SmdErrorView { line, message }
}

/// The number that a word reads as, as `what`.
pub open spec fn number(line: nat, word: Seq<char>, what: Seq<char>) -> Result<u32, SmdErrorView> {
    match reading(word) {
        Some(b) => Ok(b),
        None => Err(smd_error(line, what + " 不是合法浮点数："@ + shown_text(word))),
    }
}

/// The integer that a word reads as, as `what`.
pub open spec fn integer(line: nat, word: Seq<char>, what: Seq<char>) -> Result<i32, SmdErrorView> {
    match integer_reading(word) {
        Some(v) => Ok(v),
        None => Err(smd_error(line, what + " 不是合法整数："@ + shown_text(word))),
    }
}

/// The three numbers that words read as.
pub open spec fn vector(
    line: nat,
    a: Seq<char>,
    b: Seq<char>,
    c: Seq<char>,
    what: (Seq<char>, Seq<char>, Seq<char>),
) -> Result<[u32; 3], SmdErrorView> {
    match number(line, a, what.0) {
        Err(e) => Err(e),
        Ok(x) => match number(line, b, what.1) {
            Err(e) => Err(e),
            Ok(y) => match number(line, c, what.2) {
                Err(e) => Err(e),
                Ok(z) => Ok([x, y, z]),
            },
        },
    }
}

/// The name in a word: the word without the quotes around it.
pub open spec fn name_in(word: Seq<char>) -> Seq<char> {
    without_back_quotes(without_front_quotes(word))
}

/// A line of the bones.
pub open spec fn read_node(line: nat, t: Seq<Seq<char>>) -> Result<NodeView, SmdErrorView> {
    if t.len() < 3 {
        Err(smd_error(line, "nodes 行应为 `<index> \"<name>\" <parent>`"@))
    } else {
        match integer(line, t[0], "node index"@) {
            Err(e) => Err(e),
            Ok(index) => match integer(line, t[2], "node parent"@) {
                Err(e) => Err(e),
                Ok(parent) => Ok(NodeView { index, name: name_in(t[1]), parent }),
            },
        }
    }
}

/// A line that gives the pose of a bone.
pub open spec fn read_pose(line: nat, t: Seq<Seq<char>>) -> Result<SmdPose, SmdErrorView> {
    match integer(line, t[0], "pose bone"@) {
        Err(e) => Err(e),
        Ok(bone) => match vector(line, t[1], t[2], t[3], ("pos.x"@, "pos.y"@, "pos.z"@)) {
            Err(e) => Err(e),
            Ok(position) => match vector(line, t[4], t[5], t[6], ("rot.x"@, "rot.y"@, "rot.z"@)) {
                Err(e) => Err(e),
                Ok(rotation) => Ok(SmdPose { bone, position, rotation }),
            },
        },
    }
}

/// The first `n` bones that move a vertex, of the `count` that its line promises.
pub open spec fn read_links(line: nat, t: Seq<Seq<char>>, count: int, n: int) -> Result<
    Seq<SmdBoneLink>,
    SmdErrorView,
>
    decreases n,
{
    if n <= 0 {
        Ok(Seq::empty())
    } else {
        match read_links(line, t, count, n - 1) {
            Err(e) => Err(e),
            Ok(links) => {
                let k = 10 + 2 * (n - 1);
                if k + 1 >= t.len() {
                    Err(
                        smd_error(
                            line,
                            "声明了 "@ + decimal(count as nat) + " 组绑定，但第 "@ + decimal(
                                n as nat,
                            ) + " 组不完整"@,
                        ),
                    )
                } else {
                    match integer(line, t[k], "绑定骨骼"@) {
                        Err(e) => Err(e),
                        Ok(bone) => match number(line, t[k + 1], "绑定权重"@) {
                            Err(e) => Err(e),
                            Ok(weight) => Ok(links.push(SmdBoneLink { bone, weight })),
                        },
                    }
                }
            },
        }
    }
}

/// The first three links at most.
pub open spec fn first_three(links: Seq<SmdBoneLink>) -> Seq<SmdBoneLink> {
    if links.len() <= 3 {
        links
    } else {
        links.take(3)
    }
}

/// The decimal digits of a number that may be below zero.
pub open spec fn signed_decimal(v: int) -> Seq<char> {
    if v < 0 {
        "-"@ + decimal((-v) as nat)
    } else {
        decimal(v as nat)
    }
}

/// A line that gives a corner of a triangle.
pub open spec fn read_vertex(line: nat, t: Seq<Seq<char>>, material: Option<Seq<char>>) -> Result<
    VertexView,
    SmdErrorView,
> {
    if t.len() < 12 {
        Err(
            smd_error(
                line,
                "三角形顶点行需要至少 12 个 token（parentBone + pos3 + nrm3 + uv2 + links + bone + weight），实际 "@
                    + decimal(t.len()),
            ),
        )
    } else {
        match integer(line, t[9], "links 数"@) {
            Err(e) => Err(e),
            Ok(count) => if count < 1 {
                Err(
                    smd_error(
                        line,
                        "links 数必须 ≥ 1，实际 "@ + signed_decimal(count as int),
                    ),
                )
            } else {
                match read_links(line, t, count as int, count as int) {
                    Err(e) => Err(e),
                    Ok(links) => if material is None {
                        Err(smd_error(line, "顶点行出现在任何材质名之前"@))
                    } else {
                        match integer(line, t[0], "parentBone"@) {
                            Err(e) => Err(e),
                            Ok(bone) => match vector(
                                line,
                                t[1],
                                t[2],
                                t[3],
                                ("pos.x"@, "pos.y"@, "pos.z"@),
                            ) {
                                Err(e) => Err(e),
                                Ok(position) => match vector(
                                    line,
                                    t[4],
                                    t[5],
                                    t[6],
                                    ("nrm.x"@, "nrm.y"@, "nrm.z"@),
                                ) {
                                    Err(e) => Err(e),
                                    Ok(normal) => match number(line, t[7], "u"@) {
                                        Err(e) => Err(e),
                                        Ok(u) => match number(line, t[8], "v"@) {
                                            Err(e) => Err(e),
                                            Ok(v) => Ok(
                                                VertexView {
                                                    parent_bone: bone,
                                                    position,
                                                    normal,
                                                    uv: [u, one_less(v)],
                                                    links: first_three(links),
                                                },
                                            ),
                                        },
                                    },
                                },
                            },
                        }
                    },
                }
            },
        }
    }
}

/// The frame that was being read joins those that are complete.
pub open spec fn close_frame(r: ReadView) -> ReadView {
    match r.frame {
        Some(f) => ReadView { frames: r.frames.push(f), frame: None, ..r },
        None => r,
    }
}

/// The part of the file ends.
pub open spec fn end_section(line: nat, r: ReadView) -> Result<ReadView, SmdErrorView> {
    let c = if r.section == Section::Skeleton {
        close_frame(r)
    } else {
        r
    };
    if r.section == Section::Triangles && r.pending.len() > 0 {
        Err(
            smd_error(
                line,
                "triangles 段结束时还有 "@ + decimal(r.pending.len()) + " 个未成组的顶点行"@,
            ),
        )
    } else {
        Ok(ReadView { section: Section::Outside, material: None, ..c })
    }
}

/// A line of the poses.
pub open spec fn skeleton_line(line: nat, t: Seq<Seq<char>>, r: ReadView) -> Result<
    ReadView,
    SmdErrorView,
> {
    if t[0] == "time"@ {
        let c = close_frame(r);
        if t.len() < 2 {
            Err(smd_error(line, "time 后面缺少帧号"@))
        } else {
            match integer(line, t[1], "frame time"@) {
                Err(e) => Err(e),
                Ok(time) => Ok(
                    ReadView { frame: Some(SmdFrameView { time, poses: Seq::empty() }), ..c },
                ),
            }
        }
    } else if t.len() < 7 {
        Err(smd_error(line, "skeleton 行应为 `<bone> <px py pz> <rx ry rz>`（7 个 token）"@))
    } else {
        match r.frame {
            None => Err(smd_error(line, "skeleton 段在 time 之前出现了姿态行"@)),
            Some(f) => match read_pose(line, t) {
                Err(e) => Err(e),
                Ok(p) => Ok(
                    ReadView {
                        frame: Some(SmdFrameView { poses: f.poses.push(p), ..f }),
                        ..r
                    },
                ),
            },
        }
    }
}

/// A line of the triangles: a corner where its first word is a number, else a material.
pub open spec fn triangle_line(line: nat, t: Seq<Seq<char>>, r: ReadView) -> Result<
    ReadView,
    SmdErrorView,
> {
    if reading(t[0]) is None {
        if r.pending.len() > 0 {
            Err(
                smd_error(
                    line,
                    "材质名 "@ + shown_text(t[0]) + " 出现在未完成的三角形中间（已有 "@ + decimal(
                        r.pending.len(),
                    ) + " 个顶点行）"@,
                ),
            )
        } else {
            Ok(ReadView { material: Some(name_in(t[0])), ..r })
        }
    } else {
        match read_vertex(line, t, r.material) {
            Err(e) => Err(e),
            Ok(v) => {
                let got = r.pending.push(v);
                if got.len() == 3 {
                    Ok(
                        ReadView {
                            triangles: r.triangles.push(
                                TriangleView { material: r.material->0, vertices: got },
                            ),
                            pending: Seq::empty(),
                            ..r
                        },
                    )
                } else {
                    Ok(ReadView { pending: got, ..r })
                }
            },
        }
    }
}

/// What a line with the words `t` adds to what was read before it.
pub open spec fn read_line(line: nat, t: Seq<Seq<char>>, r: ReadView) -> Result<
    ReadView,
    SmdErrorView,
> {
    if t.len() == 0 {
        Ok(r)
    } else if t[0] == "version"@ {
        if t.len() < 2 {
            Err(smd_error(line, "version 后面缺少数字"@))
        } else {
            match integer(line, t[1], "version"@) {
                Err(e) => Err(e),
                Ok(v) => Ok(ReadView { version: Some(v), ..r }),
            }
        }
    } else if t[0] == "nodes"@ {
        Ok(ReadView { section: Section::Nodes, ..r })
    } else if t[0] == "skeleton"@ {
        Ok(ReadView { section: Section::Skeleton, ..r })
    } else if t[0] == "triangles"@ {
        Ok(ReadView { section: Section::Triangles, ..r })
    } else if t[0] == "end"@ {
        end_section(line, r)
    } else {
        match r.section {
            Section::Outside => Err(
                smd_error(line, "段外出现无法识别的内容："@ + shown_text(t[0])),
            ),
            Section::Nodes => match read_node(line, t) {
                Err(e) => Err(e),
                Ok(n) => Ok(ReadView { nodes: r.nodes.push(n), ..r }),
            },
            Section::Skeleton => skeleton_line(line, t, r),
            Section::Triangles => triangle_line(line, t, r),
        }
    }
}

/// The words of a line, without what stands behind two slashes.
pub open spec fn line_words(line: Seq<char>) -> Seq<Seq<char>> {
    words(line.take(slashes_at(line, 0)))
}

/// What the first `n` lines come to.
pub open spec fn read_lines(all: Seq<Seq<char>>, n: int) -> Result<ReadView, SmdErrorView>
    decreases n,
{
    if n <= 0 {
        Ok(
            ReadView {
                version: None,
                nodes: Seq::empty(),
                frames: Seq::empty(),
                triangles: Seq::empty(),
                section: Section::Outside,
                frame: None,
                material: None,
                pending: Seq::empty(),
            },
        )
    } else {
        match read_lines(all, n - 1) {
            Err(e) => Err(e),
            Ok(r) => read_line(n as nat, line_words(all[n - 1]), r),
        }
    }
}

/// The mesh that what was read comes to, after `n` lines.
pub open spec fn finish(r: ReadView, n: nat) -> Result<SmdView, SmdErrorView> {
    let c = close_frame(r);
    if r.pending.len() > 0 {
        Err(
            smd_error(
                n,
                "文件结束时还有 "@ + decimal(r.pending.len()) + " 个未成组的顶点行"@,
            ),
        )
    } else {
        match r.version {
            None => Err(smd_error(1, "缺少 `version` 行"@)),
            Some(v) => if v != 1 {
                Err(smd_error(1, "只支持 version 1，实际为 "@ + signed_decimal(v as int)))
            } else if r.nodes.len() == 0 {
                Err(smd_error(1, "`nodes` 段为空 —— 至少需要一根骨骼"@))
            } else {
                Ok(
                    SmdView {
                        version: v,
                        nodes: r.nodes,
                        frames: c.frames,
                        triangles: r.triangles,
                    },
                )
            },
        }
    }
}

/// The mesh that a text gives.
pub open spec fn mesh(text: Seq<char>) -> Result<SmdView, SmdErrorView> {
    let all = lines(text);
    match read_lines(all, all.len() as int) {
        Err(e) => Err(e),
        Ok(r) => finish(r, all.len()),
    }
}

/// What the lines read so far come to.
struct Reader {
    version: Option<i32>,
    nodes: Vec<SmdNode>,
    frames: Vec<SmdFrame>,
    triangles: Vec<SmdTriangle>,
    section: Section,
    frame: Option<SmdFrame>,
    material: Option<String>,
    pending: Vec<SmdVertex>,
}

impl View for Reader {
    type V = ReadView;

    closed spec fn view(&self) -> ReadView {
        ReadView {
            version: self.version,
            nodes: node_views(self.nodes@),
            frames: smd_frame_views(self.frames@),
            triangles: triangle_views(self.triangles@),
            section: self.section,
            frame: match self.frame {
                Some(f) => Some(f@),
                None => None,
            },
            material: match self.material {
                Some(m) => Some(m@),
                None => None,
            },
            pending: vertex_views(self.pending@),
        }
    }
}

/// An error on a line.
fn err(line: usize, message: String) -> (r: SmdError)
    ensures
        r@ == smd_error(line as nat, message@),
{
    SmdError { line, message }
}

/// A message made of two parts.
fn join2(a: &str, b: &str) -> (r: String)
    ensures
        r@ == a@ + b@,
{
    let mut s: String = a.to_owned();
    s.push_str(b);
    s
}

/// A message made of three parts.
fn join3(a: &str, b: &str, c: &str) -> (r: String)
    ensures
        r@ == a@ + b@ + c@,
{
    let mut s: String = a.to_owned();
    s.push_str(b);
    s.push_str(c);
    s
}

/// A number in decimal digits.
pub fn decimal_text(n: usize) -> (r: String)
    ensures
        r@ == decimal(n as nat),
{
    let mut s: String = String::new();
    push_decimal(&mut s, n as u64);
    assert(s@ =~= decimal(n as nat));
    s
}

/// A number that may be below zero, in decimal digits.
pub fn signed_text(v: i32) -> (r: String)
    ensures
        r@ == signed_decimal(v as int),
{
    if v < 0 {
        let mut s: String = "-".to_owned();
        push_decimal(&mut s, (-(v as i64)) as u64);
        s
    } else {
        decimal_text(v as usize)
    }
}

/// The number that a word reads as.
fn parse_f(line: usize, word: &str, what: &str) -> (r: Result<u32, SmdError>)
    ensures
        match (r, number(line as nat, word@, what@)) {
            (Ok(a), Ok(b)) => a == b,
            (Err(a), Err(b)) => a@ == b,
            _ => false,
        },
{
    match parse(word) {
        Some(b) => Ok(b),
        None => Err(err(line, join3(what, " 不是合法浮点数：", shown(word).as_str()))),
    }
}

/// The integer that a word reads as.
fn parse_i32(line: usize, word: &str, what: &str) -> (r: Result<i32, SmdError>)
    ensures
        match (r, integer(line as nat, word@, what@)) {
            (Ok(a), Ok(b)) => a == b,
            (Err(a), Err(b)) => a@ == b,
            _ => false,
        },
{
    match parse_integer(word) {
        Some(v) => Ok(v),
        None => Err(err(line, join3(what, " 不是合法整数：", shown(word).as_str()))),
    }
}

/// The three numbers that words read as.
fn parse_vector(line: usize, t: &Vec<String>, k: usize, a: &str, b: &str, c: &str) -> (r: Result<
    [u32; 3],
    SmdError,
>)
    requires
        k + 2 < t@.len(),
    ensures
        match (
            r,
            vector(
                line as nat,
                views(t@)[k as int],
                views(t@)[k + 1],
                views(t@)[k + 2],
                (a@, b@, c@),
            ),
        ) {
            (Ok(x), Ok(y)) => x == y,
            (Err(x), Err(y)) => x@ == y,
            _ => false,
        },
{
    let n: usize = t.len();
    let x: u32 = match parse_f(line, t[k].as_str(), a) {
        Ok(x) => x,
        Err(e) => {
            return Err(e);
        },
    };
    let y: u32 = match parse_f(line, t[k + 1].as_str(), b) {
        Ok(y) => y,
        Err(e) => {
            return Err(e);
        },
    };
    let z: u32 = match parse_f(line, t[k + 2].as_str(), c) {
        Ok(z) => z,
        Err(e) => {
            return Err(e);
        },
    };
    Ok([x, y, z])
}

/// A line of the bones.
fn parse_node(line: usize, t: &Vec<String>) -> (r: Result<SmdNode, SmdError>)
    ensures
        match (r, read_node(line as nat, views(t@))) {
            (Ok(a), Ok(b)) => a@ == b,
            (Err(a), Err(b)) => a@ == b,
            _ => false,
        },
{
    if t.len() < 3 {
        return Err(err(line, "nodes 行应为 `<index> \"<name>\" <parent>`".to_owned()));
    }
    let index: i32 = match parse_i32(line, t[0].as_str(), "node index") {
        Ok(v) => v,
        Err(e) => {
            return Err(e);
        },
    };
    let parent: i32 = match parse_i32(line, t[2].as_str(), "node parent") {
        Ok(v) => v,
        Err(e) => {
            return Err(e);
        },
    };
    Ok(SmdNode { index, name: unquote(t[1].as_str()), parent })
}

/// A line that gives the pose of a bone.
fn parse_pose(line: usize, t: &Vec<String>) -> (r: Result<SmdPose, SmdError>)
    requires
        t@.len() >= 7,
    ensures
        match (r, read_pose(line as nat, views(t@))) {
            (Ok(a), Ok(b)) => a == b,
            (Err(a), Err(b)) => a@ == b,
            _ => false,
        },
{
    let bone: i32 = match parse_i32(line, t[0].as_str(), "pose bone") {
        Ok(v) => v,
        Err(e) => {
            return Err(e);
        },
    };
    let position: [u32; 3] = match parse_vector(line, t, 1, "pos.x", "pos.y", "pos.z") {
        Ok(v) => v,
        Err(e) => {
            return Err(e);
        },
    };
    let rotation: [u32; 3] = match parse_vector(line, t, 4, "rot.x", "rot.y", "rot.z") {
        Ok(v) => v,
        Err(e) => {
            return Err(e);
        },
    };
    Ok(SmdPose { bone, position, rotation })
}

/// An error among the first links stays the error of all.
proof fn links_error_stays(line: nat, t: Seq<Seq<char>>, count: int, m: int, n: int)
    requires
        m <= n,
        read_links(line, t, count, m) is Err,
    ensures
        read_links(line, t, count, n) == read_links(line, t, count, m),
    decreases n - m,
{
    if m < n && n > 0 {
        if m <= n - 1 {
            links_error_stays(line, t, count, m, n - 1);
        }
    }
}

/// The bones that move a vertex.
fn parse_links(line: usize, t: &Vec<String>, count: i32) -> (r: Result<Vec<SmdBoneLink>, SmdError>)
    requires
        count >= 1,
    ensures
        match (r, read_links(line as nat, views(t@), count as int, count as int)) {
            (Ok(a), Ok(b)) => a@ == b,
            (Err(a), Err(b)) => a@ == b,
            _ => false,
        },
{
    let ghost w = views(t@);
    let mut links: Vec<SmdBoneLink> = Vec::new();
    let mut n: i32 = 0;
    while n < count
        invariant
            0 <= n <= count,
            w == views(t@),
            read_links(line as nat, w, count as int, n as int) == Ok::<
                Seq<SmdBoneLink>,
                SmdErrorView,
            >(links@),
        decreases count - n,
    {
        let k: u64 = 10 + 2 * n as u64;
        let ghost step = read_links(line as nat, w, count as int, n + 1);
        proof {
            if step is Err {
                links_error_stays(line as nat, w, count as int, n + 1, count as int);
            }
        }
        if k + 1 >= t.len() as u64 {
            let mut m: String = "声明了 ".to_owned();
            m.push_str(signed_text(count).as_str());
            m.push_str(" 组绑定，但第 ");
            push_decimal(&mut m, n as u64 + 1);
            m.push_str(" 组不完整");
            return Err(err(line, m));
        }
        let k: usize = k as usize;
        assert(w[k as int] == t@[k as int]@ && w[k + 1] == t@[k + 1]@);
        let bone: i32 = match parse_i32(line, t[k].as_str(), "绑定骨骼") {
            Ok(v) => v,
            Err(e) => {
                return Err(e);
            },
        };
        let weight: u32 = match parse_f(line, t[k + 1].as_str(), "绑定权重") {
            Ok(v) => v,
            Err(e) => {
                return Err(e);
            },
        };
        links.push(SmdBoneLink { bone, weight });
        n = n + 1;
    }
    Ok(links)
}

/// The first three links at most.
fn keep_three(links: Vec<SmdBoneLink>) -> (r: Vec<SmdBoneLink>)
    ensures
        r@ == first_three(links@),
{
    if links.len() <= 3 {
        return links;
    }
    let mut out: Vec<SmdBoneLink> = Vec::new();
    out.push(links[0]);
    out.push(links[1]);
    out.push(links[2]);
    assert(out@ =~= links@.take(3));
    out
}

/// A line that gives a corner of a triangle.
fn parse_vertex(line: usize, t: &Vec<String>, material: &Option<String>) -> (r: Result<
    SmdVertex,
    SmdError,
>)
    ensures
        match (
            r,
            read_vertex(
                line as nat,
                views(t@),
                match *material {
                    Some(m) => Some(m@),
                    None => None,
                },
            ),
        ) {
            (Ok(a), Ok(b)) => a@ == b,
            (Err(a), Err(b)) => a@ == b,
            _ => false,
        },
{
    if t.len() < 12 {
        return Err(
            err(
                line,
                join2(
                    "三角形顶点行需要至少 12 个 token（parentBone + pos3 + nrm3 + uv2 + links + bone + weight），实际 ",
                    decimal_text(t.len()).as_str(),
                ),
            ),
        );
    }
    let count: i32 = match parse_i32(line, t[9].as_str(), "links 数") {
        Ok(v) => v,
        Err(e) => {
            return Err(e);
        },
    };
    if count < 1 {
        return Err(
            err(line, join2("links 数必须 ≥ 1，实际 ", signed_text(count).as_str())),
        );
    }
    let links: Vec<SmdBoneLink> = match parse_links(line, t, count) {
        Ok(v) => v,
        Err(e) => {
            return Err(e);
        },
    };
    if material.is_none() {
        return Err(err(line, "顶点行出现在任何材质名之前".to_owned()));
    }
    let parent_bone: i32 = match parse_i32(line, t[0].as_str(), "parentBone") {
        Ok(v) => v,
        Err(e) => {
            return Err(e);
        },
    };
    let position: [u32; 3] = match parse_vector(line, t, 1, "pos.x", "pos.y", "pos.z") {
        Ok(v) => v,
        Err(e) => {
            return Err(e);
        },
    };
    let normal: [u32; 3] = match parse_vector(line, t, 4, "nrm.x", "nrm.y", "nrm.z") {
        Ok(v) => v,
        Err(e) => {
            return Err(e);
        },
    };
    let u: u32 = match parse_f(line, t[7].as_str(), "u") {
        Ok(v) => v,
        Err(e) => {
            return Err(e);
        },
    };
    let v: u32 = match parse_f(line, t[8].as_str(), "v") {
        Ok(v) => v,
        Err(e) => {
            return Err(e);
        },
    };
    Ok(
        SmdVertex {
            parent_bone,
            position,
            normal,
            uv: [u, one_minus(v)],
            links: keep_three(links),
        },
    )
}

/// `r` is what the line comes to.
spec fn came_to(r: Result<Reader, SmdError>, want: Result<ReadView, SmdErrorView>) -> bool {
    match (r, want) {
        (Ok(a), Ok(b)) => a@ == b,
        (Err(a), Err(b)) => a@ == b,
        _ => false,
    }
}

/// The frame that was being read joins those that are complete.
fn put_frame(r: Reader) -> (q: Reader)
    ensures
        q@ == close_frame(r@),
{
    let mut q: Reader = r;
    match q.frame {
        Some(f) => {
            q.frames.push(f);
            q.frame = None;
            assert(q@.frames =~= r@.frames.push(f@));
            q
        },
        None => {
            q.frame = None;
            q
        },
    }
}

/// The part of the file ends.
fn take_end(line: usize, r: Reader) -> (q: Result<Reader, SmdError>)
    ensures
        came_to(q, end_section(line as nat, r@)),
{
    let mut q: Reader = r;
    if q.section == Section::Triangles && q.pending.len() > 0 {
        return Err(
            err(
                line,
                join3(
                    "triangles 段结束时还有 ",
                    decimal_text(q.pending.len()).as_str(),
                    " 个未成组的顶点行",
                ),
            ),
        );
    }
    if q.section == Section::Skeleton {
        q = put_frame(q);
    }
    q.section = Section::Outside;
    q.material = None;
    Ok(q)
}

/// A line of the poses.
fn take_skeleton(line: usize, t: &Vec<String>, r: Reader) -> (q: Result<Reader, SmdError>)
    requires
        t@.len() > 0,
    ensures
        came_to(q, skeleton_line(line as nat, views(t@), r@)),
{
    let mut q: Reader = r;
    if same(t[0].as_str(), "time") {
        q = put_frame(q);
        if t.len() < 2 {
            return Err(err(line, "time 后面缺少帧号".to_owned()));
        }
        let time: i32 = match parse_i32(line, t[1].as_str(), "frame time") {
            Ok(v) => v,
            Err(e) => {
                return Err(e);
            },
        };
        let f = SmdFrame { time, poses: Vec::new() };
        assert(f@.poses =~= Seq::empty());
        q.frame = Some(f);
        return Ok(q);
    }
    if t.len() < 7 {
        return Err(
            err(
                line,
                "skeleton 行应为 `<bone> <px py pz> <rx ry rz>`（7 个 token）".to_owned(),
            ),
        );
    }
    match q.frame {
        None => Err(err(line, "skeleton 段在 time 之前出现了姿态行".to_owned())),
        Some(f) => {
            let mut f: SmdFrame = f;
            let ghost before = f@;
            match parse_pose(line, t) {
                Err(e) => Err(e),
                Ok(p) => {
                    f.poses.push(p);
                    assert(f@.poses =~= before.poses.push(p));
                    q.frame = Some(f);
                    Ok(q)
                },
            }
        },
    }
}

/// A line of the triangles.
fn take_triangle(line: usize, t: &Vec<String>, r: Reader) -> (q: Result<Reader, SmdError>)
    requires
        t@.len() > 0,
        r@.pending.len() < 3,
    ensures
        came_to(q, triangle_line(line as nat, views(t@), r@)),
        q matches Ok(x) ==> x@.pending.len() < 3,
{
    let mut q: Reader = r;
    if parse(t[0].as_str()).is_none() {
        if q.pending.len() > 0 {
            let mut m: String = "材质名 ".to_owned();
            m.push_str(shown(t[0].as_str()).as_str());
            m.push_str(" 出现在未完成的三角形中间（已有 ");
            push_decimal(&mut m, q.pending.len() as u64);
            m.push_str(" 个顶点行）");
            return Err(err(line, m));
        }
        q.material = Some(unquote(t[0].as_str()));
        return Ok(q);
    }
    let v: SmdVertex = match parse_vertex(line, t, &q.material) {
        Ok(v) => v,
        Err(e) => {
            return Err(e);
        },
    };
    if q.pending.len() == 2 {
        let ghost p = q.pending@;
        let first: SmdVertex = q.pending.remove(0);
        let second: SmdVertex = q.pending.remove(0);
        assert(q@.pending =~= Seq::empty());
        let material: String = match &q.material {
            Some(m) => m.clone(),
            None => String::new(),
        };
        let tri = SmdTriangle { material, vertices: [first, second, v] };
        assert(tri@.vertices =~= r@.pending.push(v@));
        q.triangles.push(tri);
        assert(q@.triangles =~= r@.triangles.push(tri@));
    } else {
        q.pending.push(v);
        assert(q@.pending =~= r@.pending.push(v@));
    }
    Ok(q)
}

/// A line.
fn take_line(line: usize, t: &Vec<String>, r: Reader) -> (q: Result<Reader, SmdError>)
    requires
        r@.pending.len() < 3,
    ensures
        came_to(q, read_line(line as nat, views(t@), r@)),
        q matches Ok(x) ==> x@.pending.len() < 3,
{
    if t.len() == 0 {
        return Ok(r);
    }
    let mut q: Reader = r;
    let word: &str = t[0].as_str();
    if same(word, "version") {
        if t.len() < 2 {
            return Err(err(line, "version 后面缺少数字".to_owned()));
        }
        match parse_i32(line, t[1].as_str(), "version") {
            Ok(v) => {
                q.version = Some(v);
                Ok(q)
            },
            Err(e) => Err(e),
        }
    } else if same(word, "nodes") {
        q.section = Section::Nodes;
        Ok(q)
    } else if same(word, "skeleton") {
        q.section = Section::Skeleton;
        Ok(q)
    } else if same(word, "triangles") {
        q.section = Section::Triangles;
        Ok(q)
    } else if same(word, "end") {
        take_end(line, q)
    } else {
        match q.section {
            Section::Outside => Err(
                err(line, join2("段外出现无法识别的内容：", shown(word).as_str())),
            ),
            Section::Nodes => match parse_node(line, t) {
                Err(e) => Err(e),
                Ok(n) => {
                    q.nodes.push(n);
                    assert(q@.nodes =~= r@.nodes.push(n@));
                    Ok(q)
                },
            },
            Section::Skeleton => take_skeleton(line, t, q),
            Section::Triangles => take_triangle(line, t, q),
        }
    }
}

/// An error among the first lines stays the error of all.
proof fn lines_error_stays(all: Seq<Seq<char>>, m: int, n: int)
    requires
        m <= n,
        read_lines(all, m) is Err,
    ensures
        read_lines(all, n) == read_lines(all, m),
    decreases n - m,
{
    if m < n && n > 0 {
        lines_error_stays(all, m, n - 1);
    }
}

/// The mesh that what was read comes to.
fn conclude(r: Reader, n: usize) -> (q: Result<Smd, SmdError>)
    ensures
        match (q, finish(r@, n as nat)) {
            (Ok(a), Ok(b)) => a@ == b,
            (Err(a), Err(b)) => a@ == b,
            _ => false,
        },
{
    let c: Reader = put_frame(r);
    if c.pending.len() > 0 {
        return Err(
            err(
                n,
                join3(
                    "文件结束时还有 ",
                    decimal_text(c.pending.len()).as_str(),
                    " 个未成组的顶点行",
                ),
            ),
        );
    }
    match c.version {
        None => Err(err(1, "缺少 `version` 行".to_owned())),
        Some(v) => {
            if v != 1 {
                Err(err(1, join2("只支持 version 1，实际为 ", signed_text(v).as_str())))
            } else if c.nodes.len() == 0 {
                Err(err(1, "`nodes` 段为空 —— 至少需要一根骨骼".to_owned()))
            } else {
                Ok(
                    Smd {
                        version: v,
                        nodes: c.nodes,
                        frames: c.frames,
                        triangles: c.triangles,
                    },
                )
            }
        },
    }
}

/// Reads a mesh.
pub fn parse_smd(text: &str) -> (r: Result<Smd, SmdError>)
    ensures
        match (r, mesh(text@)) {
            (Ok(a), Ok(b)) => a@ == b,
            (Err(a), Err(b)) => a@ == b,
            _ => false,
        },
{
    let all: Vec<String> = split_lines(text);
    let ghost v = lines(text@);
    let mut r = Reader {
        version: None,
        nodes: Vec::new(),
        frames: Vec::new(),
        triangles: Vec::new(),
        section: Section::Outside,
        frame: None,
        material: None,
        pending: Vec::new(),
    };
    assert(r@.nodes =~= Seq::empty());
    assert(r@.frames =~= Seq::empty());
    assert(r@.triangles =~= Seq::empty());
    assert(r@.pending =~= Seq::empty());
    let mut i: usize = 0;
    while i < all.len()
        invariant
            i <= all@.len(),
            v == lines(text@),
            views(all@) == v,
            read_lines(v, i as int) == Ok::<ReadView, SmdErrorView>(r@),
            r@.pending.len() < 3,
        decreases all@.len() - i,
    {
        assert(v[i as int] == all@[i as int]@);
        let body: String = before_slashes(all[i].as_str());
        let t: Vec<String> = split_words(body.as_str());
        match take_line(i + 1, &t, r) {
            Ok(q) => {
                r = q;
            },
            Err(e) => {
                proof {
                    lines_error_stays(v, i + 1, v.len() as int);
                }
                return Err(e);
            },
        }
        i = i + 1;
    }
    conclude(r, all.len())
}

/// The materials of a mesh are listed once each, and all of them.
pub proof fn materials_are_listed_once(t: Seq<TriangleView>)
    ensures
        distinct(materials(t)).no_duplicates(),
        forall|i: int| 0 <= i < t.len() ==> distinct(materials(t)).contains(#[trigger] t[i].material),
        forall|m: Seq<char>| #[trigger]
            distinct(materials(t)).contains(m) ==> exists|i: int|
                0 <= i < t.len() && (#[trigger] t[i]).material == m,
{
    let all = materials(t);
    distinct_holds_each_once(all);
    assert forall|i: int| 0 <= i < t.len() implies distinct(all).contains(
        #[trigger] t[i].material,
    ) by {
        assert(all[i] == t[i].material);
        assert(all.contains(t[i].material));
    }
    assert forall|m: Seq<char>| #[trigger] distinct(all).contains(m) implies exists|i: int|
        0 <= i < t.len() && (#[trigger] t[i]).material == m by {
        assert(all.contains(m));
        let i = choose|i: int| 0 <= i < all.len() && all[i] == m;
        assert(t[i].material == m);
    }
}

/// Whatever was read of a mesh, its triangles are whole: each has three corners, each corner one
/// to three bones; and fewer than three corners wait.
pub open spec fn whole(r: ReadView) -> bool {
    &&& r.pending.len() < 3
    &&& forall|i: int| 0 <= i < r.pending.len() ==> linked(#[trigger] r.pending[i])
    &&& forall|i: int| 0 <= i < r.triangles.len() ==> triangle_whole(#[trigger] r.triangles[i])
}

/// One to three bones move a corner.
pub open spec fn linked(v: VertexView) -> bool {
    1 <= v.links.len() <= 3
}

/// A triangle has three corners, each moved by one to three bones.
pub open spec fn triangle_whole(t: TriangleView) -> bool {
    t.vertices.len() == 3 && linked(t.vertices[0]) && linked(t.vertices[1]) && linked(t.vertices[2])
}

proof fn links_are_counted(line: nat, t: Seq<Seq<char>>, count: int, n: int)
    requires
        0 <= n,
    ensures
        read_links(line, t, count, n) matches Ok(links) ==> links.len() == n,
    decreases n,
{
    if n > 0 {
        links_are_counted(line, t, count, n - 1);
    }
}

proof fn lines_keep_whole(all: Seq<Seq<char>>, n: int)
    ensures
        read_lines(all, n) matches Ok(r) ==> whole(r),
    decreases n,
{
    if n > 0 {
        lines_keep_whole(all, n - 1);
        match read_lines(all, n - 1) {
            Err(_) => {},
            Ok(r) => {
                let t = line_words(all[n - 1]);
                let line = n as nat;
                if t.len() > 0 && r.section == Section::Triangles {
                    match integer(line, t[9], "links 数"@) {
                        Ok(count) => {
                            if count >= 1 {
                                links_are_counted(line, t, count as int, count as int);
                            }
                        },
                        Err(_) => {},
                    }
                    match read_vertex(line, t, r.material) {
                        Ok(v) => {
                            assert(linked(v));
                        },
                        Err(_) => {},
                    }
                }
            },
        }
    }
}

/// Every triangle of a mesh has three corners, each moved by one to three bones; a mesh has at
/// least one bone, and its version is 1.
pub proof fn meshes_are_whole(text: Seq<char>)
    ensures
        mesh(text) matches Ok(m) ==> {
            &&& m.version == 1
            &&& m.nodes.len() > 0
            &&& forall|i: int|
                0 <= i < m.triangles.len() ==> triangle_whole(#[trigger] m.triangles[i])
        },
{
    let all = lines(text);
    lines_keep_whole(all, all.len() as int);
}

} // verus!
