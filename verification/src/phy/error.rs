//! What can be wrong with a collision file or with what goes into one.
use vstd::prelude::*;

use crate::text::{decimal, push_decimal};

verus! {

/// Why a collision file could not be written or read.
#[derive(Debug, Clone, PartialEq)]
pub enum PhyError {
    /// A hull has fewer than four vertices.
    HullTooFewPoints { solid: usize, points: usize },
    /// A hull spans no volume.
    HullDegenerate { solid: usize, detail: String },
    /// A face names a vertex that does not exist.
    IndexOutOfRange { solid: usize, face: usize, index: u32, vertex_count: usize },
    /// A directed edge occurs twice, or joins a point to itself.
    DuplicateEdge { solid: usize, from: u32, to: u32 },
    /// A directed edge has no edge that runs back.
    OpenMesh { solid: usize, from: u32, to: u32 },
    /// A hull has more triangles than an edge can address.
    TooManyTriangles { solid: usize, triangles: usize, max: usize },
    /// A solid has more points than a 16-bit index can address.
    TooManyPoints { solid: usize, points: usize },
    /// A vertex is not finite.
    NonFinitePoint { solid: usize, point: usize },
    /// All points of a solid coincide.
    DegenerateBounds { solid: usize },
    /// A parameter is out of range.
    BadParameter { what: &'static str, detail: String },
    /// A file breaks the format.
    SelfCheck(String),
}

/// The start of a message about a solid.
pub open spec fn of_solid(solid: usize) -> Seq<char> {
    "solid["@ + decimal(solid as nat) + "]"@
}

/// `e` complains of the parameter `what`, and says why.
pub open spec fn complains(e: PhyError, what: Seq<char>, detail: Seq<char>) -> bool {
    e matches PhyError::BadParameter { what: w, detail: d } && w@ == what && d@ == detail
}

impl PhyError {
    /// The error in words.
    pub open spec fn told(&self) -> Seq<char> {
        match self {
            PhyError::HullTooFewPoints { solid, points } => of_solid(*solid) + " 只有 "@ + decimal(
                *points as nat,
            ) + " 个顶点，凸包至少要 4 个不共面的点"@,
            PhyError::HullDegenerate { solid, detail } => of_solid(*solid) + " 的凸包退化："@
                + detail@,
            PhyError::IndexOutOfRange { solid, face, index, vertex_count } => of_solid(*solid)
                + " 第 "@ + decimal(*face as nat) + " 个面引用了顶点 "@ + decimal(*index as nat)
                + "，但只有 "@ + decimal(*vertex_count as nat) + " 个顶点"@,
            PhyError::DuplicateEdge { solid, from, to } => of_solid(*solid) + " 有向边 "@ + decimal(
                *from as nat,
            ) + "->"@ + decimal(*to as nat) + " 出现两次，网格不是可定向流形"@,
            PhyError::OpenMesh { solid, from, to } => of_solid(*solid) + " 有向边 "@ + decimal(
                *from as nat,
            ) + "->"@ + decimal(*to as nat) + " 没有反向边，网格不闭合"@,
            PhyError::TooManyTriangles { solid, triangles, max } => of_solid(*solid) + " 有 "@
                + decimal(*triangles as nat) + " 个三角形，超过单 hull 上限 "@ + decimal(
                *max as nat,
            ) + "（opposite_index 只有 15 位）"@,
            PhyError::TooManyPoints { solid, points } => of_solid(*solid) + " 有 "@ + decimal(
                *points as nat,
            ) + " 个顶点，超过 16 位索引上限 65535"@,
            PhyError::NonFinitePoint { solid, point } => of_solid(*solid) + " 第 "@ + decimal(
                *point as nat,
            ) + " 个顶点含 NaN 或无穷"@,
            PhyError::DegenerateBounds { solid } => of_solid(*solid)
                + " 的包围盒半径是 0（所有顶点重合），无法量化 box_sizes"@,
            PhyError::BadParameter { what, detail } => "参数 "@ + what@ + " 非法："@ + detail@,
            PhyError::SelfCheck(m) => "写出的 PHY 自检失败（本实现的 bug）："@ + m@,
        }
    }

    /// The error in words.
    pub fn describe(&self) -> (r: String)
        ensures
            r@ == self.told(),
    {
        let mut s: String = "solid[".to_owned();
        match self {
            PhyError::HullTooFewPoints { solid, points } => {
                push_decimal(&mut s, *solid as u64);
                s.push_str("]");
                s.push_str(" 只有 ");
                push_decimal(&mut s, *points as u64);
                s.push_str(" 个顶点，凸包至少要 4 个不共面的点");
            },
            PhyError::HullDegenerate { solid, detail } => {
                push_decimal(&mut s, *solid as u64);
                s.push_str("]");
                s.push_str(" 的凸包退化：");
                s.push_str(detail.as_str());
            },
            PhyError::IndexOutOfRange { solid, face, index, vertex_count } => {
                push_decimal(&mut s, *solid as u64);
                s.push_str("]");
                s.push_str(" 第 ");
                push_decimal(&mut s, *face as u64);
                s.push_str(" 个面引用了顶点 ");
                push_decimal(&mut s, *index as u64);
                s.push_str("，但只有 ");
                push_decimal(&mut s, *vertex_count as u64);
                s.push_str(" 个顶点");
            },
            PhyError::DuplicateEdge { solid, from, to } => {
                push_decimal(&mut s, *solid as u64);
                s.push_str("]");
                s.push_str(" 有向边 ");
                push_decimal(&mut s, *from as u64);
                s.push_str("->");
                push_decimal(&mut s, *to as u64);
                s.push_str(" 出现两次，网格不是可定向流形");
            },
            PhyError::OpenMesh { solid, from, to } => {
                push_decimal(&mut s, *solid as u64);
                s.push_str("]");
                s.push_str(" 有向边 ");
                push_decimal(&mut s, *from as u64);
                s.push_str("->");
                push_decimal(&mut s, *to as u64);
                s.push_str(" 没有反向边，网格不闭合");
            },
            PhyError::TooManyTriangles { solid, triangles, max } => {
                push_decimal(&mut s, *solid as u64);
                s.push_str("]");
                s.push_str(" 有 ");
                push_decimal(&mut s, *triangles as u64);
                s.push_str(" 个三角形，超过单 hull 上限 ");
                push_decimal(&mut s, *max as u64);
                s.push_str("（opposite_index 只有 15 位）");
            },
            PhyError::TooManyPoints { solid, points } => {
                push_decimal(&mut s, *solid as u64);
                s.push_str("]");
                s.push_str(" 有 ");
                push_decimal(&mut s, *points as u64);
                s.push_str(" 个顶点，超过 16 位索引上限 65535");
            },
            PhyError::NonFinitePoint { solid, point } => {
                push_decimal(&mut s, *solid as u64);
                s.push_str("]");
                s.push_str(" 第 ");
                push_decimal(&mut s, *point as u64);
                s.push_str(" 个顶点含 NaN 或无穷");
            },
            PhyError::DegenerateBounds { solid } => {
                push_decimal(&mut s, *solid as u64);
                s.push_str("]");
                s.push_str(" 的包围盒半径是 0（所有顶点重合），无法量化 box_sizes");
            },
            PhyError::BadParameter { what, detail } => {
                s = "参数 ".to_owned();
                s.push_str(what);
                s.push_str(" 非法：");
                s.push_str(detail.as_str());
            },
            PhyError::SelfCheck(m) => {
                s = "写出的 PHY 自检失败（本实现的 bug）：".to_owned();
                s.push_str(m.as_str());
            },
        }
        s
    }
}

} // verus!
