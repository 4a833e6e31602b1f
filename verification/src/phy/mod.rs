//! Collision files: the compact surface format and the text section behind it.
pub mod bounds;
pub mod making;
pub mod check;
pub mod compact;
pub mod edges;
pub mod error;
pub mod faults;
pub mod telling;
pub mod tree;
pub mod turning;
pub mod grouping;
pub mod joints;
pub mod legible;
pub mod mass;
pub mod meaning;
pub mod meeting;
pub mod merging;
pub mod names;
pub mod params;
pub mod parts;
pub mod pieces;
pub mod ragdoll;
pub mod placed;
pub mod placing;
pub mod plan;
pub mod pose;
pub mod roundtrip;
pub mod section;
pub mod shape;
pub mod solid;
pub mod surface;
pub mod unique;
pub mod weld;
pub mod world;
pub mod write;
