//! Readers and writers for the text and binary formats around compiled models.
pub mod across;
pub mod arith;
pub mod assets;
pub mod bytes;
pub mod decimals;
pub mod double;
pub mod meshes;
pub mod morphs;
pub mod near;
pub mod ordered;
pub mod phy;
pub mod plain;
pub mod prof;
pub mod seqs;
pub mod single;
pub mod tangent;
pub mod text;
pub mod textured;
pub mod qc;
pub mod big;
pub mod wide;
pub mod words;
pub mod written;
pub mod smd;
pub mod vta;
