//! Model scripts: tokens, flex rules and commands.
pub mod alike;
pub mod blocks;
pub mod body;
pub mod bones;
pub mod calculating;
pub mod collision;
pub mod dispatch;
pub mod dropped;
pub mod error;
pub mod flexrule;
pub mod jiggle;
pub mod joining;
pub mod laws;
pub mod lexer;
pub mod lines;
pub mod lods;
pub mod meaning;
pub mod model;
pub mod naming;
pub mod options;
pub mod parse;
pub mod procedural;
pub mod read;
pub mod sequence;
pub mod settings;
pub mod skins;
pub mod swaying;
pub mod tokens;
pub mod turns;
pub mod weights;
pub mod whole;
