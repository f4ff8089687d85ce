//! Gridded geoid models: data model, text parser, binary codec and the
//! interpolation query engine.

pub mod ascii;
pub mod codec;
pub mod grid;
pub mod num;
pub mod query;
