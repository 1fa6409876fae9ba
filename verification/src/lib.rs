//! Literal text search over the lines of plain-text files.

pub mod directory;
pub mod lines;
pub mod path;
pub mod render;
pub mod scan;
pub mod text;
