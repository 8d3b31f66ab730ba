//! Renders JSON data (one object, an array of objects, or newline-delimited
//! objects) as an aligned text table with box-drawing or ASCII borders,
//! optional header emphasis and optional striping of alternate rows.

pub mod json;
pub mod width;
pub mod numfmt;
pub mod format;
pub mod glyphs;
pub mod schema;
pub mod parse;
pub mod render;
pub mod laws;
