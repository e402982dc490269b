//! Baumhard: the glyph model of a text-based graphics engine, with its
//! string helpers that work on unicode grapheme clusters.
pub mod application;
pub mod core_model;
pub mod font;
pub mod gfx_structs;
pub mod util;
