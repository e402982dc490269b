use vstd::prelude::*;

verus! {

/// The kinds of nodes of a glyph tree.
#[derive(Clone, Copy, PartialEq, Eq, Debug, Structural)]
pub enum GfxElementType {
    GlyphArea,
    GlyphModel,
    Void,
}

} // verus!
