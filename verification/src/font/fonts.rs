use vstd::prelude::*;

verus! {

/// The fonts that glyphs can be drawn with.
#[derive(Clone, Copy, PartialEq, Eq, Hash, Debug, Structural)]
pub enum AppFont {
    African,
    AliceInWonderland,
    AlphaMusicMan,
    AppleTea,
    CarnivaleeFreakshow,
    Casanova,
    DenseLetters,
    Evilz,
    HelpMe,
    LoveRomance,
    NIGHTCROW,
    Norse,
    NorseBold,
    Skullphabet,
    /// Indicates that the defining party does not care which font is used
    Any,
}

} // verus!
