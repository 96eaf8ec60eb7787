//! Text styling data: font faces, weights, wrapping, alignment and origin
//! placement.  These are plain example kinds carried over the channel; the
//! rendering itself lives outside the library.

use vstd::prelude::*;

verus! {

/// A font face.
#[derive(Clone, Copy, Debug, PartialEq, Eq, Structural)]
pub enum Font {
    /// The default system font face used for native UI elements.
    SystemFont,
}

impl Default for Font {
    /// The default face is the system font.
    fn default() -> (r: Font)
        ensures
            r is SystemFont,
    {
        Font::SystemFont
    }
}

/// The weight of a font.
#[derive(Clone, Copy, Debug, PartialEq, Eq, Structural)]
pub enum Weight {
    Hairline,
    Light,
    Thin,
    Normal,
    Bold,
    Heavy,
    Medium,
    ExtraBold,
    SemiBold,
}

impl Default for Weight {
    /// The default weight is normal.
    fn default() -> (r: Weight)
        ensures
            r is Normal,
    {
        Weight::Normal
    }
}

/// The type of text wrap used.
#[derive(Clone, Copy, Debug, PartialEq, Eq, Structural)]
pub enum Wrap {
    /// No wrap.
    Off,
    /// Standard word-level text wrap.
    Normal,
}

/// The alignment of text.
#[derive(Clone, Copy, Debug, PartialEq, Eq, Structural)]
pub enum Align {
    Center,
    Start,
    End,
}

/// The origin of rendered text.
#[derive(Clone, Copy, Debug, PartialEq, Eq, Structural)]
pub enum Origin {
    /// At the start of the alphabetic baseline.
    Baseline,
    /// At the upper justification-start corner.
    Top,
    /// In the middle of the rendered text.
    Middle,
}

} // verus!
