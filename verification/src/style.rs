//! Text style descriptors. Turning these into escape sequences is the
//! terminal collaborator's job; the core only carries them as data.

use vstd::prelude::*;

verus! {

/// The sixteen base terminal colours.
pub enum Color16 {
    Black,
    Red,
    Green,
    Yellow,
    Blue,
    Magenta,
    Cyan,
    White,
    LightBlack,
    LightRed,
    LightGreen,
    LightYellow,
    LightBlue,
    LightMagenta,
    LightCyan,
    LightWhite,
}

/// One style change: an attribute toggle or a colour in one of the terminal
/// colour models.
pub enum Style {
    Reset,
    Bold,
    Blink,
    Invert,
    Italic,
    Underline,
    NotBold,
    NotBlink,
    NotInvert,
    NotItalic,
    NotUnderline,
    ResetColor,
    Color16(Color16),
    Color256(u8),
    ColorTrue(u8, u8, u8),
}

/// A style change anchored at a character offset within a line.
pub struct StyleMarker {
    pub style: Style,
    pub offset: usize,
}

} // verus!
