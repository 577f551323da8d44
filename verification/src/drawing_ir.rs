//! Kinds shared by the drawing code: text alignment, the colors of the AutoCAD
//! color index, and the font metrics used to size DXF text.
use vstd::prelude::*;

verus! {

/// Horizontal text alignment.
#[derive(Clone, Copy, Debug, PartialEq, Eq, Structural)]
pub enum HAlign {
    Left,
    Center,
    Right,
}

/// Vertical text alignment.
#[derive(Clone, Copy, Debug, PartialEq, Eq, Structural)]
pub enum VAlign {
    Top,
    Middle,
    Bottom,
}

/// The screen color of an AutoCAD color index: the seven standard colors
/// (with white shown black on a white background), two grays, and a dark gray
/// for every other index.
pub open spec fn aci_rgb(aci: i16) -> (u8, u8, u8) {
    if aci == 1 {
        (255, 0, 0)
    } else if aci == 2 {
        (255, 255, 0)
    } else if aci == 3 {
        (0, 255, 0)
    } else if aci == 4 {
        (0, 255, 255)
    } else if aci == 5 {
        (0, 0, 255)
    } else if aci == 6 {
        (255, 0, 255)
    } else if aci == 7 {
        (0, 0, 0)
    } else if aci == 8 {
        (128, 128, 128)
    } else if aci == 9 {
        (192, 192, 192)
    } else {
        (100, 100, 100)
    }
}

/// See `aci_rgb`.
pub fn aci_to_rgb(aci: i16) -> (r: (u8, u8, u8))
    ensures
        r == aci_rgb(aci),
{
    match aci {
        1 => (255, 0, 0),
        2 => (255, 255, 0),
        3 => (0, 255, 0),
        4 => (0, 255, 255),
        5 => (0, 0, 255),
        6 => (255, 0, 255),
        7 => (0, 0, 0),
        8 => (128, 128, 128),
        9 => (192, 192, 192),
        _ => (100, 100, 100),
    }
}

/// The CSS color a viewer draws an entity of the given color index in: the
/// seven standard colors and two grays, with white for 7, 0 and every other index.
pub open spec fn css_color(color: i32) -> Seq<char> {
    if color == 1 {
        "#ff0000"@
    } else if color == 2 {
        "#ffff00"@
    } else if color == 3 {
        "#00ff00"@
    } else if color == 4 {
        "#00ffff"@
    } else if color == 5 {
        "#0000ff"@
    } else if color == 6 {
        "#ff00ff"@
    } else if color == 8 {
        "#808080"@
    } else if color == 9 {
        "#c0c0c0"@
    } else {
        "#ffffff"@
    }
}

/// See `css_color`.
pub fn color_to_css(color: i32) -> (r: &'static str)
    ensures
        r@ == css_color(color),
{
    match color {
        1 => "#ff0000",
        2 => "#ffff00",
        3 => "#00ff00",
        4 => "#00ffff",
        5 => "#0000ff",
        6 => "#ff00ff",
        7 | 0 => "#ffffff",
        8 => "#808080",
        9 => "#c0c0c0",
        _ => "#ffffff",
    }
}

/// Font metrics of Noto Sans JP, the font of the drawings' text.
#[derive(Clone, Copy, Debug)]
pub struct DefaultFontMetrics;

/// Units of the em square.
pub const UNITS_PER_EM: u32 = 1000;

/// Height of a capital letter, in em units (73.3% of the em).
pub const CAP_HEIGHT: u32 = 733;

/// Typographic ascender, in em units.
pub const TYPO_ASCENDER: i32 = 880;

/// Typographic descender, in em units.
pub const TYPO_DESCENDER: i32 = -120;

impl DefaultFontMetrics {
    /// The factor from a cap height to a DXF text height, `UNITS_PER_EM / CAP_HEIGHT`,
    /// as numerator and denominator.
    pub fn cap_height_scale(&self) -> (r: (u32, u32))
        ensures
            r == (UNITS_PER_EM, CAP_HEIGHT),
    {
        (UNITS_PER_EM, CAP_HEIGHT)
    }
}

} // verus!
