//! How a grid cell is drawn: two colours and a byte of attributes, and the
//! cursor a frame carries.
use vstd::prelude::*;

verus! {

pub const BOLD: u8 = 1;
pub const DIM: u8 = 2;
pub const ITALIC: u8 = 4;
pub const UNDERLINE: u8 = 8;
pub const BLINK: u8 = 16;
pub const REVERSE: u8 = 32;
pub const STRIKE: u8 = 64;
pub const NO_ATTRS: u8 = 0;

/// A foreground or background colour.
#[derive(Debug, Clone, Copy, PartialEq, Eq, Structural)]
pub enum Color {
    Default,
    Indexed(u8),
    Rgb(u8, u8, u8),
}

/// A cell's colours and attribute bits.
#[derive(Debug, Clone, Copy, PartialEq, Eq, Structural)]
pub struct Style {
    pub fg: Color,
    pub bg: Color,
    pub attrs: u8,
}

/// The style of a cell nothing was drawn in.
pub open spec fn plain_style() -> Style {
    Style { fg: Color::Default, bg: Color::Default, attrs: NO_ATTRS }
}

impl Style {
    pub fn plain() -> (s: Style)
        ensures
            s == plain_style(),
    {
        Style { fg: Color::Default, bg: Color::Default, attrs: NO_ATTRS }
    }
}

/// How the cursor is drawn.
#[derive(Debug, Clone, Copy, PartialEq, Eq, Structural)]
pub enum CursorShape {
    Block,
    Underline,
    Bar,
}

/// Where the cursor is and how it shows.
#[derive(Debug, Clone, Copy, PartialEq, Eq, Structural)]
pub struct CursorState {
    pub x: u16,
    pub y: u16,
    pub visible: bool,
    pub shape: CursorShape,
}

} // verus!
