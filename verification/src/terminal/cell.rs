//! One grid cell.
use vstd::prelude::*;
use crate::terminal::style::{plain_style, Style};

verus! {

/// One grid cell.
///
/// `width` is the glyph's column count, so a span builder can emit the glyph
/// once and step over the columns it covers. A continuation cell is
/// `width == 0` and contributes no character to a span.
#[derive(Debug, Clone, Copy, PartialEq, Eq, Structural)]
pub struct Cell {
    pub ch: char,
    pub style: Style,
    pub width: u8,
}

/// A default-styled space of one column.
pub open spec fn blank_cell() -> Cell {
    Cell { ch: ' ', style: plain_style(), width: 1 }
}

/// The second column of a double-width glyph drawn in `style`.
pub open spec fn continuation_of(style: Style) -> Cell {
    Cell { ch: ' ', style, width: 0 }
}

impl Cell {
    pub open spec fn spec_is_continuation(&self) -> bool {
        self.width == 0
    }

    pub open spec fn spec_is_blank(&self) -> bool {
        self.ch == ' ' && self.style == plain_style()
    }

    pub fn blank() -> (c: Cell)
        ensures
            c == blank_cell(),
    {
        Cell { ch: ' ', style: Style::plain(), width: 1 }
    }

    pub fn new(ch: char, style: Style, width: u8) -> (c: Cell)
        ensures
            c == (Cell { ch, style, width }),
    {
        Cell { ch, style, width }
    }

    /// The second column of a double-width glyph.
    pub fn continuation(style: Style) -> (c: Cell)
        ensures
            c == continuation_of(style),
    {
        Cell { ch: ' ', style, width: 0 }
    }

    #[verifier::when_used_as_spec(spec_is_continuation)]
    pub fn is_continuation(&self) -> (b: bool)
        ensures
            b == self.spec_is_continuation(),
    {
        self.width == 0
    }

    /// A default-styled space, which a snapshot may drop from the end of a row.
    ///
    /// The style has to match too: a space carrying a background colour is
    /// visible, so trimming it would erase a highlight the emulator drew.
    #[verifier::when_used_as_spec(spec_is_blank)]
    pub fn is_blank(&self) -> (b: bool)
        ensures
            b == self.spec_is_blank(),
    {
        self.ch == ' ' && self.style == Style::plain()
    }
}

impl Default for Cell {
    fn default() -> (c: Cell)
        ensures
            c == blank_cell(),
    {
        Cell::blank()
    }
}

} // verus!
