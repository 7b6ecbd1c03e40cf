//! A pane's emulated screen: two grids, the cursor, the pen and the modes a
//! byte stream from a program drives.
use vstd::prelude::*;
use std::collections::VecDeque;
use crate::terminal::buffer::{
    glyph, lemma_blank_fill, lemma_cleared_row_blank, lemma_inserted_shaped, lemma_overlap_damage, min16, shaped, with_continuations, Buffer,
    BufferView,
};
use crate::terminal::cell::{blank_cell, Cell};
use crate::text::{join, join_parts, string_of, trim_end, trimmed_end};
use crate::terminal::pen::{sgr, Pen};
use crate::terminal::keys::{decimal, push_decimal};
use crate::terminal::style::{plain_style, CursorShape, CursorState};

verus! {

/// Bounded on purpose: an unbounded scrollback is a leak with a lookup
/// method. Two thousand lines is well past what a phone will page.
pub const SCROLLBACK_LINES: usize = 2000;

pub const TAB_WIDTH: u16 = 8;

/// A cap on any single repeat or scroll count: a hostile `CSI 65535 b`
/// would otherwise be 65535 writes for one escape sequence.
pub const MAX_REPEAT: u16 = 4096;

/// A screen as values.
#[verifier::ext_equal]
pub struct ScreenView {
    pub primary: BufferView,
    pub alt: BufferView,
    pub alt_active: bool,
    pub scrollback: Seq<Seq<Cell>>,
    pub pen: Pen,
    pub x: u16,
    pub y: u16,
    pub saved: Option<(u16, u16, Pen)>,
    pub saved_alt: Option<(u16, u16, Pen)>,
    pub cursor_visible: bool,
    pub cursor_shape: CursorShape,
    pub cursor_moved: bool,
    pub scroll_top: u16,
    pub scroll_bottom: u16,
    pub autowrap: bool,
    pub insert_mode: bool,
    pub pending_wrap: bool,
    pub application_cursor_keys: bool,
    pub bracketed_paste: bool,
    pub last_printed: Option<char>,
    pub bell: bool,
    pub replies: Seq<u8>,
}

/// `a + b`, stopping at the largest `u16`.
pub open spec fn sat_add(a: u16, b: u16) -> u16 {
    if a + b > u16::MAX { u16::MAX } else { (a + b) as u16 }
}

/// `a - b`, stopping at zero.
pub open spec fn sat_sub(a: u16, b: u16) -> u16 {
    if a >= b { (a - b) as u16 } else { 0 }
}

/// `line` without its trailing blank cells.
pub open spec fn trimmed_line(line: Seq<Cell>) -> Seq<Cell>
    decreases line.len(),
{
    if line.len() > 0 && line.last().spec_is_blank() {
        trimmed_line(line.drop_last())
    } else {
        line
    }
}

/// `history` after a line left the top of the screen: trimmed, the oldest
/// line dropped when the history is full.
pub open spec fn pushed_line(history: Seq<Seq<Cell>>, line: Seq<Cell>) -> Seq<Seq<Cell>> {
    let kept = if history.len() == SCROLLBACK_LINES { history.drop_first() } else { history };
    kept.push(trimmed_line(line))
}

/// `history` after each of `lines`, first first.
pub open spec fn pushed_lines(history: Seq<Seq<Cell>>, lines: Seq<Seq<Cell>>) -> Seq<Seq<Cell>>
    decreases lines.len(),
{
    if lines.len() == 0 {
        history
    } else {
        pushed_lines(pushed_line(history, lines[0]), lines.drop_first())
    }
}

/// A screen of `cols` by `rows`, each at least one, blank and unmarked, with
/// the cursor home and every mode at its default.
pub open spec fn fresh_screen(cols: u16, rows: u16) -> ScreenView {
    let c = if cols == 0 { 1u16 } else { cols };
    let r = if rows == 0 { 1u16 } else { rows };
    let blank = BufferView {
        cols: c,
        rows: r,
        grid: Seq::new(r as nat, |y: int| Seq::new(c as nat, |x: int| blank_cell())),
        dirty: Seq::new(r as nat, |y: int| None::<(u16, u16)>),
    };
    ScreenView {
        primary: blank,
        alt: blank,
        alt_active: false,
        scrollback: Seq::empty(),
        pen: Pen { style: plain_style() },
        x: 0,
        y: 0,
        saved: None,
        saved_alt: None,
        cursor_visible: true,
        cursor_shape: CursorShape::Block,
        cursor_moved: false,
        scroll_top: 0,
        scroll_bottom: (r - 1) as u16,
        autowrap: true,
        insert_mode: false,
        pending_wrap: false,
        application_cursor_keys: false,
        bracketed_paste: false,
        last_printed: None,
        bell: false,
        replies: Seq::empty(),
    }
}

/// The columns a character takes, or `None` for a control character, as
/// `unicode_width` measures it.
pub uninterp spec fn display_width(c: char) -> Option<usize>;

/// How many columns `c` takes: none for a C0 or C1 control character, one
/// for printable ASCII, and from U+00A0 on what `unicode_width` measures.
pub open spec fn glyph_width(c: char) -> Option<usize> {
    let u = c as u32;
    if u < 0x20 || (0x7f <= u && u < 0xa0) {
        None
    } else if u < 0x7f {
        Some(1)
    } else {
        display_width(c)
    }
}

/// `UnicodeWidthChar::width` from `unicode_width`: how many columns `c` is
/// displayed in, `None` for a control character. Its source answers the
/// ASCII range without a table: `None` below U+0020 and from U+007F to
/// U+009F, one column from U+0020 to U+007E, and some width from U+00A0 on.
#[verifier::external_body]
fn char_width(c: char) -> (w: Option<usize>)
    ensures
        w == display_width(c),
        w == glyph_width(c),
        (c as u32) < 0x20 || (0x7f <= (c as u32) && (c as u32) < 0xa0) ==> w is None,
        0x20 <= (c as u32) && (c as u32) < 0x7f ==> w == Some(1usize),
        0xa0 <= (c as u32) ==> w is Some,
{
    unicode_width::UnicodeWidthChar::width(c)
}

/// `b` with rows `from..to` blanked, top first.
pub open spec fn cleared_rows(b: BufferView, from: int, to: int) -> BufferView
    decreases to - from,
{
    if from >= to {
        b
    } else {
        cleared_rows(b.cleared_row(from as u16), from + 1, to)
    }
}

/// A row as text: each glyph's character, a continuation column giving none.
pub open spec fn row_text(row: Seq<Cell>) -> Seq<char>
    decreases row.len(),
{
    if row.len() == 0 {
        Seq::empty()
    } else {
        let before = row_text(row.drop_last());
        if row.last().width == 0 { before } else { before.push(row.last().ch) }
    }
}

/// The lines of history a page before `before_line` holds, at most `limit`
/// of them, oldest first: where the page starts.
pub open spec fn page_start(len: int, before_line: Option<u32>, limit: u16) -> int {
    let end = match before_line {
        Some(line) => if line < len { line as int } else { len },
        None => len,
    };
    end - if limit < end { limit as int } else { end }
}

/// Where the page ends.
pub open spec fn page_end(len: int, before_line: Option<u32>) -> int {
    match before_line {
        Some(line) => if line < len { line as int } else { len },
        None => len,
    }
}

/// The first value of parameter `i`, or zero when there is none.
pub open spec fn param_at(params: Seq<Seq<u16>>, i: int) -> u16 {
    if 0 <= i < params.len() && params[i].len() > 0 { params[i][0] } else { 0 }
}

/// A count parameter, where zero means one and anything past the cap is the
/// cap.
pub open spec fn count_at(params: Seq<Seq<u16>>, i: int) -> u16 {
    let p = param_at(params, i);
    if p == 0 { 1 } else if p > MAX_REPEAT { MAX_REPEAT } else { p }
}

/// The answer to a primary device-attributes query: a VT220 with ANSI colour.
pub open spec fn primary_attributes() -> Seq<u8> {
    seq![0x1bu8, 0x5bu8, 0x3fu8, 0x36u8, 0x32u8, 0x3bu8, 0x32u8, 0x32u8, 0x63u8]
}

/// The answer to a secondary device-attributes query.
pub open spec fn secondary_attributes() -> Seq<u8> {
    seq![0x1bu8, 0x5bu8, 0x3eu8, 0x30u8, 0x3bu8, 0x31u8, 0x30u8, 0x3bu8, 0x31u8, 0x63u8]
}

/// The answer to a status query: all is well.
pub open spec fn status_ok() -> Seq<u8> {
    seq![0x1bu8, 0x5bu8, 0x30u8, 0x6eu8]
}

/// The answer to a cursor position query: one-based row and column.
pub open spec fn position_report(c: CursorState) -> Seq<u8> {
    seq![0x1bu8, 0x5bu8] + decimal((c.y + 1) as nat) + seq![0x3bu8] + decimal((c.x + 1) as nat) + seq![0x52u8]
}

/// The first intermediate byte is `b`.
pub open spec fn leads_with(intermediates: Seq<u8>, b: u8) -> bool {
    intermediates.len() > 0 && intermediates[0] == b
}

/// What a query sequence is answered with: device attributes for `c`,
/// status and the cursor position for `n`, nothing for anything else.
///
/// A program that asks and is never answered hangs. ConPTY asks for the
/// cursor position before it will run anything at all, so these answers are
/// what makes a pane start on Windows.
pub open spec fn answer(cursor: CursorState, intermediates: Seq<u8>, first: u16, action: char) -> Seq<u8> {
    if action == 'c' {
        if leads_with(intermediates, 0x3e) { secondary_attributes() } else { primary_attributes() }
    } else if action == 'n' && first == 5 {
        status_ok()
    } else if action == 'n' && first == 6 {
        position_report(cursor)
    } else {
        Seq::empty()
    }
}

impl ScreenView {
    /// The grid being drawn on.
    pub open spec fn active(self) -> BufferView {
        if self.alt_active { self.alt } else { self.primary }
    }

    /// The screen with the grid being drawn on replaced.
    pub open spec fn with_active(self, b: BufferView) -> ScreenView {
        if self.alt_active { ScreenView { alt: b, ..self } } else { ScreenView { primary: b, ..self } }
    }

    pub open spec fn cols(self) -> u16 {
        self.primary.cols
    }

    pub open spec fn rows(self) -> u16 {
        self.primary.rows
    }

    pub open spec fn wf(self) -> bool {
        &&& self.primary.wf()
        &&& self.alt.wf()
        &&& self.alt.cols == self.primary.cols
        &&& self.alt.rows == self.primary.rows
        &&& self.x < self.cols()
        &&& self.y < self.rows()
        &&& self.scroll_top <= self.scroll_bottom < self.rows()
        &&& self.scrollback.len() <= SCROLLBACK_LINES
    }

    /// The cursor moved to `(x, y)`, each clamped to the grid.
    pub open spec fn moved(self, x: u16, y: u16) -> ScreenView {
        ScreenView {
            x: min16(x, (self.cols() - 1) as u16),
            y: min16(y, (self.rows() - 1) as u16),
            pending_wrap: false,
            cursor_moved: true,
            ..self
        }
    }

    /// The cursor at the start of its row.
    pub open spec fn returned(self) -> ScreenView {
        ScreenView { x: 0, pending_wrap: false, cursor_moved: true, ..self }
    }

    /// The cursor one row down: at the bottom of the scroll region the region
    /// moves up instead, and a line that leaves the top of the whole primary
    /// screen goes to the history.
    pub open spec fn fed(self) -> ScreenView {
        let s = ScreenView { pending_wrap: false, cursor_moved: true, ..self };
        if s.y == s.scroll_bottom {
            let b = s.active();
            let full = s.scroll_top == 0 && s.scroll_bottom == s.rows() - 1;
            let gone = b.evicted(s.scroll_top, s.scroll_bottom, 1);
            let t = s.with_active(b.scrolled_up_view(s.scroll_top, s.scroll_bottom, 1));
            if !t.alt_active && full {
                ScreenView { scrollback: pushed_lines(t.scrollback, gone), ..t }
            } else {
                t
            }
        } else if s.y + 1 < s.rows() {
            ScreenView { y: (s.y + 1) as u16, ..s }
        } else {
            s
        }
    }

    /// The cursor one row up: at the top of the scroll region the region
    /// moves down instead.
    pub open spec fn reversed(self) -> ScreenView {
        let s = ScreenView { pending_wrap: false, cursor_moved: true, ..self };
        if s.y == s.scroll_top {
            s.with_active(s.active().scrolled_down_view(s.scroll_top, s.scroll_bottom, 1))
        } else {
            ScreenView { y: sat_sub(s.y, 1), ..s }
        }
    }

    /// The cursor at the next tab stop, or the last column.
    pub open spec fn tabbed(self) -> ScreenView {
        let next = ((self.x / TAB_WIDTH) + 1) * TAB_WIDTH;
        let stop = if next > u16::MAX { u16::MAX } else { next as u16 };
        ScreenView { x: min16(stop, (self.cols() - 1) as u16), pending_wrap: false, cursor_moved: true, ..self }
    }

    /// One character drawn at the cursor in the pen's style.
    ///
    /// A character with no width is dropped, and so is one wider than the
    /// screen. A pending wrap is taken first; a glyph that would run past the
    /// right edge wraps, or without autowrap is drawn against the edge. With
    /// insert mode the row shifts right first. The cursor then steps past the
    /// glyph, or with autowrap holds at the last column with a wrap pending.
    #[verifier::opaque]
    pub open spec fn printed(self, ch: char) -> ScreenView {
        match glyph_width(ch) {
            None => self,
            Some(m) => if m == 0 {
                self
            } else {
                let width: u16 = if m <= u16::MAX { m as u16 } else { 1 };
                if width > self.active().cols {
                    self
                } else {
                    self.wrapped(width).drawn(ch, width)
                }
            },
        }
    }

    /// The cursor made ready for a glyph `width` columns wide: a pending wrap
    /// is taken, and a glyph that would run past the right edge wraps, or
    /// without autowrap is placed against the edge.
    pub open spec fn wrapped(self, width: u16) -> ScreenView {
        let cols = self.active().cols;
        let s1 = if self.pending_wrap && self.autowrap { self.returned().fed() } else { self };
        if sat_add(s1.x, width) > cols {
            if s1.autowrap { s1.returned().fed() } else { ScreenView { x: (cols - width) as u16, ..s1 } }
        } else {
            s1
        }
    }

    /// A glyph `width` columns wide drawn at the cursor, which then steps past
    /// it, or with autowrap holds at the last column with a wrap pending.
    pub open spec fn drawn(self, ch: char, width: u16) -> ScreenView {
        let cols = self.active().cols;
        let x = self.x;
        let y = self.y;
        let style = self.pen.style;
        let cell = Cell { ch, style, width: if width <= u8::MAX { width as u8 } else { 1 } };
        let b2 = glyph(self.active(), self.insert_mode, x, y, cell, width);
        let s3 = ScreenView { last_printed: Some(ch), cursor_moved: true, ..self.with_active(b2) };
        if s3.autowrap && sat_add(x, width) >= cols {
            ScreenView { x: (cols - 1) as u16, pending_wrap: true, ..s3 }
        } else {
            ScreenView { x: if x + width < cols - 1 { (x + width) as u16 } else { (cols - 1) as u16 }, ..s3 }
        }
    }

    /// `EL`: 1 erases to the cursor, 2 the whole row, anything else from the
    /// cursor on.
    #[verifier::opaque]
    pub open spec fn erased_line(self, mode: u16) -> ScreenView {
        let last = (self.active().cols - 1) as u16;
        let b = self.active();
        self.with_active(
            if mode == 1 {
                b.filled_row(self.y, 0, self.x, blank_cell())
            } else if mode == 2 {
                b.filled_row(self.y, 0, last, blank_cell())
            } else {
                b.filled_row(self.y, self.x, last, blank_cell())
            },
        )
    }

    /// `ED`: 1 erases to the cursor, 2 the whole screen, 3 the screen and the
    /// history, anything else from the cursor on.
    #[verifier::opaque]
    pub open spec fn erased_display(self, mode: u16) -> ScreenView {
        let last = (self.active().cols - 1) as u16;
        let rows = self.active().rows as int;
        let b = self.active();
        if mode == 1 {
            self.with_active(cleared_rows(b, 0, self.y as int).filled_row(self.y, 0, self.x, blank_cell()))
        } else if mode == 2 {
            self.with_active(cleared_rows(b, 0, rows))
        } else if mode == 3 {
            ScreenView { scrollback: Seq::empty(), ..self.with_active(cleared_rows(b, 0, rows)) }
        } else {
            self.with_active(cleared_rows(b.filled_row(self.y, self.x, last, blank_cell()), self.y + 1, rows))
        }
    }

    /// The alternate screen switched on or off. With `save_and_clear` (mode
    /// 1049) switching on saves the cursor and pen and clears the alternate
    /// grid, and switching off restores them; modes 47 and 1047 keep what the
    /// alternate grid held. Either way the scroll region is the whole screen,
    /// the cursor is clamped and the grid now shown is marked whole.
    #[verifier::opaque]
    pub open spec fn switched(self, on: bool, save_and_clear: bool) -> ScreenView {
        if self.alt_active == on {
            self
        } else {
            self.toggled(on, save_and_clear).settled()
        }
    }

    /// The grids swapped, saving or restoring the cursor and pen with
    /// `save_and_clear`.
    pub open spec fn toggled(self, on: bool, save_and_clear: bool) -> ScreenView {
        if on {
            let a = ScreenView {
                saved_alt: if save_and_clear { Some((self.x, self.y, self.pen)) } else { self.saved_alt },
                alt_active: true,
                ..self
            };
            if save_and_clear {
                ScreenView { alt: cleared_rows(a.alt, 0, a.alt.rows as int), x: 0, y: 0, pen: Pen { style: plain_style() }, ..a }
            } else {
                a
            }
        } else {
            let a = ScreenView { alt_active: false, ..self };
            if save_and_clear {
                match self.saved_alt {
                    Some((x, y, pen)) => ScreenView { x, y, pen, saved_alt: None, ..a },
                    None => a,
                }
            } else {
                a
            }
        }
    }

    /// The scroll region the whole screen, the cursor clamped, and the grid
    /// shown marked whole.
    pub open spec fn settled(self) -> ScreenView {
        let bottom = (self.active().rows - 1) as u16;
        let s2 = ScreenView {
            scroll_top: 0,
            scroll_bottom: bottom,
            x: min16(self.x, (self.active().cols - 1) as u16),
            y: min16(self.y, bottom),
            pending_wrap: false,
            cursor_moved: true,
            ..self
        };
        s2.with_active(s2.active().all_marked())
    }

    /// `SM` and `RM`, and their private forms.
    #[verifier::opaque]
    pub open spec fn moded(self, private: bool, code: u16, on: bool) -> ScreenView {
        if !private {
            if code == 4 { ScreenView { insert_mode: on, ..self } } else { self }
        } else if code == 1 {
            ScreenView { application_cursor_keys: on, ..self }
        } else if code == 7 {
            ScreenView { autowrap: on, pending_wrap: false, ..self }
        } else if code == 25 {
            ScreenView { cursor_visible: on, cursor_moved: true, ..self }
        } else if code == 47 || code == 1047 {
            self.switched(on, false)
        } else if code == 1049 {
            self.switched(on, true)
        } else if code == 2004 {
            ScreenView { bracketed_paste: on, ..self }
        } else {
            self
        }
    }

    /// `RIS`: a fresh screen of the same size, marked whole, that keeps the
    /// history, the replies owed and the bell.
    pub open spec fn reset_view(self) -> ScreenView {
        let f = fresh_screen(self.primary.cols, self.primary.rows);
        ScreenView {
            scrollback: self.scrollback,
            replies: self.replies,
            bell: self.bell,
            primary: f.primary.all_marked(),
            ..f
        }
    }

    /// Both grids cut or grown and repaired, the scroll region the whole
    /// screen, the cursor clamped and both saved cursors forgotten.
    pub open spec fn resized(self, cols: u16, rows: u16) -> ScreenView {
        let p = self.primary.resized_view(cols, rows).repaired_all();
        let a = self.alt.resized_view(cols, rows).repaired_all();
        let s1 = ScreenView { primary: p, alt: a, ..self };
        let bottom = (s1.active().rows - 1) as u16;
        ScreenView {
            scroll_top: 0,
            scroll_bottom: bottom,
            x: min16(self.x, (s1.active().cols - 1) as u16),
            y: min16(self.y, bottom),
            pending_wrap: false,
            saved: None,
            saved_alt: None,
            cursor_moved: true,
            ..s1
        }
    }

    /// The grid being drawn on as text: one line per row, top first, each
    /// without its trailing whitespace.
    pub open spec fn text(self) -> Seq<char> {
        let b = self.active();
        join(Seq::new(b.rows as nat, |y: int| trim_end(row_text(b.grid[y]))), seq!['\n'])
    }

    /// `ch` drawn `n` times.
    #[verifier::opaque]
    pub open spec fn repeated(self, ch: char, n: nat) -> ScreenView
        decreases n,
    {
        if n == 0 { self } else { self.printed(ch).repeated(ch, (n - 1) as nat) }
    }

    /// The cursor and pen as `DECSC` saves them.
    pub open spec fn saved_cursor(self) -> ScreenView {
        ScreenView { saved: Some((self.x, self.y, self.pen)), ..self }
    }

    /// The saved cursor and pen back, or nothing when none was saved.
    #[verifier::opaque]
    pub open spec fn restored(self) -> ScreenView {
        match self.saved {
            Some((x, y, pen)) => ScreenView { pen, ..self }.moved(x, y),
            None => self,
        }
    }

    /// `DECSTBM`: the scroll region set, or reset to the whole screen when the
    /// one asked for cannot exist, and the cursor homed inside it.
    #[verifier::opaque]
    pub open spec fn region_set(self, params: Seq<Seq<u16>>) -> ScreenView {
        let edge = (self.active().rows - 1) as u16;
        let top = min16((count_at(params, 0) - 1) as u16, edge);
        let v = param_at(params, 1);
        let bottom = if v == 0 { edge } else { (min16(v, (edge + 1) as u16) - 1) as u16 };
        let s1 = if top < bottom {
            ScreenView { scroll_top: top, scroll_bottom: bottom, ..self }
        } else {
            ScreenView { scroll_top: 0, scroll_bottom: edge, ..self }
        };
        s1.moved(0, s1.scroll_top)
    }

    /// `SU`: the scroll region moved up, what leaves the top of the whole
    /// primary screen going to the history.
    #[verifier::opaque]
    pub open spec fn scrolled_up(self, count: u16) -> ScreenView {
        let b = self.active();
        let t = self.with_active(b.scrolled_up_view(self.scroll_top, self.scroll_bottom, count));
        let full = self.scroll_top == 0 && self.scroll_bottom == b.rows - 1;
        if !self.alt_active && full {
            ScreenView { scrollback: pushed_lines(t.scrollback, b.evicted(self.scroll_top, self.scroll_bottom, count)), ..t }
        } else {
            t
        }
    }

    /// `IL` and `DL`: rows from the cursor to the region's bottom moved down
    /// or up, and nothing with the cursor outside the region, as xterm does.
    #[verifier::opaque]
    pub open spec fn lines_moved(self, down: bool, count: u16) -> ScreenView {
        if self.scroll_top <= self.y <= self.scroll_bottom {
            let b = self.active();
            self.with_active(
                if down {
                    b.scrolled_down_view(self.y, self.scroll_bottom, count)
                } else {
                    b.scrolled_up_view(self.y, self.scroll_bottom, count)
                },
            )
        } else {
            self
        }
    }

    /// A CSI sequence that moves the cursor, or `None` for any other final
    /// byte.
    pub open spec fn csi_cursor(self, params: Seq<Seq<u16>>, action: char) -> Option<ScreenView> {
        let count = count_at(params, 0);
        if action == 'A' {
            Some(self.moved(self.x, sat_sub(self.y, count)))
        } else if action == 'B' || action == 'e' {
            Some(self.moved(self.x, sat_add(self.y, count)))
        } else if action == 'C' || action == 'a' {
            Some(self.moved(sat_add(self.x, count), self.y))
        } else if action == 'D' {
            Some(self.moved(sat_sub(self.x, count), self.y))
        } else if action == 'E' {
            Some(self.moved(0, sat_add(self.y, count)))
        } else if action == 'F' {
            Some(self.moved(0, sat_sub(self.y, count)))
        } else if action == 'G' || action == '`' {
            Some(self.moved((count - 1) as u16, self.y))
        } else if action == 'd' {
            Some(self.moved(self.x, (count - 1) as u16))
        } else if action == 'H' || action == 'f' {
            Some(self.moved((count_at(params, 1) - 1) as u16, (count_at(params, 0) - 1) as u16))
        } else {
            None
        }
    }

    /// A CSI sequence that edits the grid, or `None` for any other final
    /// byte.
    pub open spec fn csi_edit(self, params: Seq<Seq<u16>>, action: char) -> Option<ScreenView> {
        let first = param_at(params, 0);
        let count = count_at(params, 0);
        let b = self.active();
        if action == 'J' {
            Some(self.erased_display(first))
        } else if action == 'K' {
            Some(self.erased_line(first))
        } else if action == 'L' {
            Some(self.lines_moved(true, count))
        } else if action == 'M' {
            Some(self.lines_moved(false, count))
        } else if action == '@' {
            Some(self.with_active(b.inserted_view(self.x, self.y, count)))
        } else if action == 'P' {
            Some(self.with_active(b.deleted_view(self.x, self.y, count)))
        } else if action == 'X' {
            Some(self.with_active(b.filled_row(self.y, self.x, sat_add(self.x, (count - 1) as u16), blank_cell())))
        } else if action == 'S' {
            Some(self.scrolled_up(count))
        } else if action == 'T' {
            Some(self.with_active(b.scrolled_down_view(self.scroll_top, self.scroll_bottom, count)))
        } else if action == 'b' {
            Some(match self.last_printed {
                Some(ch) => self.repeated(ch, count as nat),
                None => self,
            })
        } else {
            None
        }
    }

    /// A CSI sequence that sets a mode, the pen or the region, saves the
    /// cursor, or answers a query; anything else is ignored.
    pub open spec fn csi_other(self, params: Seq<Seq<u16>>, intermediates: Seq<u8>, action: char) -> ScreenView {
        let private = leads_with(intermediates, 0x3f);
        let first = param_at(params, 0);
        if action == 'm' && intermediates.len() == 0 {
            ScreenView { pen: Pen { style: sgr(self.pen.style, params) }, ..self }
        } else if action == 'h' {
            self.moded(private, first, true)
        } else if action == 'l' {
            self.moded(private, first, false)
        } else if action == 'r' {
            self.region_set(params)
        } else if action == 's' {
            self.saved_cursor()
        } else if action == 'u' {
            self.restored()
        } else if action == 'q' && leads_with(intermediates, 0x20) {
            ScreenView {
                cursor_shape: if first == 3 || first == 4 {
                    CursorShape::Underline
                } else if first == 5 || first == 6 {
                    CursorShape::Bar
                } else {
                    CursorShape::Block
                },
                cursor_moved: true,
                ..self
            }
        } else {
            ScreenView { replies: self.replies + answer(self.cursor_state(), intermediates, first, action), ..self }
        }
    }

    /// A CSI sequence, by its final byte. An ignored sequence is dropped.
    pub open spec fn after_csi(self, params: Seq<Seq<u16>>, intermediates: Seq<u8>, ignore: bool, action: char) -> ScreenView {
        if ignore {
            self
        } else {
            match self.csi_cursor(params, action) {
                Some(t) => t,
                None => match self.csi_edit(params, action) {
                    Some(t) => t,
                    None => self.csi_other(params, intermediates, action),
                },
            }
        }
    }

    /// A C0 control: bell, backspace, tab, the three line feeds and carriage
    /// return; any other is ignored.
    pub open spec fn executed(self, byte: u8) -> ScreenView {
        if byte == 0x07 {
            ScreenView { bell: true, ..self }
        } else if byte == 0x08 {
            ScreenView { x: sat_sub(self.x, 1), pending_wrap: false, cursor_moved: true, ..self }
        } else if byte == 0x09 {
            self.tabbed()
        } else if byte == 0x0a || byte == 0x0b || byte == 0x0c {
            self.fed()
        } else if byte == 0x0d {
            self.returned()
        } else {
            self
        }
    }

    /// An ESC sequence: save and restore the cursor, index, next line,
    /// reverse index and reset. One with intermediates, such as a charset
    /// designation, is ignored: this emulator draws what it is sent.
    pub open spec fn after_esc(self, intermediates: Seq<u8>, ignore: bool, byte: u8) -> ScreenView {
        if ignore || intermediates.len() > 0 {
            self
        } else if byte == 0x37 {
            self.saved_cursor()
        } else if byte == 0x38 {
            self.restored()
        } else if byte == 0x44 {
            self.fed()
        } else if byte == 0x45 {
            self.returned().fed()
        } else if byte == 0x4d {
            self.reversed()
        } else if byte == 0x63 {
            self.reset_view()
        } else {
            self
        }
    }

    /// The cursor as a frame reports it.
    pub open spec fn cursor_state(self) -> CursorState {
        CursorState {
            x: min16(self.x, (self.active().cols - 1) as u16),
            y: min16(self.y, (self.active().rows - 1) as u16),
            visible: self.cursor_visible,
            shape: self.cursor_shape,
        }
    }
}

/// A line feed moves no column and keeps the grids' size and the modes.
pub proof fn lemma_fed_keeps(s: ScreenView)
    requires
        s.wf(),
    ensures
        s.fed().x == s.x,
        s.fed().alt_active == s.alt_active,
        s.fed().autowrap == s.autowrap,
        s.fed().insert_mode == s.insert_mode,
        s.fed().pen == s.pen,
        s.fed().cols() == s.cols(),
        s.fed().rows() == s.rows(),
        s.fed().active().cols == s.active().cols,
        s.fed().pending_wrap == false,
{
}

/// Saving the cursor (`ESC 7`) and then restoring it (`ESC 8`) puts the
/// cursor and the pen back where they were, and leaves both grids and the
/// grid being drawn on as they were.
pub proof fn lemma_save_then_restore(s: ScreenView)
    requires
        s.wf(),
    ensures
        ({
            let t = s.after_esc(Seq::empty(), false, 0x37).after_esc(Seq::empty(), false, 0x38);
            &&& t.x == s.x
            &&& t.y == s.y
            &&& t.pen == s.pen
            &&& t.primary == s.primary
            &&& t.alt == s.alt
            &&& t.alt_active == s.alt_active
        }),
{
    reveal(ScreenView::restored);
}

/// Entering the alternate screen with mode 1049 draws on a blank grid with
/// the cursor home and the pen reset; leaving it again gives back the
/// primary screen's text, the cursor and the pen as they were before.
pub proof fn lemma_alt_screen_round_trip(s: ScreenView)
    requires
        s.wf(),
        !s.alt_active,
    ensures
        ({
            let on = s.moded(true, 1049, true);
            &&& on.alt_active
            &&& on.x == 0
            &&& on.y == 0
            &&& on.pen == (Pen { style: plain_style() })
            &&& on.primary.grid == s.primary.grid
            &&& forall|r: int, c: int| 0 <= r < s.rows() && 0 <= c < s.cols() ==> #[trigger] on.alt.grid[r][c] == blank_cell()
        }),
        ({
            let t = s.moded(true, 1049, true).moded(true, 1049, false);
            &&& !t.alt_active
            &&& t.primary.grid == s.primary.grid
            &&& t.x == s.x
            &&& t.y == s.y
            &&& t.pen == s.pen
        }),
{
    reveal(ScreenView::moded);
    reveal(ScreenView::switched);
    lemma_cleared_rows_blank(s.alt, 0, s.alt.rows as int);
}

/// The largest of two integers.
pub open spec fn larger(a: int, b: int) -> int {
    if a >= b { a } else { b }
}

/// The smallest of two integers.
pub open spec fn smaller(a: int, b: int) -> int {
    if a <= b { a } else { b }
}

/// The cursor-moving CSI sequences move the cursor by their count, one when
/// none is given, and stop at the screen's edges: `A` goes up and `B` down
/// keeping the column, `C` right and `D` left keeping the row, `E` and `F`
/// go down and up to the start of the row, `G` picks a column, `d` a row and
/// `H` both (one-based). Nothing else on the screen changes, and the cursor
/// is no longer waiting to wrap.
pub proof fn lemma_csi_cursor_moves(s: ScreenView, params: Seq<Seq<u16>>, action: char)
    requires
        s.wf(),
        action == 'A' || action == 'B' || action == 'C' || action == 'D' || action == 'E' || action == 'F'
            || action == 'G' || action == 'd' || action == 'H',
    ensures
        ({
            let t = s.after_csi(params, Seq::empty(), false, action);
            let n = count_at(params, 0) as int;
            let top = 0int;
            let right = s.cols() - 1;
            let bottom = s.rows() - 1;
            &&& t.primary == s.primary
            &&& t.alt == s.alt
            &&& t.alt_active == s.alt_active
            &&& t.pen == s.pen
            &&& t.scrollback == s.scrollback
            &&& t.replies == s.replies
            &&& !t.pending_wrap
            &&& (action == 'A' ==> t.x == s.x && t.y == larger(s.y - n, top))
            &&& (action == 'B' ==> t.x == s.x && t.y == smaller(s.y + n, bottom))
            &&& (action == 'C' ==> t.y == s.y && t.x == smaller(s.x + n, right))
            &&& (action == 'D' ==> t.y == s.y && t.x == larger(s.x - n, 0))
            &&& (action == 'E' ==> t.x == 0 && t.y == smaller(s.y + n, bottom))
            &&& (action == 'F' ==> t.x == 0 && t.y == larger(s.y - n, top))
            &&& (action == 'G' ==> t.y == s.y && t.x == smaller(n - 1, right))
            &&& (action == 'd' ==> t.x == s.x && t.y == smaller(n - 1, bottom))
            &&& (action == 'H' ==> t.x == smaller(count_at(params, 1) - 1, right) && t.y == smaller(
                n - 1,
                bottom,
            ))
        }),
{
}

/// The C0 controls do what a terminal does with them: backspace steps left
/// stopping at the first column, carriage return goes to the first column,
/// tab goes to the next multiple of eight columns stopping at the last, and
/// a line feed (or VT, FF) above the bottom of the scroll region moves down
/// one row keeping the column; none of these touches a cell. The bell only
/// rings, and any other control does nothing.
pub proof fn lemma_c0_controls(s: ScreenView, byte: u8)
    requires
        s.wf(),
    ensures
        ({
            let t = s.executed(byte);
            &&& (byte == 0x08 || byte == 0x0d || byte == 0x09) ==> t.primary == s.primary && t.alt == s.alt
                && t.scrollback == s.scrollback
            &&& byte == 0x08 ==> t.y == s.y && t.x == larger(s.x - 1, 0)
            &&& byte == 0x0d ==> t.y == s.y && t.x == 0
            &&& byte == 0x09 ==> t.y == s.y && t.x == smaller((s.x / 8 + 1) * 8, s.cols() - 1)
            &&& (byte == 0x0a || byte == 0x0b || byte == 0x0c) && s.y != s.scroll_bottom && s.y + 1 < s.rows()
                ==> t.x == s.x && t.y == s.y + 1 && t.primary == s.primary && t.alt == s.alt
            &&& byte == 0x07 ==> t == (ScreenView { bell: true, ..s })
            &&& !(byte == 0x07 || byte == 0x08 || byte == 0x09 || byte == 0x0a || byte == 0x0b || byte == 0x0c
                || byte == 0x0d) ==> t == s
        }),
{
}

/// Erasing in the line blanks the cursor's row from the cursor to the end
/// (mode 0, or any mode not listed), from the start through the cursor
/// (mode 1), or all of it (mode 2); no other row changes and the cursor
/// stays where it is. `ECH` blanks the cursor's cell and the count of cells
/// after it that the row holds.
pub proof fn lemma_erase_in_line(s: ScreenView, params: Seq<Seq<u16>>)
    requires
        s.wf(),
    ensures
        ({
            let t = s.after_csi(params, Seq::empty(), false, 'K');
            let mode = param_at(params, 0);
            let (from, to) = if mode == 1 {
                (0int, s.x as int)
            } else if mode == 2 {
                (0int, s.cols() - 1)
            } else {
                (s.x as int, s.cols() - 1)
            };
            &&& t.x == s.x && t.y == s.y
            &&& t.alt_active == s.alt_active
            &&& forall|c: int| from <= c <= to ==> #[trigger] t.active().grid[s.y as int][c] == blank_cell()
            &&& forall|r: int| 0 <= r < s.rows() && r != s.y ==> #[trigger] t.active().grid[r] == s.active().grid[r]
        }),
        ({
            let t = s.after_csi(params, Seq::empty(), false, 'X');
            let n = count_at(params, 0) as int;
            &&& t.x == s.x && t.y == s.y
            &&& forall|c: int| s.x <= c < s.x + n && c < s.cols() ==> #[trigger] t.active().grid[s.y as int][c] == blank_cell()
            &&& forall|r: int| 0 <= r < s.rows() && r != s.y ==> #[trigger] t.active().grid[r] == s.active().grid[r]
        }),
{
    let b = s.active();
    let last = (b.cols - 1) as u16;
    reveal(ScreenView::erased_line);
    let mode = param_at(params, 0);
    let t = s.after_csi(params, Seq::empty(), false, 'K');
    assert(b.cols == s.cols() && b.rows == s.rows());
    assert(t == s.erased_line(mode));
    if mode == 1 {
        lemma_blank_fill(b, s.y, 0, s.x);
        let f = b.filled_row(s.y, 0, s.x, blank_cell());
        assert(s.erased_line(mode) == s.with_active(f));
        assert(s.with_active(f).active() == f);
    } else if mode == 2 {
        lemma_blank_fill(b, s.y, 0, last);
        let f = b.filled_row(s.y, 0, last, blank_cell());
        assert(s.erased_line(mode) == s.with_active(f));
        assert(s.with_active(f).active() == f);
    } else {
        lemma_blank_fill(b, s.y, s.x, last);
        let f = b.filled_row(s.y, s.x, last, blank_cell());
        assert(s.erased_line(mode) == s.with_active(f));
        assert(s.with_active(f).active() == f);
    }
    let n = count_at(params, 0);
    let end = sat_add(s.x, (n - 1) as u16);
    lemma_blank_fill(b, s.y, s.x, min16(end, last));
    assert(b.filled_row(s.y, s.x, end, blank_cell()) == b.filled_row(s.y, s.x, min16(end, last), blank_cell()));
}

/// Entering the alternate screen the way mode 1049 does gives a blank
/// screen with the cursor home and a plain pen, leaving the primary grid
/// alone; leaving it again gives back the primary grid, the cursor and the
/// pen as they were.
pub proof fn lemma_switch_alt_round_trip(s: ScreenView)
    requires
        s.wf(),
        !s.alt_active,
    ensures
        ({
            let on = s.switched(true, true);
            &&& on.alt_active
            &&& on.x == 0
            &&& on.y == 0
            &&& on.pen == (Pen { style: plain_style() })
            &&& on.primary.grid == s.primary.grid
            &&& forall|r: int, c: int| 0 <= r < s.rows() && 0 <= c < s.cols() ==> #[trigger] on.alt.grid[r][c] == blank_cell()
        }),
        ({
            let t = s.switched(true, true).switched(false, true);
            &&& !t.alt_active
            &&& t.primary.grid == s.primary.grid
            &&& t.x == s.x
            &&& t.y == s.y
            &&& t.pen == s.pen
        }),
{
    reveal(ScreenView::switched);
    lemma_cleared_rows_blank(s.alt, 0, s.alt.rows as int);
}

/// Blanking rows `from..to` leaves every cell of them blank, the other rows
/// as they were, and the shape.
pub proof fn lemma_cleared_rows_blank(b: BufferView, from: int, to: int)
    requires
        shaped(b),
        b.cols >= 1,
        0 <= from,
        to <= b.rows,
    ensures
        shaped(cleared_rows(b, from, to)),
        cleared_rows(b, from, to).cols == b.cols,
        cleared_rows(b, from, to).rows == b.rows,
        forall|r: int, x: int| from <= r < to && 0 <= x < b.cols ==> #[trigger] cleared_rows(b, from, to).grid[r][x] == blank_cell(),
        forall|r: int| 0 <= r < b.rows && !(from <= r < to) ==> #[trigger] cleared_rows(b, from, to).grid[r] == b.grid[r],
    decreases to - from,
{
    if from < to {
        let b1 = b.cleared_row(from as u16);
        lemma_cleared_row_blank(b, from as u16);
        lemma_cleared_rows_blank(b1, from + 1, to);
        let last = cleared_rows(b1, from + 1, to);
        assert forall|r: int, x: int| from <= r < to && 0 <= x < b.cols implies #[trigger] last.grid[r][x] == blank_cell() by {
            if r == from {
                assert(last.grid[r] == b1.grid[r]);
                assert(b1.grid[from][x] == blank_cell());
            }
        }
    }
}

/// A printable ASCII character is one column wide: printed short of the
/// right edge, it lands in the cell under the cursor in the pen's style, and
/// the cursor steps one column right on the same row.
pub proof fn lemma_print_ascii(s: ScreenView, ch: char)
    requires
        s.wf(),
        0x20 <= (ch as u32) < 0x7f,
        !s.pending_wrap,
        s.x + 1 < s.active().cols,
    ensures
        s.printed(ch).x == s.x + 1,
        s.printed(ch).y == s.y,
        s.printed(ch).alt_active == s.alt_active,
        s.printed(ch).active().grid[s.y as int][s.x as int] == (Cell { ch, style: s.pen.style, width: 1 }),
{
    reveal(ScreenView::printed);
    assert(glyph_width(ch) == Some(1usize));
    let cell = Cell { ch, style: s.pen.style, width: 1 };
    let b = s.active();
    let b1 = if s.insert_mode { b.inserted_view(s.x, s.y, 1) } else { b };
    let b2 = b1.overlap_view(s.x, s.y, 1);
    let b3 = b2.set_cell(s.x, s.y, cell);
    if s.insert_mode {
        lemma_inserted_shaped(b, s.x, s.y, 1);
    }
    lemma_overlap_damage(b1, s.x, s.y, 1);
    assert(with_continuations(b3, s.x, s.y, 1, 1, cell.style) == b3);
    assert(b3.grid[s.y as int][s.x as int] == cell);
}

/// Autowrap: a printable ASCII character printed in the last column lands
/// there and leaves the cursor on it waiting to wrap; the next one printed
/// goes to the start of the next row (above the bottom of the scroll region)
/// and the cursor steps past it.
pub proof fn lemma_print_wraps(s: ScreenView, ch: char)
    requires
        s.wf(),
        0x20 <= (ch as u32) < 0x7f,
        s.autowrap,
    ensures
        !s.pending_wrap && s.x + 1 == s.active().cols ==> {
            let t = s.printed(ch);
            &&& t.x == s.x
            &&& t.y == s.y
            &&& t.pending_wrap
            &&& t.active().grid[s.y as int][s.x as int] == (Cell { ch, style: s.pen.style, width: 1 })
        },
        s.pending_wrap && s.y != s.scroll_bottom && s.y + 1 < s.rows() && 1 < s.active().cols ==> {
            let t = s.printed(ch);
            &&& t.x == 1
            &&& t.y == s.y + 1
            &&& !t.pending_wrap
            &&& t.active().grid[s.y + 1][0] == (Cell { ch, style: s.pen.style, width: 1 })
        },
{
    reveal(ScreenView::printed);
    assert(glyph_width(ch) == Some(1usize));
    let cell = Cell { ch, style: s.pen.style, width: 1 };
    if !s.pending_wrap && s.x + 1 == s.active().cols {
        let b = s.active();
        let b1 = if s.insert_mode { b.inserted_view(s.x, s.y, 1) } else { b };
        let b2 = b1.overlap_view(s.x, s.y, 1);
        let b3 = b2.set_cell(s.x, s.y, cell);
        if s.insert_mode {
            lemma_inserted_shaped(b, s.x, s.y, 1);
        }
        lemma_overlap_damage(b1, s.x, s.y, 1);
        assert(with_continuations(b3, s.x, s.y, 1, 1, cell.style) == b3);
        assert(b3.grid[s.y as int][s.x as int] == cell);
    }
    if s.pending_wrap && s.y != s.scroll_bottom && s.y + 1 < s.rows() && 1 < s.active().cols {
        let s1 = s.returned().fed();
        assert(s1.x == 0 && s1.y == s.y + 1 && s1.active() == s.active());
        let b = s1.active();
        let y = s1.y;
        let b1 = if s.insert_mode { b.inserted_view(0, y, 1) } else { b };
        let b2 = b1.overlap_view(0, y, 1);
        let b3 = b2.set_cell(0, y, cell);
        if s.insert_mode {
            lemma_inserted_shaped(b, 0, y, 1);
        }
        lemma_overlap_damage(b1, 0, y, 1);
        assert(with_continuations(b3, 0, y, 1, 1, cell.style) == b3);
        assert(b3.grid[y as int][0] == cell);
    }
}

/// A pane's emulated screen.
///
/// Owns both grids, because the alternate screen is a different grid rather
/// than a mode over one grid, and scrollback belongs to the primary grid
/// alone.
pub struct Screen {
    primary: Buffer,
    alt: Buffer,
    alt_active: bool,
    scrollback: VecDeque<Vec<Cell>>,
    pen: Pen,
    x: u16,
    y: u16,
    saved: Option<(u16, u16, Pen)>,
    saved_alt: Option<(u16, u16, Pen)>,
    cursor_visible: bool,
    cursor_shape: CursorShape,
    cursor_moved: bool,
    scroll_top: u16,
    scroll_bottom: u16,
    autowrap: bool,
    insert_mode: bool,
    pending_wrap: bool,
    application_cursor_keys: bool,
    bracketed_paste: bool,
    last_printed: Option<char>,
    bell: bool,
    replies: Vec<u8>,
}

impl View for Screen {
    type V = ScreenView;

    closed spec fn view(&self) -> ScreenView {
        ScreenView {
            primary: self.primary@,
            alt: self.alt@,
            alt_active: self.alt_active,
            scrollback: self.scrollback@.map_values(|line: Vec<Cell>| line@),
            pen: self.pen,
            x: self.x,
            y: self.y,
            saved: self.saved,
            saved_alt: self.saved_alt,
            cursor_visible: self.cursor_visible,
            cursor_shape: self.cursor_shape,
            cursor_moved: self.cursor_moved,
            scroll_top: self.scroll_top,
            scroll_bottom: self.scroll_bottom,
            autowrap: self.autowrap,
            insert_mode: self.insert_mode,
            pending_wrap: self.pending_wrap,
            application_cursor_keys: self.application_cursor_keys,
            bracketed_paste: self.bracketed_paste,
            last_printed: self.last_printed,
            bell: self.bell,
            replies: self.replies@,
        }
    }
}

impl Screen {
    pub open spec fn wf(&self) -> bool {
        self@.wf()
    }

    pub fn new(cols: u16, rows: u16) -> (s: Screen)
        ensures
            s.wf(),
            s@ == fresh_screen(cols, rows),
    {
        let primary = Buffer::new(cols, rows);
        let alt = Buffer::new(cols, rows);
        let bottom = primary.rows() - 1;
        let s = Screen {
            primary,
            alt,
            alt_active: false,
            scrollback: VecDeque::new(),
            pen: Pen::new(),
            x: 0,
            y: 0,
            saved: None,
            saved_alt: None,
            cursor_visible: true,
            cursor_shape: CursorShape::Block,
            cursor_moved: false,
            scroll_top: 0,
            scroll_bottom: bottom,
            autowrap: true,
            insert_mode: false,
            pending_wrap: false,
            application_cursor_keys: false,
            bracketed_paste: false,
            last_printed: None,
            bell: false,
            replies: Vec::new(),
        };
        proof {
            assert(s@.primary =~= fresh_screen(cols, rows).primary);
            assert(s@.alt =~= fresh_screen(cols, rows).alt);
            assert(s@.scrollback =~= Seq::<Seq<Cell>>::empty());
        }
        s
    }

    /// The grid being drawn on.
    pub fn active(&self) -> (b: &Buffer)
        ensures
            b@ == self@.active(),
    {
        if self.alt_active {
            &self.alt
        } else {
            &self.primary
        }
    }

    /// The grid being drawn on, to change.
    pub fn active_mut(&mut self) -> (b: &mut Buffer)
        ensures
            b@ == old(self)@.active(),
            final(self)@ == old(self)@.with_active(final(b)@),
    {
        if self.alt_active {
            &mut self.alt
        } else {
            &mut self.primary
        }
    }

    pub fn alt_screen(&self) -> (b: bool)
        ensures
            b == self@.alt_active,
    {
        self.alt_active
    }

    pub fn application_cursor_keys(&self) -> (b: bool)
        ensures
            b == self@.application_cursor_keys,
    {
        self.application_cursor_keys
    }

    pub fn bracketed_paste(&self) -> (b: bool)
        ensures
            b == self@.bracketed_paste,
    {
        self.bracketed_paste
    }

    pub fn cursor(&self) -> (c: CursorState)
        requires
            self.wf(),
        ensures
            c == self@.cursor_state(),
    {
        let cols = self.active().cols();
        let rows = self.active().rows();
        CursorState {
            x: if self.x < cols - 1 { self.x } else { cols - 1 },
            y: if self.y < rows - 1 { self.y } else { rows - 1 },
            visible: self.cursor_visible,
            shape: self.cursor_shape,
        }
    }

    /// Whether the cursor moved since the last call, clearing it.
    pub fn take_cursor_moved(&mut self) -> (moved: bool)
        ensures
            moved == old(self)@.cursor_moved,
            final(self)@ == (ScreenView { cursor_moved: false, ..old(self)@ }),
    {
        let moved = self.cursor_moved;
        self.cursor_moved = false;
        moved
    }

    /// Whether the bell rang since the last call, clearing it.
    pub fn take_bell(&mut self) -> (rang: bool)
        ensures
            rang == old(self)@.bell,
            final(self)@ == (ScreenView { bell: false, ..old(self)@ }),
    {
        let rang = self.bell;
        self.bell = false;
        rang
    }

    /// Bytes the pane is owed in answer to a query it sent, clearing them.
    pub fn take_replies(&mut self) -> (replies: Vec<u8>)
        ensures
            replies@ == old(self)@.replies,
            final(self)@ == (ScreenView { replies: Seq::empty(), ..old(self)@ }),
    {
        let mut replies: Vec<u8> = Vec::new();
        std::mem::swap(&mut replies, &mut self.replies);
        replies
    }

    /// How many lines the history holds, or `None` on the alternate screen,
    /// which genuinely has none: zero would read as a history that is empty.
    pub fn scrollback_len(&self) -> (n: Option<u32>)
        requires
            self.wf(),
        ensures
            n == (if self@.alt_active { None } else { Some(self@.scrollback.len() as u32) }),
    {
        if self.alt_active {
            return None;
        }
        Some(self.scrollback.len() as u32)
    }

    fn move_to(&mut self, x: u16, y: u16)
        requires
            old(self).wf(),
        ensures
            final(self).wf(),
            final(self)@ == old(self)@.moved(x, y),
    {
        let cols = self.active().cols();
        let rows = self.active().rows();
        self.x = if x < cols - 1 { x } else { cols - 1 };
        self.y = if y < rows - 1 { y } else { rows - 1 };
        self.pending_wrap = false;
        self.cursor_moved = true;
    }

    fn carriage_return(&mut self)
        requires
            old(self).wf(),
        ensures
            final(self).wf(),
            final(self)@ == old(self)@.returned(),
    {
        self.x = 0;
        self.pending_wrap = false;
        self.cursor_moved = true;
    }

    /// Adds a line to the history, its trailing blanks trimmed and the oldest
    /// line dropped when the history is full.
    fn push_scrollback(&mut self, line: Vec<Cell>)
        requires
            old(self).wf(),
        ensures
            final(self).wf(),
            final(self)@ == (ScreenView { scrollback: pushed_line(old(self)@.scrollback, line@), ..old(self)@ }),
    {
        let mut line = line;
        let ghost whole = line@;
        while line.len() > 0 && line[line.len() - 1].is_blank()
            invariant
                trimmed_line(line@) == trimmed_line(whole),
            decreases line@.len(),
        {
            line.pop();
        }
        if self.scrollback.len() == SCROLLBACK_LINES {
            self.scrollback.pop_front();
        }
        self.scrollback.push_back(line);
        proof {
            assert(self@.scrollback =~= pushed_line(old(self)@.scrollback, whole));
        }
    }

    /// Adds each line to the history, first first.
    fn push_lines(&mut self, lines: Vec<Vec<Cell>>)
        requires
            old(self).wf(),
        ensures
            final(self).wf(),
            final(self)@ == (ScreenView {
                scrollback: pushed_lines(old(self)@.scrollback, lines@.map_values(|l: Vec<Cell>| l@)),
                ..old(self)@
            }),
    {
        let ghost all = lines@.map_values(|l: Vec<Cell>| l@);
        proof {
            assert(all.skip(0) =~= all);
        }
        let mut i: usize = 0;
        while i < lines.len()
            invariant
                self.wf(),
                i <= lines@.len(),
                all == lines@.map_values(|l: Vec<Cell>| l@),
                pushed_lines(self@.scrollback, all.skip(i as int)) == pushed_lines(old(self)@.scrollback, all),
                self@ == (ScreenView { scrollback: self@.scrollback, ..old(self)@ }),
            decreases lines@.len() - i,
        {
            proof {
                assert(all.skip(i as int).drop_first() =~= all.skip(i + 1));
                assert(all.skip(i as int)[0] == lines@[i as int]@);
            }
            let mut line: Vec<Cell> = Vec::new();
            let mut k: usize = 0;
            while k < lines[i].len()
                invariant
                    i < lines@.len(),
                    k <= lines@[i as int]@.len(),
                    line@ == lines@[i as int]@.take(k as int),
                decreases lines@[i as int]@.len() - k,
            {
                line.push(lines[i][k]);
                k = k + 1;
                proof {
                    assert(line@ =~= lines@[i as int]@.take(k as int));
                }
            }
            proof {
                assert(line@ =~= lines@[i as int]@);
            }
            self.push_scrollback(line);
            i = i + 1;
        }
        proof {
            assert(all.skip(i as int) =~= Seq::<Seq<Cell>>::empty());
        }
    }

    /// Draws one character at the cursor.
    ///
    /// A zero-width character has no cell of its own and cannot be folded
    /// into the previous one: a cell holds a single `char`, so a base plus a
    /// combining mark is not expressible.
    pub fn print_char(&mut self, ch: char)
        requires
            old(self).wf(),
        ensures
            final(self).wf(),
            final(self)@ == old(self)@.printed(ch),
    {
        proof {
            reveal(ScreenView::printed);
        }
        let measured = match char_width(ch) {
            None => {
                return;
            },
            Some(m) => m,
        };
        if measured == 0 {
            return;
        }
        let width: u16 = if measured <= u16::MAX as usize { measured as u16 } else { 1 };
        let cols = self.active().cols();
        if width > cols {
            return;
        }
        self.wrap_for(width);
        self.draw(ch, width);
    }

    fn wrap_for(&mut self, width: u16)
        requires
            old(self).wf(),
            1 <= width <= old(self)@.cols(),
        ensures
            final(self).wf(),
            final(self)@ == old(self)@.wrapped(width),
    {
        let cols = self.active().cols();
        let ghost s0 = self@;
        if self.pending_wrap && self.autowrap {
            self.carriage_return();
            self.line_feed();
            proof {
                lemma_fed_keeps(s0.returned());
            }
        }
        let ghost s1 = self@;
        assert(s1 == (if s0.pending_wrap && s0.autowrap { s0.returned().fed() } else { s0 }));
        let reach: u32 = self.x as u32 + width as u32;
        let reach: u32 = if reach > u16::MAX as u32 { u16::MAX as u32 } else { reach };
        assert(reach == sat_add(s1.x, width));
        if reach > cols as u32 {
            if self.autowrap {
                self.carriage_return();
                self.line_feed();
                proof {
                    lemma_fed_keeps(s1.returned());
                }
            } else {
                self.x = cols - width;
                assert(self@ =~= ScreenView { x: (cols - width) as u16, ..s1 });
            }
        }
    }

    fn draw(&mut self, ch: char, width: u16)
        requires
            old(self).wf(),
            1 <= width,
        ensures
            final(self).wf(),
            final(self)@ == old(self)@.drawn(ch, width),
    {
        let cols = self.active().cols();
        let style = self.pen.style();
        let x = self.x;
        let y = self.y;
        let cell = Cell::new(ch, style, if width <= u8::MAX as u16 { width as u8 } else { 1 });
        let insert = self.insert_mode;
        self.active_mut().draw_glyph(insert, x, y, cell, width);
        self.last_printed = Some(ch);
        self.cursor_moved = true;
        if self.autowrap && x as u32 + width as u32 >= cols as u32 {
            self.x = cols - 1;
            self.pending_wrap = true;
        } else {
            self.x = if (x as u32 + width as u32) < cols as u32 - 1 { x + width } else { cols - 1 };
        }
        proof {
            assert(self@ =~= old(self)@.drawn(ch, width));
        }
    }

    fn erase_in_line(&mut self, mode: u16)
        requires
            old(self).wf(),
        ensures
            final(self).wf(),
            final(self)@ == old(self)@.erased_line(mode),
    {
        proof {
            reveal(ScreenView::erased_line);
        }
        let last = self.active().cols() - 1;
        let x = self.x;
        let y = self.y;
        if mode == 1 {
            self.active_mut().fill(y, 0, x, Cell::blank());
        } else if mode == 2 {
            self.active_mut().fill(y, 0, last, Cell::blank());
        } else {
            self.active_mut().fill(y, x, last, Cell::blank());
        }
    }

    /// Blanks rows `from..to` of the grid being drawn on, top first.
    fn clear_rows(&mut self, from: u16, to: u16)
        requires
            old(self).wf(),
            to <= old(self)@.rows(),
        ensures
            final(self).wf(),
            final(self)@ == old(self)@.with_active(cleared_rows(old(self)@.active(), from as int, to as int)),
    {
        let mut row: u16 = from;
        while row < to
            invariant
                self.wf(),
                from <= row || row >= to,
                to <= self@.rows(),
                self@.alt_active == old(self)@.alt_active,
                self@ == old(self)@.with_active(self@.active()),
                cleared_rows(self@.active(), row as int, to as int) == cleared_rows(old(self)@.active(), from as int, to as int),
            decreases to - row,
        {
            self.active_mut().clear_row(row);
            row = row + 1;
        }
        proof {
            assert(self@ =~= old(self)@.with_active(cleared_rows(old(self)@.active(), from as int, to as int)));
        }
    }

    #[verifier::rlimit(80)]
    #[verifier::spinoff_prover]
    fn erase_in_display(&mut self, mode: u16)
        requires
            old(self).wf(),
        ensures
            final(self).wf(),
            final(self)@ == old(self)@.erased_display(mode),
    {
        proof {
            reveal(ScreenView::erased_display);
        }
        let last_col = self.active().cols() - 1;
        let rows = self.active().rows();
        let x = self.x;
        let y = self.y;
        if mode == 1 {
            self.clear_rows(0, y);
            self.active_mut().fill(y, 0, x, Cell::blank());
        } else if mode == 2 {
            self.clear_rows(0, rows);
        } else if mode == 3 {
            self.clear_rows(0, rows);
            self.scrollback.clear();
            proof {
                assert(self@ =~= old(self)@.erased_display(mode));
            }
        } else {
            self.active_mut().fill(y, x, last_col, Cell::blank());
            self.clear_rows(y + 1, rows);
        }
    }

    /// Blanks every row of the alternate grid.
    fn clear_alt(&mut self)
        requires
            old(self).wf(),
        ensures
            final(self).wf(),
            final(self)@ == (ScreenView { alt: cleared_rows(old(self)@.alt, 0, old(self)@.alt.rows as int), ..old(self)@ }),
    {
        let rows = self.alt.rows();
        let mut alt = Buffer::new(1, 1);
        std::mem::swap(&mut alt, &mut self.alt);
        let mut row: u16 = 0;
        while row < rows
            invariant
                alt.wf(),
                rows == alt@.rows,
                alt@.cols == old(self)@.alt.cols,
                alt@.rows == old(self)@.alt.rows,
                cleared_rows(alt@, row as int, rows as int) == cleared_rows(old(self)@.alt, 0, rows as int),
            decreases rows - row,
        {
            alt.clear_row(row);
            row = row + 1;
        }
        std::mem::swap(&mut alt, &mut self.alt);
        proof {
            assert(self@ =~= ScreenView { alt: cleared_rows(old(self)@.alt, 0, old(self)@.alt.rows as int), ..old(self)@ });
        }
    }

    /// Enters or leaves the alternate screen; with `save_and_clear`, as mode
    /// 1049 does, saving the cursor on the way in, clearing the alternate
    /// screen, and restoring the cursor on the way out.
    pub fn switch_alt(&mut self, on: bool, save_and_clear: bool)
        requires
            old(self).wf(),
        ensures
            final(self).wf(),
            final(self)@ == old(self)@.switched(on, save_and_clear),
    {
        proof {
            reveal(ScreenView::switched);
        }
        if self.alt_active == on {
            return;
        }
        self.toggle(on, save_and_clear);
        self.settle();
    }

    fn toggle(&mut self, on: bool, save_and_clear: bool)
        requires
            old(self).wf(),
        ensures
            final(self)@ == old(self)@.toggled(on, save_and_clear),
            final(self)@.primary == old(self)@.primary,
            final(self)@.alt.wf(),
            final(self)@.alt.cols == old(self)@.alt.cols,
            final(self)@.alt.rows == old(self)@.alt.rows,
            final(self)@.scrollback.len() <= SCROLLBACK_LINES,
            final(self)@.scroll_top <= final(self)@.scroll_bottom < final(self)@.rows(),
    {
        if on {
            if save_and_clear {
                self.saved_alt = Some((self.x, self.y, self.pen));
            }
            self.alt_active = true;
            if save_and_clear {
                self.clear_alt();
                self.x = 0;
                self.y = 0;
                self.pen.reset();
            }
        } else {
            self.alt_active = false;
            if save_and_clear {
                match self.saved_alt {
                    Some((x, y, pen)) => {
                        self.x = x;
                        self.y = y;
                        self.pen = pen;
                        self.saved_alt = None;
                    },
                    None => {},
                }
            }
        }
        proof {
            assert(self@ =~= old(self)@.toggled(on, save_and_clear));
        }
    }

    fn settle(&mut self)
        requires
            old(self)@.primary.wf(),
            old(self)@.alt.wf(),
            old(self)@.alt.cols == old(self)@.primary.cols,
            old(self)@.alt.rows == old(self)@.primary.rows,
            old(self)@.scrollback.len() <= SCROLLBACK_LINES,
        ensures
            final(self).wf(),
            final(self)@ == old(self)@.settled(),
    {
        let bottom = self.active().rows() - 1;
        let last = self.active().cols() - 1;
        self.scroll_top = 0;
        self.scroll_bottom = bottom;
        self.x = if self.x < last { self.x } else { last };
        self.y = if self.y < bottom { self.y } else { bottom };
        self.pending_wrap = false;
        self.cursor_moved = true;
        self.active_mut().mark_all_dirty();
        proof {
            assert(self@ =~= old(self)@.settled());
        }
    }

    #[verifier::rlimit(60)]
    fn set_mode(&mut self, private: bool, code: u16, on: bool)
        requires
            old(self).wf(),
        ensures
            final(self).wf(),
            final(self)@ == old(self)@.moded(private, code, on),
    {
        proof {
            reveal(ScreenView::moded);
        }
        if !private {
            if code == 4 {
                self.insert_mode = on;
            }
            return;
        }
        if code == 1 {
            self.application_cursor_keys = on;
        } else if code == 7 {
            self.autowrap = on;
            self.pending_wrap = false;
        } else if code == 25 {
            self.cursor_visible = on;
            self.cursor_moved = true;
        } else if code == 47 || code == 1047 {
            self.switch_alt(on, false);
        } else if code == 1049 {
            self.switch_alt(on, true);
        } else if code == 2004 {
            self.bracketed_paste = on;
        }
    }

    /// `RIS`. The history survives, which is a departure from what a reset
    /// conventionally does: history a person can still scroll back to is not
    /// screen state. Replies and the bell survive too, because they are owed
    /// to the program: a reset in the same chunk as a device query would
    /// otherwise swallow the answer.
    fn reset(&mut self)
        requires
            old(self).wf(),
        ensures
            final(self).wf(),
            final(self)@ == old(self)@.reset_view(),
    {
        let cols = self.primary.cols();
        let rows = self.primary.rows();
        let mut fresh = Screen::new(cols, rows);
        std::mem::swap(&mut fresh.scrollback, &mut self.scrollback);
        std::mem::swap(&mut fresh.replies, &mut self.replies);
        fresh.bell = self.bell;
        fresh.primary.mark_all_dirty();
        *self = fresh;
        proof {
            assert(self@ =~= old(self)@.reset_view());
        }
    }

    /// Cuts or grows both grids.
    ///
    /// A shrink can cut between a double-width glyph's two halves, so both
    /// grids are repaired. The scroll region is reset rather than clamped,
    /// which is what xterm does: a region bottom left past the new last row
    /// would make the cursor stick on one row forever. A saved cursor from the
    /// old geometry may name a cell that no longer exists, so both are
    /// forgotten.
    pub fn resize(&mut self, cols: u16, rows: u16)
        requires
            old(self).wf(),
        ensures
            final(self).wf(),
            final(self)@ == old(self)@.resized(cols, rows),
    {
        self.primary.resize(cols, rows);
        self.alt.resize(cols, rows);
        self.primary.repair_all_wide();
        self.alt.repair_all_wide();
        let bottom = self.active().rows() - 1;
        let last = self.active().cols() - 1;
        self.scroll_top = 0;
        self.scroll_bottom = bottom;
        self.x = if self.x < last { self.x } else { last };
        self.y = if self.y < bottom { self.y } else { bottom };
        self.pending_wrap = false;
        self.saved = None;
        self.saved_alt = None;
        self.cursor_moved = true;
        proof {
            assert(self@ =~= old(self)@.resized(cols, rows));
        }
    }

    /// Lines of history older than `before_line`, at most `limit` of them,
    /// oldest first so a page applies as rows top to bottom; where the next
    /// page would end, or `None` when this page reaches the oldest line; and
    /// whether older lines remain. Line 0 is the oldest line still held.
    pub fn scrollback_page(&self, before_line: Option<u32>, limit: u16) -> (page: (Vec<Vec<Cell>>, Option<u32>, bool))
        requires
            self.wf(),
        ensures
            ({
                let len = self@.scrollback.len() as int;
                let start = page_start(len, before_line, limit);
                let end = page_end(len, before_line);
                &&& page.0@.map_values(|l: Vec<Cell>| l@) == self@.scrollback.subrange(start, end)
                &&& page.1 == (if start == 0 { None } else { Some(start as u32) })
                &&& page.2 == (start > 0)
            }),
    {
        let len = self.scrollback.len();
        let end: usize = match before_line {
            Some(line) => if (line as usize) < len { line as usize } else { len },
            None => len,
        };
        let take: usize = if (limit as usize) < end { limit as usize } else { end };
        let start = end - take;
        let mut lines: Vec<Vec<Cell>> = Vec::new();
        let mut i: usize = start;
        while i < end
            invariant
                start <= i <= end,
                end <= len,
                len == self.scrollback@.len(),
                lines@.map_values(|l: Vec<Cell>| l@) == self@.scrollback.subrange(start as int, i as int),
            decreases end - i,
        {
            let line = &self.scrollback[i];
            let mut copy: Vec<Cell> = Vec::new();
            let mut k: usize = 0;
            while k < line.len()
                invariant
                    k <= line@.len(),
                    copy@ == line@.take(k as int),
                decreases line@.len() - k,
            {
                copy.push(line[k]);
                k = k + 1;
                proof {
                    assert(copy@ =~= line@.take(k as int));
                }
            }
            proof {
                assert(copy@ =~= line@);
                assert(line@ == self@.scrollback[i as int]);
            }
            let ghost before = lines@;
            lines.push(copy);
            proof {
                assert(lines@.map_values(|l: Vec<Cell>| l@) =~= before.map_values(|l: Vec<Cell>| l@).push(self@.scrollback[i as int]));
                assert(self@.scrollback.subrange(start as int, i + 1) =~= self@.scrollback.subrange(start as int, i as int).push(self@.scrollback[i as int]));
            }
            i = i + 1;
        }
        let next = if start == 0 { None } else { Some(start as u32) };
        (lines, next, start > 0)
    }

    /// The grid being drawn on as text: one line per row, trailing whitespace
    /// trimmed. A wide character's continuation column contributes nothing,
    /// because the character itself already sits in the cell before it.
    pub fn text(&self) -> (t: String)
        requires
            self.wf(),
        ensures
            t@ == self@.text(),
    {
        let buffer = self.active();
        let rows = buffer.rows();
        let mut lines: Vec<Vec<char>> = Vec::new();
        let mut y: u16 = 0;
        while y < rows
            invariant
                buffer.wf(),
                rows == buffer@.rows,
                buffer@ == self@.active(),
                y <= rows,
                lines.deep_view() == Seq::new(y as nat, |j: int| trim_end(row_text(buffer@.grid[j]))),
            decreases rows - y,
        {
            let row = buffer.row(y);
            let mut line: Vec<char> = Vec::new();
            let mut k: usize = 0;
            while k < row.len()
                invariant
                    k <= row@.len(),
                    line@ == row_text(row@.take(k as int)),
                decreases row@.len() - k,
            {
                proof {
                    assert(row@.take(k + 1).drop_last() =~= row@.take(k as int));
                }
                if !row[k].is_continuation() {
                    line.push(row[k].ch);
                }
                k = k + 1;
            }
            proof {
                assert(row@.take(k as int) =~= row@);
            }
            let trimmed = trimmed_end(line.as_slice());
            let ghost before = lines.deep_view();
            let ghost t = trimmed@;
            lines.push(trimmed);
            proof {
                assert(lines[lines.len() - 1].deep_view() =~= t);
                assert(lines.deep_view() =~= before.push(t));
                assert(Seq::new((y + 1) as nat, |j: int| trim_end(row_text(buffer@.grid[j])))
                    =~= Seq::new(y as nat, |j: int| trim_end(row_text(buffer@.grid[j]))).push(t));
            }
            y = y + 1;
        }
        let joined = join_parts(&lines, &['\n']);
        proof {
            assert(seq!['\n'] =~= ['\n']@);
        }
        string_of(joined.as_slice())
    }

    fn param(params: &Vec<Vec<u16>>, index: usize) -> (p: u16)
        ensures
            p == param_at(params@.map_values(|v: Vec<u16>| v@), index as int),
    {
        if index < params.len() && params[index].len() > 0 {
            params[index][0]
        } else {
            0
        }
    }

    /// A count parameter, where zero means one and anything huge is clamped.
    fn count(params: &Vec<Vec<u16>>, index: usize) -> (c: u16)
        ensures
            c == count_at(params@.map_values(|v: Vec<u16>| v@), index as int),
            1 <= c <= MAX_REPEAT,
    {
        let p = Self::param(params, index);
        if p == 0 {
            1
        } else if p > MAX_REPEAT {
            MAX_REPEAT
        } else {
            p
        }
    }

    /// `CSI`, by its final byte, its parameters each a list of a value and
    /// its subparameters. An ignored sequence is dropped.
    pub fn csi_dispatch(&mut self, params: &Vec<Vec<u16>>, intermediates: &[u8], ignore: bool, action: char)
        requires
            old(self).wf(),
        ensures
            final(self).wf(),
            final(self)@ == old(self)@.after_csi(params@.map_values(|v: Vec<u16>| v@), intermediates@, ignore, action),
    {
        if ignore {
            return;
        }
        if self.csi_cursor(params, action) {
            return;
        }
        if self.csi_edit(params, action) {
            return;
        }
        self.csi_other(params, intermediates, action);
    }

    fn csi_cursor(&mut self, params: &Vec<Vec<u16>>, action: char) -> (handled: bool)
        requires
            old(self).wf(),
        ensures
            final(self).wf(),
            handled == old(self)@.csi_cursor(params@.map_values(|v: Vec<u16>| v@), action) is Some,
            handled ==> Some(final(self)@) == old(self)@.csi_cursor(params@.map_values(|v: Vec<u16>| v@), action),
            !handled ==> final(self)@ == old(self)@,
    {
        let count = Self::count(params, 0);
        let x = self.x;
        let y = self.y;
        if action == 'A' {
            self.move_to(x, if y >= count { y - count } else { 0 });
        } else if action == 'B' || action == 'e' {
            self.move_to(x, if y as u32 + count as u32 > u16::MAX as u32 { u16::MAX } else { y + count });
        } else if action == 'C' || action == 'a' {
            self.move_to(if x as u32 + count as u32 > u16::MAX as u32 { u16::MAX } else { x + count }, y);
        } else if action == 'D' {
            self.move_to(if x >= count { x - count } else { 0 }, y);
        } else if action == 'E' {
            self.move_to(0, if y as u32 + count as u32 > u16::MAX as u32 { u16::MAX } else { y + count });
        } else if action == 'F' {
            self.move_to(0, if y >= count { y - count } else { 0 });
        } else if action == 'G' || action == '`' {
            self.move_to(count - 1, y);
        } else if action == 'd' {
            self.move_to(x, count - 1);
        } else if action == 'H' || action == 'f' {
            let row = Self::count(params, 0) - 1;
            let column = Self::count(params, 1) - 1;
            self.move_to(column, row);
        } else {
            return false;
        }
        true
    }

    #[verifier::rlimit(90)]
    fn csi_edit(&mut self, params: &Vec<Vec<u16>>, action: char) -> (handled: bool)
        requires
            old(self).wf(),
        ensures
            final(self).wf(),
            handled == old(self)@.csi_edit(params@.map_values(|v: Vec<u16>| v@), action) is Some,
            handled ==> Some(final(self)@) == old(self)@.csi_edit(params@.map_values(|v: Vec<u16>| v@), action),
            !handled ==> final(self)@ == old(self)@,
    {
        let first = Self::param(params, 0);
        let count = Self::count(params, 0);
        let x = self.x;
        let y = self.y;
        if action == 'J' {
            self.erase_in_display(first);
        } else if action == 'K' {
            self.erase_in_line(first);
        } else if action == 'L' {
            self.move_lines(true, count);
        } else if action == 'M' {
            self.move_lines(false, count);
        } else if action == '@' {
            self.active_mut().insert_cells(x, y, count);
        } else if action == 'P' {
            self.active_mut().delete_cells(x, y, count);
        } else if action == 'X' {
            let to = if x as u32 + (count - 1) as u32 > u16::MAX as u32 { u16::MAX } else { x + (count - 1) };
            self.active_mut().fill(y, x, to, Cell::blank());
        } else if action == 'S' {
            self.scroll_up_region(count);
        } else if action == 'T' {
            let top = self.scroll_top;
            let bottom = self.scroll_bottom;
            self.active_mut().scroll_down(top, bottom, count);
        } else if action == 'b' {
            match self.last_printed {
                Some(ch) => self.repeat(ch, count),
                None => {},
            }
        } else {
            return false;
        }
        true
    }

    /// `IL` (`down`) and `DL`.
    fn move_lines(&mut self, down: bool, count: u16)
        requires
            old(self).wf(),
        ensures
            final(self).wf(),
            final(self)@ == old(self)@.lines_moved(down, count),
    {
        proof {
            reveal(ScreenView::lines_moved);
        }
        let y = self.y;
        let top = self.scroll_top;
        let bottom = self.scroll_bottom;
        if y >= top && y <= bottom {
            if down {
                self.active_mut().scroll_down(y, bottom, count);
            } else {
                let _gone = self.active_mut().scroll_up(y, bottom, count);
            }
        }
    }

    /// `SU`.
    fn scroll_up_region(&mut self, count: u16)
        requires
            old(self).wf(),
        ensures
            final(self).wf(),
            final(self)@ == old(self)@.scrolled_up(count),
    {
        proof {
            reveal(ScreenView::scrolled_up);
        }
        let top = self.scroll_top;
        let bottom = self.scroll_bottom;
        let evicted = self.active_mut().scroll_up(top, bottom, count);
        let full = top == 0 && bottom == self.active().rows() - 1;
        if !self.alt_active && full {
            self.push_lines(evicted);
        }
    }

    /// `REP`: the last printed character drawn `count` more times.
    fn repeat(&mut self, ch: char, count: u16)
        requires
            old(self).wf(),
        ensures
            final(self).wf(),
            final(self)@ == old(self)@.repeated(ch, count as nat),
    {
        proof {
            reveal(ScreenView::repeated);
        }
        let mut i: u16 = 0;
        while i < count
            invariant
                self.wf(),
                i <= count,
                self@.repeated(ch, (count - i) as nat) == old(self)@.repeated(ch, count as nat),
            decreases count - i,
        {
            proof {
                reveal(ScreenView::repeated);
            }
            self.print_char(ch);
            i = i + 1;
        }
    }

    #[verifier::rlimit(90)]
    fn csi_other(&mut self, params: &Vec<Vec<u16>>, intermediates: &[u8], action: char)
        requires
            old(self).wf(),
        ensures
            final(self).wf(),
            final(self)@ == old(self)@.csi_other(params@.map_values(|v: Vec<u16>| v@), intermediates@, action),
    {
        let private = intermediates.len() > 0 && intermediates[0] == 0x3f;
        let space = intermediates.len() > 0 && intermediates[0] == 0x20;
        let first = Self::param(params, 0);
        if action == 'm' && intermediates.len() == 0 {
            self.pen.apply_sgr(params);
        } else if action == 'h' {
            self.set_mode(private, first, true);
        } else if action == 'l' {
            self.set_mode(private, first, false);
        } else if action == 'r' {
            self.set_region(params);
        } else if action == 's' {
            self.saved = Some((self.x, self.y, self.pen));
        } else if action == 'u' {
            self.restore_cursor();
        } else if action == 'q' && space {
            self.cursor_shape = if first == 3 || first == 4 {
                CursorShape::Underline
            } else if first == 5 || first == 6 {
                CursorShape::Bar
            } else {
                CursorShape::Block
            };
            self.cursor_moved = true;
        } else {
            let cursor = self.cursor();
            Self::answer(&mut self.replies, cursor, intermediates, first, action);
        }
        proof {
            assert(self@ =~= old(self)@.csi_other(params@.map_values(|v: Vec<u16>| v@), intermediates@, action));
        }
    }

    /// Appends the answer to a query.
    fn answer(replies: &mut Vec<u8>, cursor: CursorState, intermediates: &[u8], first: u16, action: char)
        requires
            cursor.y < u16::MAX,
            cursor.x < u16::MAX,
        ensures
            final(replies)@ == old(replies)@ + answer(cursor, intermediates@, first, action),
    {
        if action == 'c' {
            if intermediates.len() > 0 && intermediates[0] == 0x3e {
                replies.push(0x1b);
                replies.push(0x5b);
                replies.push(0x3e);
                replies.push(0x30);
                replies.push(0x3b);
                replies.push(0x31);
                replies.push(0x30);
                replies.push(0x3b);
                replies.push(0x31);
                replies.push(0x63);
            } else {
                replies.push(0x1b);
                replies.push(0x5b);
                replies.push(0x3f);
                replies.push(0x36);
                replies.push(0x32);
                replies.push(0x3b);
                replies.push(0x32);
                replies.push(0x32);
                replies.push(0x63);
            }
        } else if action == 'n' && first == 5 {
            replies.push(0x1b);
            replies.push(0x5b);
            replies.push(0x30);
            replies.push(0x6e);
        } else if action == 'n' && first == 6 {
            replies.push(0x1b);
            replies.push(0x5b);
            push_decimal(replies, cursor.y + 1);
            replies.push(0x3b);
            push_decimal(replies, cursor.x + 1);
            replies.push(0x52);
        }
        proof {
            assert(replies@ =~= old(replies)@ + answer(cursor, intermediates@, first, action));
        }
    }

    /// `DECSTBM`.
    #[verifier::rlimit(90)]
    fn set_region(&mut self, params: &Vec<Vec<u16>>)
        requires
            old(self).wf(),
        ensures
            final(self).wf(),
            final(self)@ == old(self)@.region_set(params@.map_values(|v: Vec<u16>| v@)),
    {
        proof {
            reveal(ScreenView::region_set);
        }
        let edge = self.active().rows() - 1;
        let asked = Self::count(params, 0) - 1;
        let top = if asked < edge { asked } else { edge };
        let v = Self::param(params, 1);
        let bottom = if v == 0 { edge } else if v < edge + 1 { v - 1 } else { edge };
        if top < bottom {
            self.scroll_top = top;
            self.scroll_bottom = bottom;
        } else {
            self.scroll_top = 0;
            self.scroll_bottom = edge;
        }
        let home = self.scroll_top;
        self.move_to(0, home);
    }

    /// `DECRC`: the saved cursor and pen back.
    fn restore_cursor(&mut self)
        requires
            old(self).wf(),
        ensures
            final(self).wf(),
            final(self)@ == old(self)@.restored(),
    {
        proof {
            reveal(ScreenView::restored);
        }
        match self.saved {
            Some((x, y, pen)) => {
                self.pen = pen;
                self.move_to(x, y);
            },
            None => {},
        }
    }

    /// A C0 control byte.
    pub fn execute(&mut self, byte: u8)
        requires
            old(self).wf(),
        ensures
            final(self).wf(),
            final(self)@ == old(self)@.executed(byte),
    {
        if byte == 0x07 {
            self.bell = true;
        } else if byte == 0x08 {
            self.x = if self.x >= 1 { self.x - 1 } else { 0 };
            self.pending_wrap = false;
            self.cursor_moved = true;
        } else if byte == 0x09 {
            self.tab();
        } else if byte == 0x0a || byte == 0x0b || byte == 0x0c {
            self.line_feed();
        } else if byte == 0x0d {
            self.carriage_return();
        }
    }

    /// An ESC sequence by its final byte.
    pub fn esc_dispatch(&mut self, intermediates: &[u8], ignore: bool, byte: u8)
        requires
            old(self).wf(),
        ensures
            final(self).wf(),
            final(self)@ == old(self)@.after_esc(intermediates@, ignore, byte),
    {
        if ignore || intermediates.len() > 0 {
            return;
        }
        if byte == 0x37 {
            self.saved = Some((self.x, self.y, self.pen));
        } else if byte == 0x38 {
            self.restore_cursor();
        } else if byte == 0x44 {
            self.line_feed();
        } else if byte == 0x45 {
            self.carriage_return();
            self.line_feed();
        } else if byte == 0x4d {
            self.reverse_index();
        } else if byte == 0x63 {
            self.reset();
        }
    }

    fn line_feed(&mut self)
        requires
            old(self).wf(),
        ensures
            final(self).wf(),
            final(self)@ == old(self)@.fed(),
    {
        self.pending_wrap = false;
        self.cursor_moved = true;
        if self.y == self.scroll_bottom {
            let top = self.scroll_top;
            let bottom = self.scroll_bottom;
            let full = top == 0 && bottom == self.active().rows() - 1;
            let evicted = self.active_mut().scroll_up(top, bottom, 1);
            if !self.alt_active && full {
                self.push_lines(evicted);
            }
            return;
        }
        if self.y + 1 < self.active().rows() {
            self.y = self.y + 1;
        }
    }

    fn reverse_index(&mut self)
        requires
            old(self).wf(),
        ensures
            final(self).wf(),
            final(self)@ == old(self)@.reversed(),
    {
        self.pending_wrap = false;
        self.cursor_moved = true;
        if self.y == self.scroll_top {
            let top = self.scroll_top;
            let bottom = self.scroll_bottom;
            self.active_mut().scroll_down(top, bottom, 1);
            return;
        }
        self.y = if self.y >= 1 { self.y - 1 } else { 0 };
    }

    fn tab(&mut self)
        requires
            old(self).wf(),
        ensures
            final(self).wf(),
            final(self)@ == old(self)@.tabbed(),
    {
        let cols = self.active().cols();
        let stop: u32 = (self.x as u32 / TAB_WIDTH as u32 + 1) * TAB_WIDTH as u32;
        let stop: u16 = if stop > u16::MAX as u32 { u16::MAX } else { stop as u16 };
        self.x = if stop < cols - 1 { stop } else { cols - 1 };
        self.pending_wrap = false;
        self.cursor_moved = true;
    }
}

} // verus!
