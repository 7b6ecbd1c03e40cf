//! Screen rows turned into frames: runs of one style, a style table per
//! frame, and either every row or only the rows that changed.
use vstd::prelude::*;
use crate::terminal::buffer::{Buffer, BufferView};
use crate::terminal::cell::Cell;
use crate::terminal::screen::{Screen, ScreenView};
use crate::terminal::style::{CursorState, Style};
use crate::terminal::styles::{interned, StyleTable};
use crate::text::string_of;

verus! {

/// A run of characters drawn in one style, the style named by its index in
/// the frame's table.
#[derive(Debug, Clone, PartialEq, Eq)]
pub struct Span {
    pub style: u16,
    pub text: String,
}

/// A span as values.
pub type SpanView = (u16, Seq<char>);

impl View for Span {
    type V = SpanView;

    open spec fn view(&self) -> SpanView {
        (self.style, self.text@)
    }
}

/// The spans of one row, starting at column `from_x`.
#[derive(Debug, Clone, PartialEq, Eq)]
pub struct RowUpdate {
    pub y: u16,
    pub from_x: u16,
    pub spans: Vec<Span>,
}

/// A row update as values.
pub type RowView = (u16, u16, Seq<SpanView>);

impl View for RowUpdate {
    type V = RowView;

    open spec fn view(&self) -> RowView {
        (self.y, self.from_x, self.spans@.map_values(|s: Span| s@))
    }
}

/// What a pane owes a client.
#[derive(Debug, Clone, PartialEq, Eq)]
pub enum TerminalFrame {
    /// The whole grid. A row absent from it is blank for its full width.
    Snapshot {
        cols: u16,
        rows: u16,
        styles: Vec<Style>,
        rows_data: Vec<RowUpdate>,
        cursor: Option<CursorState>,
        alt_screen: bool,
        scrollback_len: Option<u32>,
    },
    /// The rows that changed, and the cursor when it moved.
    Damage { styles: Vec<Style>, rows_data: Vec<RowUpdate>, cursor: Option<CursorState> },
    Bell,
}

/// A frame as values.
pub enum FrameView {
    Snapshot {
        cols: u16,
        rows: u16,
        styles: Seq<Style>,
        rows_data: Seq<RowView>,
        cursor: Option<CursorState>,
        alt_screen: bool,
        scrollback_len: Option<u32>,
    },
    Damage { styles: Seq<Style>, rows_data: Seq<RowView>, cursor: Option<CursorState> },
    Bell,
}

impl View for TerminalFrame {
    type V = FrameView;

    open spec fn view(&self) -> FrameView {
        match self {
            TerminalFrame::Snapshot { cols, rows, styles, rows_data, cursor, alt_screen, scrollback_len } => FrameView::Snapshot {
                cols: *cols,
                rows: *rows,
                styles: styles@,
                rows_data: rows_data@.map_values(|r: RowUpdate| r@),
                cursor: *cursor,
                alt_screen: *alt_screen,
                scrollback_len: *scrollback_len,
            },
            TerminalFrame::Damage { styles, rows_data, cursor } => FrameView::Damage {
                styles: styles@,
                rows_data: rows_data@.map_values(|r: RowUpdate| r@),
                cursor: *cursor,
            },
            TerminalFrame::Bell => FrameView::Bell,
        }
    }
}

/// The last span's last character rewritten as a space, keeping its style.
pub open spec fn blanked_last(spans: Seq<SpanView>) -> Seq<SpanView> {
    if spans.len() == 0 {
        spans
    } else {
        let text = spans.last().1;
        let kept = if text.len() > 0 { text.drop_last() } else { text };
        spans.update(spans.len() - 1, (spans.last().0, kept.push(' ')))
    }
}

/// `ch` added to the last span when it has style `index`, else a new span.
pub open spec fn appended(spans: Seq<SpanView>, index: u16, ch: char) -> Seq<SpanView> {
    if spans.len() > 0 && spans.last().0 == index {
        spans.update(spans.len() - 1, (index, spans.last().1.push(ch)))
    } else {
        spans.push((index, seq![ch]))
    }
}

/// The spans of `cells`, how many continuation columns the last glyph is
/// still owed, and the style table after them.
///
/// A continuation column contributes no character, because the glyph before
/// it already occupies two; an orphan continuation, whose lead is not in the
/// run, contributes a space. An orphan lead, a wide glyph whose continuation
/// is missing, is emitted as a space rather than as its glyph.
pub open spec fn span_fold(cells: Seq<Cell>, table: Seq<Style>) -> (Seq<SpanView>, int, Seq<Style>)
    decreases cells.len(),
{
    if cells.len() == 0 {
        (Seq::empty(), 0, table)
    } else {
        let before = span_fold(cells.drop_last(), table);
        let spans = before.0;
        let owed = before.1;
        let t = before.2;
        let cell = cells.last();
        if cell.width == 0 && owed > 0 {
            (spans, owed - 1, t)
        } else {
            let s1 = if cell.width != 0 && owed > 0 { blanked_last(spans) } else { spans };
            let o1 = if cell.width == 0 { owed } else { cell.width - 1 };
            let ch = if cell.width == 0 { ' ' } else { cell.ch };
            let named = interned(t, cell.style);
            (appended(s1, named.1, ch), o1, named.0)
        }
    }
}

/// How many cells of `row` remain once its trailing blanks are dropped.
pub open spec fn kept_len(row: Seq<Cell>) -> int
    decreases row.len(),
{
    if row.len() > 0 && row.last().spec_is_blank() {
        kept_len(row.drop_last())
    } else {
        row.len() as int
    }
}

/// The row updates of a snapshot of rows `0..k`, and the style table after
/// them. A row that is blank to its end is left out.
pub open spec fn snapshot_rows(b: BufferView, k: int, table: Seq<Style>) -> (Seq<RowView>, Seq<Style>)
    decreases k,
{
    if k <= 0 {
        (Seq::empty(), table)
    } else {
        let before = snapshot_rows(b, k - 1, table);
        let row = b.grid[k - 1];
        let end = kept_len(row);
        if end == 0 {
            before
        } else {
            let folded = span_fold(row.take(end), before.1);
            if folded.0.len() == 0 {
                (before.0, folded.2)
            } else {
                (before.0.push(((k - 1) as u16, 0u16, folded.0)), folded.2)
            }
        }
    }
}

/// The snapshot of a screen.
pub open spec fn snapshot_of(s: ScreenView) -> FrameView {
    let b = s.active();
    let rows = snapshot_rows(b, b.rows as int, Seq::empty());
    FrameView::Snapshot {
        cols: b.cols,
        rows: b.rows,
        styles: rows.1,
        rows_data: rows.0,
        cursor: Some(s.cursor_state()),
        alt_screen: s.alt_active,
        scrollback_len: if s.alt_active { None } else { Some(s.scrollback.len() as u32) },
    }
}

/// Where a damaged run of `row` starts: `from_x` clamped to the row, moved
/// left off any continuation column.
pub open spec fn run_start(row: Seq<Cell>, from_x: int) -> int
    decreases from_x,
{
    let last = row.len() - 1;
    let from = if from_x < last { from_x } else { last };
    if from > 0 && row[from].width == 0 { run_start(row, from - 1) } else { from }
}

/// The row updates for the damage list `dirt`, first first, and the style
/// table after them.
pub open spec fn damage_rows(b: BufferView, dirt: Seq<(u16, u16, u16)>, table: Seq<Style>) -> (Seq<RowView>, Seq<Style>)
    decreases dirt.len(),
{
    if dirt.len() == 0 {
        (Seq::empty(), table)
    } else {
        let before = damage_rows(b, dirt.drop_last(), table);
        let (y, from_x, to_x) = dirt.last();
        let row = b.grid[y as int];
        let last = row.len() - 1;
        let from = run_start(row, from_x as int);
        let to = if to_x < last { to_x as int } else { last };
        if from > to {
            before
        } else {
            let folded = span_fold(row.subrange(from, to + 1), before.1);
            if folded.0.len() == 0 {
                (before.0, folded.2)
            } else {
                (before.0.push((y, from as u16, folded.0)), folded.2)
            }
        }
    }
}

/// Turns screen rows into frames.
pub struct FrameBuilder;

impl FrameBuilder {
    /// Consecutive cells of one style become one span.
    ///
    /// The applier re-derives each column from the character's display
    /// width, so this has to emit exactly as many columns as the emulator
    /// holds.
    pub fn spans(cells: &[Cell], styles: &mut StyleTable) -> (spans: Vec<Span>)
        requires
            old(styles).wf(),
        ensures
            final(styles).wf(),
            spans@.map_values(|s: Span| s@) == span_fold(cells@, old(styles)@).0,
            final(styles)@ == span_fold(cells@, old(styles)@).2,
    {
        let mut built: Vec<(u16, Vec<char>)> = Vec::new();
        let mut owed: usize = 0;
        let mut i: usize = 0;
        while i < cells.len()
            invariant
                styles.wf(),
                i <= cells@.len(),
                owed < 256,
                ({
                    let f = span_fold(cells@.take(i as int), old(styles)@);
                    &&& built@.map_values(|p: (u16, Vec<char>)| (p.0, p.1@)) == f.0
                    &&& owed == f.1
                    &&& styles@ == f.2
                }),
            decreases cells@.len() - i,
        {
            proof {
                assert(cells@.take(i + 1).drop_last() =~= cells@.take(i as int));
            }
            let cell = cells[i];
            if cell.is_continuation() && owed > 0 {
                owed = owed - 1;
            } else {
                if !cell.is_continuation() && owed > 0 {
                    Self::blank_last(&mut built);
                }
                let ch = if cell.is_continuation() { ' ' } else { cell.ch };
                if !cell.is_continuation() {
                    owed = cell.width as usize - 1;
                }
                let index = styles.intern(cell.style);
                let n = built.len();
                if n > 0 && built[n - 1].0 == index {
                    let ghost before = built@.map_values(|p: (u16, Vec<char>)| (p.0, p.1@));
                    let (style, mut text) = built.pop().unwrap();
                    text.push(ch);
                    built.push((style, text));
                    proof {
                        assert(built@.map_values(|p: (u16, Vec<char>)| (p.0, p.1@)) =~= appended(before, index, ch));
                    }
                } else {
                    let ghost before = built@.map_values(|p: (u16, Vec<char>)| (p.0, p.1@));
                    let mut text: Vec<char> = Vec::new();
                    text.push(ch);
                    built.push((index, text));
                    proof {
                        assert(built@.map_values(|p: (u16, Vec<char>)| (p.0, p.1@)) =~= appended(before, index, ch));
                    }
                }
            }
            i = i + 1;
        }
        proof {
            assert(cells@.take(i as int) =~= cells@);
        }
        let mut spans: Vec<Span> = Vec::new();
        let mut k: usize = 0;
        while k < built.len()
            invariant
                k <= built@.len(),
                spans@.map_values(|s: Span| s@) == built@.map_values(|p: (u16, Vec<char>)| (p.0, p.1@)).take(k as int),
            decreases built@.len() - k,
        {
            let text = string_of(built[k].1.as_slice());
            let ghost before = spans@;
            let span = Span { style: built[k].0, text };
            proof {
                assert(span@ == built@.map_values(|p: (u16, Vec<char>)| (p.0, p.1@))[k as int]);
            }
            spans.push(span);
            proof {
                assert(spans@.map_values(|s: Span| s@) =~= before.map_values(|s: Span| s@).push(span@));
                assert(built@.map_values(|p: (u16, Vec<char>)| (p.0, p.1@)).take(k + 1)
                    =~= built@.map_values(|p: (u16, Vec<char>)| (p.0, p.1@)).take(k as int).push(span@));
            }
            k = k + 1;
        }
        proof {
            assert(built@.map_values(|p: (u16, Vec<char>)| (p.0, p.1@)).take(k as int)
                =~= built@.map_values(|p: (u16, Vec<char>)| (p.0, p.1@)));
        }
        spans
    }

    /// Every row of the screen, trailing blanks dropped and blank rows left
    /// out, with the cursor, the screen in use and the history's length.
    pub fn snapshot(screen: &Screen) -> (frame: TerminalFrame)
        requires
            screen.wf(),
        ensures
            frame@ == snapshot_of(screen@),
    {
        let buffer = screen.active();
        let rows = buffer.rows();
        let mut styles = StyleTable::new();
        let mut rows_data: Vec<RowUpdate> = Vec::new();
        let mut y: u16 = 0;
        while y < rows
            invariant
                buffer.wf(),
                buffer@ == screen@.active(),
                rows == buffer@.rows,
                y <= rows,
                styles.wf(),
                ({
                    let done = snapshot_rows(buffer@, y as int, Seq::empty());
                    &&& rows_data@.map_values(|r: RowUpdate| r@) == done.0
                    &&& styles@ == done.1
                }),
            decreases rows - y,
        {
            let cells = buffer.row(y);
            let mut end: usize = cells.len();
            proof {
                assert(cells@.take(cells@.len() as int) =~= cells@);
            }
            while end > 0 && cells[end - 1].is_blank()
                invariant
                    end <= cells@.len(),
                    kept_len(cells@.take(end as int)) == kept_len(cells@),
                decreases end,
            {
                proof {
                    assert(cells@.take(end as int).drop_last() =~= cells@.take(end - 1));
                }
                end = end - 1;
            }
            proof {
                assert(kept_len(cells@.take(end as int)) == end);
            }
            if end > 0 {
                let part = &cells[0..end];
                let ghost before = rows_data@.map_values(|r: RowUpdate| r@);
                let spans = Self::spans(part, &mut styles);
                if spans.len() > 0 {
                    let update = RowUpdate { y, from_x: 0, spans };
                    rows_data.push(update);
                    proof {
                        assert(rows_data@.map_values(|r: RowUpdate| r@) =~= before.push(update@));
                    }
                }
            }
            y = y + 1;
        }
        let cursor = screen.cursor();
        let alt_screen = screen.alt_screen();
        let scrollback_len = screen.scrollback_len();
        let cols = buffer.cols();
        TerminalFrame::Snapshot {
            cols,
            rows,
            styles: styles.into_vec(),
            rows_data,
            cursor: Some(cursor),
            alt_screen,
            scrollback_len,
        }
    }

    /// The rows that changed since the last drain, and the cursor when it
    /// moved, draining both; `None` when nothing changed.
    pub fn damage(screen: &mut Screen) -> (frame: Option<TerminalFrame>)
        requires
            old(screen).wf(),
        ensures
            final(screen).wf(),
            ({
                let s = old(screen)@;
                let drained = ScreenView { cursor_moved: false, ..s }.with_active(s.active().drained());
                let dirt = crate::terminal::buffer::dirt(s.active().dirty, s.active().rows as int);
                let made = damage_rows(s.active(), dirt, Seq::empty());
                &&& final(screen)@ == drained
                &&& frame.is_none() <==> (made.0.len() == 0 && !s.cursor_moved)
                &&& frame matches Some(f) ==> f@ == (FrameView::Damage {
                    styles: made.1,
                    rows_data: made.0,
                    cursor: if s.cursor_moved { Some(drained.cursor_state()) } else { None },
                })
            }),
    {
        let cursor_moved = screen.take_cursor_moved();
        let dirty = screen.active_mut().take_dirty();
        if dirty.len() == 0 && !cursor_moved {
            proof {
                assert(damage_rows(old(screen)@.active(), dirty@, Seq::empty()).0 =~= Seq::<RowView>::empty());
            }
            return None;
        }
        let mut styles = StyleTable::new();
        let mut rows_data: Vec<RowUpdate> = Vec::new();
        let ghost b = old(screen)@.active();
        let mut i: usize = 0;
        while i < dirty.len()
            invariant
                screen.wf(),
                screen@.active().grid == b.grid,
                screen@.active().rows == b.rows,
                screen@.active().cols == b.cols,
                b.wf(),
                dirty@ == crate::terminal::buffer::dirt(b.dirty, b.rows as int),
                i <= dirty@.len(),
                styles.wf(),
                ({
                    let done = damage_rows(b, dirty@.take(i as int), Seq::empty());
                    &&& rows_data@.map_values(|r: RowUpdate| r@) == done.0
                    &&& styles@ == done.1
                }),
            decreases dirty@.len() - i,
        {
            proof {
                assert(dirty@.take(i + 1).drop_last() =~= dirty@.take(i as int));
                crate::terminal::buffer::lemma_dirt_rows(b.dirty, b.rows as int);
            }
            let (y, from_x, to_x) = dirty[i];
            let cells = screen.active().row(y);
            let last = cells.len() - 1;
            let mut from: usize = if (from_x as usize) < last { from_x as usize } else { last };
            while from > 0 && cells[from].is_continuation()
                invariant
                    from <= last,
                    last == cells@.len() - 1,
                    run_start(cells@, from as int) == run_start(cells@, from_x as int),
                decreases from,
            {
                from = from - 1;
            }
            let to: usize = if (to_x as usize) < last { to_x as usize } else { last };
            if from <= to {
                let part = &cells[from..to + 1];
                let ghost before = rows_data@.map_values(|r: RowUpdate| r@);
                let spans = Self::spans(part, &mut styles);
                if spans.len() > 0 {
                    let update = RowUpdate { y, from_x: from as u16, spans };
                    rows_data.push(update);
                    proof {
                        assert(rows_data@.map_values(|r: RowUpdate| r@) =~= before.push(update@));
                    }
                }
            }
            i = i + 1;
        }
        proof {
            assert(dirty@.take(i as int) =~= dirty@);
        }
        if rows_data.len() == 0 && !cursor_moved {
            return None;
        }
        let cursor = if cursor_moved { Some(screen.cursor()) } else { None };
        Some(TerminalFrame::Damage { styles: styles.into_vec(), rows_data, cursor })
    }

    /// Rewrites the character just emitted as a space, keeping its style.
    ///
    /// A space carrying the glyph's own style is exactly what the applier
    /// writes into a continuation column, so this leaves the two in agreement.
    fn blank_last(spans: &mut Vec<(u16, Vec<char>)>)
        ensures
            final(spans)@.map_values(|p: (u16, Vec<char>)| (p.0, p.1@))
                == blanked_last(old(spans)@.map_values(|p: (u16, Vec<char>)| (p.0, p.1@))),
    {
        let ghost before = spans@.map_values(|p: (u16, Vec<char>)| (p.0, p.1@));
        match spans.pop() {
            Some((style, mut text)) => {
                text.pop();
                text.push(' ');
                spans.push((style, text));
                proof {
                    assert(spans@.map_values(|p: (u16, Vec<char>)| (p.0, p.1@)) =~= blanked_last(before));
                }
            },
            None => {},
        }
    }
}

} // verus!
