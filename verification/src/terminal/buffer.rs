//! One screen's cells, and the columns that changed since the last drain.
use vstd::prelude::*;
use crate::terminal::cell::{blank_cell, continuation_of, Cell};
use crate::terminal::style::Style;

verus! {

/// A row's damage: the inclusive lowest and highest changed column.
pub type Span = Option<(u16, u16)>;

/// A buffer as values: its size, its rows of cells top first, and each row's
/// damage.
#[verifier::ext_equal]
pub struct BufferView {
    pub cols: u16,
    pub rows: u16,
    pub grid: Seq<Seq<Cell>>,
    pub dirty: Seq<Span>,
}

/// Damage that names columns of a row `cols` wide, low end first.
pub open spec fn span_ok(span: Span, cols: u16) -> bool {
    match span {
        None => true,
        Some((low, high)) => low <= high < cols,
    }
}

/// Whether `span` reaches column `x`.
pub open spec fn covers(span: Span, x: int) -> bool {
    match span {
        None => false,
        Some((low, high)) => low <= x <= high,
    }
}

pub open spec fn min16(a: u16, b: u16) -> u16 {
    if a <= b {
        a
    } else {
        b
    }
}

pub open spec fn max16(a: u16, b: u16) -> u16 {
    if a >= b {
        a
    } else {
        b
    }
}

/// `span` widened to reach `from..=to` as well.
pub open spec fn spread(span: Span, from: u16, to: u16) -> Span {
    match span {
        None => Some((from, to)),
        Some((low, high)) => Some((min16(low, from), max16(high, to))),
    }
}

/// A row of `cols` blank cells.
pub open spec fn blank_row(cols: int) -> Seq<Cell> {
    Seq::new(cols as nat, |x: int| blank_cell())
}

/// `row` with `from..=to` set to `cell`.
pub open spec fn filled(row: Seq<Cell>, from: int, to: int, cell: Cell) -> Seq<Cell> {
    Seq::new(row.len(), |x: int| if from <= x <= to { cell } else { row[x] })
}

/// Whether the cell at `x` is half of a double-width pair whose other half is
/// missing: a continuation with no wide glyph before it, or a wide glyph whose
/// later columns are not all continuations on the row.
pub open spec fn orphaned(row: Seq<Cell>, x: int) -> bool {
    if row[x].width == 0 {
        !(x > 0 && row[x - 1].width > 1)
    } else {
        !intact(row, x, row[x].width as int)
    }
}

/// Each column `x + 1 .. x + width` of `row` exists and is a continuation.
pub open spec fn intact(row: Seq<Cell>, x: int, width: int) -> bool {
    forall|t: int| #![trigger row[x + t]] 1 <= t < width ==> x + t < row.len() && row[x + t].width == 0
}

/// The first `k` columns of `row` repaired left to right, each orphaned half
/// blanked and marked in `span`.
pub open spec fn repaired(row: Seq<Cell>, span: Span, k: int) -> (Seq<Cell>, Span)
    decreases k,
{
    if k <= 0 {
        (row, span)
    } else {
        let (r, s) = repaired(row, span, k - 1);
        if orphaned(r, k - 1) {
            (r.update(k - 1, blank_cell()), spread(s, (k - 1) as u16, (k - 1) as u16))
        } else {
            (r, s)
        }
    }
}

pub proof fn lemma_repaired_len(row: Seq<Cell>, span: Span, k: int)
    requires
        k <= row.len(),
    ensures
        repaired(row, span, k).0.len() == row.len(),
    decreases k,
{
    if k > 0 {
        lemma_repaired_len(row, span, k - 1);
        let (r, s) = repaired(row, span, k - 1);
        assert(r.len() == row.len());
    }
}

/// The furthest column any glyph starting in `from..to` reaches: the largest
/// `c + width` over those cells, or `from` when there is none.
pub open spec fn reach(row: Seq<Cell>, from: int, to: int) -> int
    decreases to - from,
{
    if to <= from {
        from
    } else {
        let before = reach(row, from, to - 1);
        let end = (to - 1) + row[to - 1].width;
        if end > before {
            end
        } else {
            before
        }
    }
}

/// `row` with the lead of a continuation at `x` blanked.
pub open spec fn lead_cleared(row: Seq<Cell>, x: int) -> Seq<Cell> {
    if x > 0 && row[x].width == 0 {
        row.update(x - 1, blank_cell())
    } else {
        row
    }
}

/// `row` after making room for a glyph `width` columns wide at `x`: the lead
/// of a continuation at `x` is blanked, and so is every column past the new
/// glyph that a glyph starting under it still covers.
pub open spec fn overlap_cleared(row: Seq<Cell>, x: int, width: int) -> Seq<Cell> {
    let first = lead_cleared(row, x);
    let far = reach(first, x, min_int(x + width, row.len() as int));
    Seq::new(row.len(), |j: int| if x + width <= j < far { blank_cell() } else { first[j] })
}

/// The damage `overlap_cleared` adds to `span`.
pub open spec fn overlap_marked(row: Seq<Cell>, span: Span, x: int, width: int) -> Span {
    let first = lead_cleared(row, x);
    let lead = if x > 0 && row[x].width == 0 { spread(span, (x - 1) as u16, (x - 1) as u16) } else { span };
    let stop = min_int(reach(first, x, min_int(x + width, row.len() as int)), row.len() as int);
    if x + width < stop {
        spread(lead, (x + width) as u16, (stop - 1) as u16)
    } else {
        lead
    }
}

pub open spec fn min_int(a: int, b: int) -> int {
    if a <= b {
        a
    } else {
        b
    }
}

pub proof fn lemma_reach_bounds(row: Seq<Cell>, from: int, to: int)
    ensures
        reach(row, from, to) >= from,
        forall|c: int| from <= c < to ==> reach(row, from, to) >= c + #[trigger] row[c].width,
    decreases to - from,
{
    if to > from {
        lemma_reach_bounds(row, from, to - 1);
    }
}

/// Rows `top..=bottom` moved up by `count`, the freed rows at the bottom blank.
pub open spec fn scrolled_up(grid: Seq<Seq<Cell>>, cols: int, top: int, bottom: int, count: int) -> Seq<Seq<Cell>> {
    Seq::new(
        grid.len(),
        |y: int|
            if top <= y <= bottom - count {
                grid[y + count]
            } else if bottom - count < y <= bottom {
                blank_row(cols)
            } else {
                grid[y]
            },
    )
}

/// Rows `top..=bottom` moved down by `count`, the freed rows at the top blank.
pub open spec fn scrolled_down(grid: Seq<Seq<Cell>>, cols: int, top: int, bottom: int, count: int) -> Seq<Seq<Cell>> {
    Seq::new(
        grid.len(),
        |y: int|
            if top <= y < top + count {
                blank_row(cols)
            } else if top + count <= y <= bottom {
                grid[y - count]
            } else {
                grid[y]
            },
    )
}

/// Each row of `top..=bottom` marked whole.
pub open spec fn marked_rows(dirty: Seq<Span>, cols: int, top: int, bottom: int) -> Seq<Span> {
    Seq::new(
        dirty.len(),
        |y: int| if top <= y <= bottom { spread(dirty[y], 0, (cols - 1) as u16) } else { dirty[y] },
    )
}

/// `row` with `count` blanks inserted at `x`, what passes the right edge lost.
pub open spec fn inserted(row: Seq<Cell>, x: int, count: int) -> Seq<Cell> {
    (row.take(x) + Seq::new(count as nat, |i: int| blank_cell()) + row.subrange(x, row.len() - count))
}

/// `row` with `count` cells at `x` removed, blanks coming in at the right.
pub open spec fn deleted(row: Seq<Cell>, x: int, count: int) -> Seq<Cell> {
    (row.take(x) + row.subrange(x + count, row.len() as int) + Seq::new(count as nat, |i: int| blank_cell()))
}

/// `grid` cut or grown to `cols` by `rows`, what stays keeping its place.
pub open spec fn resized(grid: Seq<Seq<Cell>>, old_cols: int, cols: int, rows: int) -> Seq<Seq<Cell>> {
    Seq::new(
        rows as nat,
        |y: int|
            Seq::new(
                cols as nat,
                |x: int| if y < grid.len() && x < old_cols { grid[y][x] } else { blank_cell() },
            ),
    )
}

/// `b` with columns `x + k .. x + width` of row `y` set to continuations of
/// `style`, left to right.
pub open spec fn with_continuations(b: BufferView, x: u16, y: u16, k: int, width: int, style: Style) -> BufferView
    decreases width - k,
{
    if k >= width || x + k >= b.cols {
        b
    } else {
        with_continuations(b.set_cell((x + k) as u16, y, continuation_of(style)), x, y, k + 1, width, style)
    }
}

/// `b` with a glyph drawn at `(x, y)`: the row shifted right first when
/// inserting, room made for the glyph, the cell written and the columns it
/// covers after the first set to continuations.
pub open spec fn glyph(b: BufferView, insert: bool, x: u16, y: u16, cell: Cell, width: u16) -> BufferView {
    let b1 = if insert { b.inserted_view(x, y, width) } else { b };
    with_continuations(b1.overlap_view(x, y, width).set_cell(x, y, cell), x, y, 1, width as int, cell.style)
}

impl BufferView {
    pub open spec fn wf(self) -> bool {
        &&& self.cols >= 1
        &&& self.rows >= 1
        &&& self.grid.len() == self.rows
        &&& self.dirty.len() == self.rows
        &&& forall|y: int| 0 <= y < self.rows ==> #[trigger] self.grid[y].len() == self.cols
        &&& forall|y: int| 0 <= y < self.rows ==> span_ok(#[trigger] self.dirty[y], self.cols)
    }

    /// The cell at column `x` of row `y`, or a blank one off the grid.
    pub open spec fn at(self, x: int, y: int) -> Cell {
        if 0 <= x < self.cols && 0 <= y < self.rows {
            self.grid[y][x]
        } else {
            blank_cell()
        }
    }

    /// Row `y` replaced by `row`, its damage by `span`.
    pub open spec fn with_row(self, y: int, row: Seq<Cell>, span: Span) -> BufferView {
        BufferView { grid: self.grid.update(y, row), dirty: self.dirty.update(y, span), ..self }
    }

    /// One cell written and marked; nothing off the grid.
    pub open spec fn set_cell(self, x: u16, y: u16, cell: Cell) -> BufferView {
        if x < self.cols && y < self.rows {
            self.with_row(y as int, self.grid[y as int].update(x as int, cell), spread(self.dirty[y as int], x, x))
        } else {
            self
        }
    }

    /// `from..=to` of row `y` set to `cell`, the end clamped to the last
    /// column, marked, and the row repaired; nothing when the run starts off
    /// the grid or ends before it starts.
    pub open spec fn filled_row(self, y: u16, from: u16, to: u16, cell: Cell) -> BufferView {
        if y >= self.rows || from >= self.cols || from > to {
            self
        } else {
            let end = min16(to, (self.cols - 1) as u16);
            let row = filled(self.grid[y as int], from as int, end as int, cell);
            let span = spread(self.dirty[y as int], from, end);
            let fixed = repaired(row, span, self.cols as int);
            self.with_row(y as int, fixed.0, fixed.1)
        }
    }

    /// Row `y` blanked.
    pub open spec fn cleared_row(self, y: u16) -> BufferView {
        self.filled_row(y, 0, (self.cols - 1) as u16, blank_cell())
    }

    /// Room made for a glyph `width` columns wide at `(x, y)`.
    pub open spec fn overlap_view(self, x: u16, y: u16, width: u16) -> BufferView {
        if x >= self.cols || y >= self.rows {
            self
        } else {
            self.with_row(
                y as int,
                overlap_cleared(self.grid[y as int], x as int, width as int),
                overlap_marked(self.grid[y as int], self.dirty[y as int], x as int, width as int),
            )
        }
    }

    /// `count` blanks inserted at `(x, y)`.
    pub open spec fn inserted_view(self, x: u16, y: u16, count: u16) -> BufferView {
        if y >= self.rows || x >= self.cols || count == 0 {
            self
        } else {
            let n = min_int(count as int, self.cols - x);
            let row = inserted(self.grid[y as int], x as int, n);
            let span = spread(self.dirty[y as int], x, (self.cols - 1) as u16);
            let fixed = repaired(row, span, self.cols as int);
            self.with_row(y as int, fixed.0, fixed.1)
        }
    }

    /// `count` cells deleted at `(x, y)`.
    pub open spec fn deleted_view(self, x: u16, y: u16, count: u16) -> BufferView {
        if y >= self.rows || x >= self.cols || count == 0 {
            self
        } else {
            let n = min_int(count as int, self.cols - x);
            let row = deleted(self.grid[y as int], x as int, n);
            let span = spread(self.dirty[y as int], x, (self.cols - 1) as u16);
            let fixed = repaired(row, span, self.cols as int);
            self.with_row(y as int, fixed.0, fixed.1)
        }
    }

    /// Every row repaired.
    pub open spec fn repaired_all(self) -> BufferView {
        BufferView {
            grid: Seq::new(self.rows as nat, |y: int| repaired(self.grid[y], self.dirty[y], self.cols as int).0),
            dirty: Seq::new(self.rows as nat, |y: int| repaired(self.grid[y], self.dirty[y], self.cols as int).1),
            ..self
        }
    }

    /// Whether a scroll of `top..=bottom` by `count` does anything.
    pub open spec fn scrolls(self, top: u16, bottom: u16, count: u16) -> bool {
        !(top > bottom || bottom >= self.rows || count == 0)
    }

    /// `top..=bottom` moved up by `count`, clamped to the region.
    pub open spec fn scrolled_up_view(self, top: u16, bottom: u16, count: u16) -> BufferView {
        if !self.scrolls(top, bottom, count) {
            self
        } else {
            let n = min_int(count as int, bottom - top + 1);
            BufferView {
                grid: scrolled_up(self.grid, self.cols as int, top as int, bottom as int, n),
                dirty: marked_rows(self.dirty, self.cols as int, top as int, bottom as int),
                ..self
            }
        }
    }

    /// The rows a scroll up of `top..=bottom` by `count` pushes out, top first.
    pub open spec fn evicted(self, top: u16, bottom: u16, count: u16) -> Seq<Seq<Cell>> {
        if !self.scrolls(top, bottom, count) {
            Seq::empty()
        } else {
            self.grid.subrange(top as int, top + min_int(count as int, bottom - top + 1))
        }
    }

    /// `top..=bottom` moved down by `count`, clamped to the region.
    pub open spec fn scrolled_down_view(self, top: u16, bottom: u16, count: u16) -> BufferView {
        if !self.scrolls(top, bottom, count) {
            self
        } else {
            let n = min_int(count as int, bottom - top + 1);
            BufferView {
                grid: scrolled_down(self.grid, self.cols as int, top as int, bottom as int, n),
                dirty: marked_rows(self.dirty, self.cols as int, top as int, bottom as int),
                ..self
            }
        }
    }

    /// Every row marked whole.
    pub open spec fn all_marked(self) -> BufferView {
        BufferView { dirty: marked_rows(self.dirty, self.cols as int, 0, self.rows - 1), ..self }
    }

    /// The grid cut or grown to `cols` by `rows`, each at least one, and all of
    /// it marked; nothing when the size is unchanged.
    pub open spec fn resized_view(self, cols: u16, rows: u16) -> BufferView {
        let c = if cols == 0 { 1u16 } else { cols };
        let r = if rows == 0 { 1u16 } else { rows };
        if c == self.cols && r == self.rows {
            self
        } else {
            BufferView {
                cols: c,
                rows: r,
                grid: resized(self.grid, self.cols as int, c as int, r as int),
                dirty: Seq::new(r as nat, |y: int| Some((0u16, (c - 1) as u16))),
            }
        }
    }

    /// The damage cleared.
    pub open spec fn drained(self) -> BufferView {
        BufferView { dirty: Seq::new(self.rows as nat, |y: int| None::<(u16, u16)>), ..self }
    }

    /// Every cell that differs from `before` lies in its row's damage.
    pub open spec fn damage_covers(self, before: BufferView) -> bool {
        forall|x: int, y: int|
            0 <= x < self.cols && 0 <= y < self.rows && #[trigger] self.grid[y][x] != before.grid[y][x]
                ==> covers(self.dirty[y], x)
    }

    /// Damage only grows: what was dirty stays dirty.
    pub open spec fn damage_kept(self, before: BufferView) -> bool {
        forall|x: int, y: int|
            0 <= y < self.rows && #[trigger] covers(before.dirty[y], x) ==> covers(self.dirty[y], x)
    }
}

/// `spread` keeps what `span` reached and reaches `from..=to` as well.
pub proof fn lemma_spread_covers(span: Span, from: u16, to: u16)
    ensures
        forall|x: int| #[trigger] covers(span, x) ==> covers(spread(span, from, to), x),
        forall|x: int| from <= x <= to ==> #[trigger] covers(spread(span, from, to), x),
{
}

/// Repairing a row blanks only cells it marks, and keeps what was marked.
pub proof fn lemma_repaired_damage(row: Seq<Cell>, span: Span, k: int)
    requires
        0 <= k <= row.len(),
        k <= 0xffff,
    ensures
        forall|x: int|
            0 <= x < row.len() && #[trigger] repaired(row, span, k).0[x] != row[x] ==> covers(
                repaired(row, span, k).1,
                x,
            ),
        forall|x: int| #[trigger] covers(span, x) ==> covers(repaired(row, span, k).1, x),
    decreases k,
{
    if k > 0 {
        lemma_repaired_damage(row, span, k - 1);
        lemma_repaired_len(row, span, k - 1);
        let (r, s) = repaired(row, span, k - 1);
        lemma_spread_covers(s, (k - 1) as u16, (k - 1) as u16);
        if orphaned(r, k - 1) {
            assert forall|x: int|
                0 <= x < row.len() && #[trigger] repaired(row, span, k).0[x] != row[x] implies covers(
                repaired(row, span, k).1,
                x,
            ) by {
                if x != k - 1 {
                    assert(repaired(row, span, k).0[x] == r[x]);
                }
            }
        }
    }
}

/// A row replaced keeps the damage law when every cell it changes lies in
/// its new span and its new span reaches what the old one did.
proof fn lemma_with_row_damage(b: BufferView, y: int, row: Seq<Cell>, span: Span)
    requires
        b.grid.len() == b.rows,
        b.dirty.len() == b.rows,
        0 <= y < b.rows,
        forall|x: int| 0 <= x < b.cols && #[trigger] row[x] != b.grid[y][x] ==> covers(span, x),
        forall|x: int| #[trigger] covers(b.dirty[y], x) ==> covers(span, x),
    ensures
        b.with_row(y, row, span).damage_covers(b),
        b.with_row(y, row, span).damage_kept(b),
{
    let a = b.with_row(y, row, span);
    assert forall|xx: int, yy: int|
        0 <= xx < a.cols && 0 <= yy < a.rows && #[trigger] a.grid[yy][xx] != b.grid[yy][xx] implies covers(
        a.dirty[yy],
        xx,
    ) by {
        if yy == y {
            assert(row[xx] != b.grid[y][xx]);
        }
    }
    assert forall|xx: int, yy: int| 0 <= yy < a.rows && #[trigger] covers(b.dirty[yy], xx) implies covers(
        a.dirty[yy],
        xx,
    ) by {
        if yy == y {
        }
    }
}

/// Damage accumulates: a change after a change is covered by what the second
/// leaves marked, as long as the size stays.
pub proof fn lemma_damage_chain(a: BufferView, b: BufferView, c: BufferView)
    requires
        b.cols == a.cols,
        b.rows == a.rows,
        c.cols == b.cols,
        c.rows == b.rows,
        b.damage_covers(a),
        b.damage_kept(a),
        c.damage_covers(b),
        c.damage_kept(b),
    ensures
        c.damage_covers(a),
        c.damage_kept(a),
{
    assert forall|x: int, y: int|
        0 <= x < c.cols && 0 <= y < c.rows && #[trigger] c.grid[y][x] != a.grid[y][x] implies covers(
        c.dirty[y],
        x,
    ) by {
        if c.grid[y][x] == b.grid[y][x] {
            assert(b.grid[y][x] != a.grid[y][x]);
            assert(covers(b.dirty[y], x));
        }
    }
    assert forall|x: int, y: int| 0 <= y < c.rows && #[trigger] covers(a.dirty[y], x) implies covers(
        c.dirty[y],
        x,
    ) by {
        assert(covers(b.dirty[y], x));
    }
}

/// Writing one cell marks it, and keeps what was marked.
pub proof fn lemma_set_cell_damage(b: BufferView, x: u16, y: u16, cell: Cell)
    requires
        b.wf(),
    ensures
        b.set_cell(x, y, cell).damage_covers(b),
        b.set_cell(x, y, cell).damage_kept(b),
{
    if x < b.cols && y < b.rows {
        let row = b.grid[y as int].update(x as int, cell);
        let span = spread(b.dirty[y as int], x, x);
        lemma_spread_covers(b.dirty[y as int], x, x);
        assert forall|c: int| 0 <= c < b.cols && #[trigger] row[c] != b.grid[y as int][c] implies covers(span, c) by {
            if c != x {
                assert(row[c] == b.grid[y as int][c]);
            }
        }
        lemma_with_row_damage(b, y as int, row, span);
    }
}

/// Filling a run of a row marks every cell it changes, the repair after it
/// included, and keeps what was marked.
pub proof fn lemma_filled_row_damage(b: BufferView, y: u16, from: u16, to: u16, cell: Cell)
    requires
        b.wf(),
    ensures
        b.filled_row(y, from, to, cell).damage_covers(b),
        b.filled_row(y, from, to, cell).damage_kept(b),
{
    if !(y >= b.rows || from >= b.cols || from > to) {
        let end = min16(to, (b.cols - 1) as u16);
        let row = filled(b.grid[y as int], from as int, end as int, cell);
        let span = spread(b.dirty[y as int], from, end);
        lemma_spread_covers(b.dirty[y as int], from, end);
        lemma_repaired_damage(row, span, b.cols as int);
        lemma_repaired_len(row, span, b.cols as int);
        let fixed = repaired(row, span, b.cols as int);
        assert forall|c: int| 0 <= c < b.cols && #[trigger] fixed.0[c] != b.grid[y as int][c] implies covers(
            fixed.1,
            c,
        ) by {
            if fixed.0[c] == row[c] {
                assert(row[c] != b.grid[y as int][c]);
                assert(from <= c <= end);
                assert(covers(span, c));
            }
        }
        lemma_with_row_damage(b, y as int, fixed.0, fixed.1);
    }
}

/// Inserting blanks marks the row from the insertion point to its end, and
/// keeps what was marked.
pub proof fn lemma_inserted_damage(b: BufferView, x: u16, y: u16, count: u16)
    requires
        b.wf(),
    ensures
        b.inserted_view(x, y, count).damage_covers(b),
        b.inserted_view(x, y, count).damage_kept(b),
{
    if !(y >= b.rows || x >= b.cols || count == 0) {
        let n = min_int(count as int, b.cols - x);
        let row = inserted(b.grid[y as int], x as int, n);
        let span = spread(b.dirty[y as int], x, (b.cols - 1) as u16);
        lemma_spread_covers(b.dirty[y as int], x, (b.cols - 1) as u16);
        assert(row.len() == b.cols);
        lemma_repaired_damage(row, span, b.cols as int);
        lemma_repaired_len(row, span, b.cols as int);
        let fixed = repaired(row, span, b.cols as int);
        assert forall|c: int| 0 <= c < b.cols && #[trigger] fixed.0[c] != b.grid[y as int][c] implies covers(
            fixed.1,
            c,
        ) by {
            if fixed.0[c] == row[c] {
                if c < x {
                    assert(row[c] == b.grid[y as int][c]);
                } else {
                    assert(covers(span, c));
                }
            }
        }
        lemma_with_row_damage(b, y as int, fixed.0, fixed.1);
    }
}

/// Deleting cells marks the row from the deletion point to its end, and
/// keeps what was marked.
pub proof fn lemma_deleted_damage(b: BufferView, x: u16, y: u16, count: u16)
    requires
        b.wf(),
    ensures
        b.deleted_view(x, y, count).damage_covers(b),
        b.deleted_view(x, y, count).damage_kept(b),
{
    if !(y >= b.rows || x >= b.cols || count == 0) {
        let n = min_int(count as int, b.cols - x);
        let row = deleted(b.grid[y as int], x as int, n);
        let span = spread(b.dirty[y as int], x, (b.cols - 1) as u16);
        lemma_spread_covers(b.dirty[y as int], x, (b.cols - 1) as u16);
        assert(row.len() == b.cols);
        lemma_repaired_damage(row, span, b.cols as int);
        lemma_repaired_len(row, span, b.cols as int);
        let fixed = repaired(row, span, b.cols as int);
        assert forall|c: int| 0 <= c < b.cols && #[trigger] fixed.0[c] != b.grid[y as int][c] implies covers(
            fixed.1,
            c,
        ) by {
            if fixed.0[c] == row[c] {
                if c < x {
                    assert(row[c] == b.grid[y as int][c]);
                } else {
                    assert(covers(span, c));
                }
            }
        }
        lemma_with_row_damage(b, y as int, fixed.0, fixed.1);
    }
}

/// Rows marked whole keep the damage law whatever happened to them, as long
/// as the rows outside were left alone.
proof fn lemma_marked_rows_damage(b: BufferView, grid: Seq<Seq<Cell>>, top: int, bottom: int)
    requires
        b.wf(),
        0 <= top,
        bottom < b.rows,
        grid.len() == b.rows,
        forall|y: int| 0 <= y < b.rows && !(top <= y <= bottom) ==> #[trigger] grid[y] == b.grid[y],
    ensures
        ({
            let a = BufferView { grid, dirty: marked_rows(b.dirty, b.cols as int, top, bottom), ..b };
            a.damage_covers(b) && a.damage_kept(b)
        }),
{
    let a = BufferView { grid, dirty: marked_rows(b.dirty, b.cols as int, top, bottom), ..b };
    assert forall|x: int, y: int|
        0 <= x < a.cols && 0 <= y < a.rows && #[trigger] a.grid[y][x] != b.grid[y][x] implies covers(
        a.dirty[y],
        x,
    ) by {
        lemma_spread_covers(b.dirty[y], 0, (b.cols - 1) as u16);
    }
    assert forall|x: int, y: int| 0 <= y < a.rows && #[trigger] covers(b.dirty[y], x) implies covers(
        a.dirty[y],
        x,
    ) by {
        lemma_spread_covers(b.dirty[y], 0, (b.cols - 1) as u16);
    }
}

/// Scrolling a region up marks every row of the region, and keeps what was
/// marked.
pub proof fn lemma_scrolled_up_damage(b: BufferView, top: u16, bottom: u16, count: u16)
    requires
        b.wf(),
    ensures
        b.scrolled_up_view(top, bottom, count).damage_covers(b),
        b.scrolled_up_view(top, bottom, count).damage_kept(b),
{
    if b.scrolls(top, bottom, count) {
        let n = min_int(count as int, bottom - top + 1);
        lemma_marked_rows_damage(b, scrolled_up(b.grid, b.cols as int, top as int, bottom as int, n), top as int, bottom as int);
    }
}

/// Scrolling a region down marks every row of the region, and keeps what was
/// marked.
pub proof fn lemma_scrolled_down_damage(b: BufferView, top: u16, bottom: u16, count: u16)
    requires
        b.wf(),
    ensures
        b.scrolled_down_view(top, bottom, count).damage_covers(b),
        b.scrolled_down_view(top, bottom, count).damage_kept(b),
{
    if b.scrolls(top, bottom, count) {
        let n = min_int(count as int, bottom - top + 1);
        lemma_marked_rows_damage(b, scrolled_down(b.grid, b.cols as int, top as int, bottom as int, n), top as int, bottom as int);
    }
}

/// Every row there is and exactly `cols` cells in each.
pub open spec fn shaped(b: BufferView) -> bool {
    &&& b.grid.len() == b.rows
    &&& b.dirty.len() == b.rows
    &&& forall|y: int| 0 <= y < b.rows ==> #[trigger] b.grid[y].len() == b.cols
}

/// A row replaced by one as long keeps the shape.
proof fn lemma_with_row_shaped(b: BufferView, y: int, row: Seq<Cell>, span: Span)
    requires
        shaped(b),
        0 <= y < b.rows,
        row.len() == b.cols,
    ensures
        shaped(b.with_row(y, row, span)),
{
    let a = b.with_row(y, row, span);
    assert forall|yy: int| 0 <= yy < a.rows implies #[trigger] a.grid[yy].len() == a.cols by {
        if yy != y {
            assert(a.grid[yy] == b.grid[yy]);
        }
    }
}

/// Writing one cell of a shaped grid marks it, keeps what was marked and
/// keeps the shape.
pub proof fn lemma_set_cell_shaped(b: BufferView, x: u16, y: u16, cell: Cell)
    requires
        shaped(b),
    ensures
        b.set_cell(x, y, cell).damage_covers(b),
        b.set_cell(x, y, cell).damage_kept(b),
        shaped(b.set_cell(x, y, cell)),
        b.set_cell(x, y, cell).cols == b.cols,
        b.set_cell(x, y, cell).rows == b.rows,
{
    if x < b.cols && y < b.rows {
        let row = b.grid[y as int].update(x as int, cell);
        let span = spread(b.dirty[y as int], x, x);
        lemma_spread_covers(b.dirty[y as int], x, x);
        assert forall|c: int| 0 <= c < b.cols && #[trigger] row[c] != b.grid[y as int][c] implies covers(span, c) by {
            if c != x {
                assert(row[c] == b.grid[y as int][c]);
            }
        }
        lemma_with_row_damage(b, y as int, row, span);
        lemma_with_row_shaped(b, y as int, row, span);
    } else {
        assert(b.set_cell(x, y, cell) == b);
    }
}

/// Making room for a glyph marks every cell it blanks, keeps what was
/// marked and keeps the shape.
pub proof fn lemma_overlap_damage(b: BufferView, x: u16, y: u16, width: u16)
    requires
        shaped(b),
    ensures
        b.overlap_view(x, y, width).damage_covers(b),
        b.overlap_view(x, y, width).damage_kept(b),
        shaped(b.overlap_view(x, y, width)),
        b.overlap_view(x, y, width).cols == b.cols,
        b.overlap_view(x, y, width).rows == b.rows,
{
    if !(x >= b.cols || y >= b.rows) {
        let old_row = b.grid[y as int];
        let span = b.dirty[y as int];
        let row = overlap_cleared(old_row, x as int, width as int);
        let marked = overlap_marked(old_row, span, x as int, width as int);
        let first = lead_cleared(old_row, x as int);
        let lead = if x > 0 && old_row[x as int].width == 0 {
            spread(span, (x - 1) as u16, (x - 1) as u16)
        } else {
            span
        };
        let far = reach(first, x as int, min_int(x + width, old_row.len() as int));
        let stop = min_int(far, old_row.len() as int);
        lemma_spread_covers(span, (x - 1) as u16, (x - 1) as u16);
        assert(forall|c: int| #[trigger] covers(span, c) ==> covers(lead, c));
        if x + width < stop {
            lemma_spread_covers(lead, (x + width) as u16, (stop - 1) as u16);
        }
        assert forall|c: int| #[trigger] covers(span, c) implies covers(marked, c) by {
            assert(covers(lead, c));
        }
        assert forall|c: int| 0 <= c < b.cols && #[trigger] row[c] != old_row[c] implies covers(marked, c) by {
            if x + width <= c < far {
                assert(c < stop);
            } else {
                assert(row[c] == first[c]);
                assert(c == x - 1);
                assert(covers(lead, c));
            }
        }
        lemma_with_row_damage(b, y as int, row, marked);
        lemma_with_row_shaped(b, y as int, row, marked);
    }
}

/// Inserting blanks keeps every row `cols` cells long.
pub proof fn lemma_inserted_shaped(b: BufferView, x: u16, y: u16, count: u16)
    requires
        b.wf(),
    ensures
        shaped(b.inserted_view(x, y, count)),
        b.inserted_view(x, y, count).cols == b.cols,
        b.inserted_view(x, y, count).rows == b.rows,
{
    if !(y >= b.rows || x >= b.cols || count == 0) {
        let n = min_int(count as int, b.cols - x);
        let row = inserted(b.grid[y as int], x as int, n);
        let span = spread(b.dirty[y as int], x, (b.cols - 1) as u16);
        assert(row.len() == b.cols);
        lemma_repaired_len(row, span, b.cols as int);
        lemma_with_row_shaped(b, y as int, repaired(row, span, b.cols as int).0, repaired(row, span, b.cols as int).1);
    }
}

/// The continuations of a wide glyph are marked as they are written.
proof fn lemma_continuations_damage(b: BufferView, x: u16, y: u16, k: int, width: int, style: Style)
    requires
        shaped(b),
    ensures
        with_continuations(b, x, y, k, width, style).damage_covers(b),
        with_continuations(b, x, y, k, width, style).damage_kept(b),
        shaped(with_continuations(b, x, y, k, width, style)),
        with_continuations(b, x, y, k, width, style).cols == b.cols,
        with_continuations(b, x, y, k, width, style).rows == b.rows,
    decreases width - k,
{
    if !(k >= width || x + k >= b.cols) {
        let b1 = b.set_cell((x + k) as u16, y, continuation_of(style));
        lemma_set_cell_shaped(b, (x + k) as u16, y, continuation_of(style));
        lemma_continuations_damage(b1, x, y, k + 1, width, style);
        lemma_damage_chain(b, b1, with_continuations(b1, x, y, k + 1, width, style));
    } else {
        assert forall|xx: int, yy: int|
            0 <= xx < b.cols && 0 <= yy < b.rows && #[trigger] b.grid[yy][xx] != b.grid[yy][xx] implies covers(
            b.dirty[yy],
            xx,
        ) by {
        }
    }
}

/// Drawing a glyph marks every cell it changes, the room made for it, its
/// continuations and the cells shifted when inserting included, and keeps
/// what was marked.
pub proof fn lemma_glyph_damage(b: BufferView, insert: bool, x: u16, y: u16, cell: Cell, width: u16)
    requires
        b.wf(),
    ensures
        glyph(b, insert, x, y, cell, width).damage_covers(b),
        glyph(b, insert, x, y, cell, width).damage_kept(b),
{
    let b1 = if insert { b.inserted_view(x, y, width) } else { b };
    if insert {
        lemma_inserted_damage(b, x, y, width);
        if !(y >= b.rows || x >= b.cols || width == 0) {
            let n = min_int(width as int, b.cols - x);
            let row = inserted(b.grid[y as int], x as int, n);
            let span = spread(b.dirty[y as int], x, (b.cols - 1) as u16);
            assert(row.len() == b.cols);
            lemma_repaired_len(row, span, b.cols as int);
            lemma_with_row_shaped(b, y as int, repaired(row, span, b.cols as int).0, repaired(row, span, b.cols as int).1);
        }
    } else {
        assert forall|xx: int, yy: int|
            0 <= xx < b.cols && 0 <= yy < b.rows && #[trigger] b.grid[yy][xx] != b.grid[yy][xx] implies covers(
            b.dirty[yy],
            xx,
        ) by {
        }
    }
    let b2 = b1.overlap_view(x, y, width);
    lemma_overlap_damage(b1, x, y, width);
    let b3 = b2.set_cell(x, y, cell);
    lemma_set_cell_shaped(b2, x, y, cell);
    let b4 = with_continuations(b3, x, y, 1, width as int, cell.style);
    lemma_continuations_damage(b3, x, y, 1, width as int, cell.style);
    lemma_damage_chain(b, b1, b2);
    lemma_damage_chain(b, b2, b3);
    lemma_damage_chain(b, b3, b4);
}

/// Repairing a row of blanks changes nothing in it.
pub proof fn lemma_repaired_blank(row: Seq<Cell>, span: Span, k: int)
    requires
        0 <= k <= row.len(),
        forall|x: int| 0 <= x < row.len() ==> #[trigger] row[x] == blank_cell(),
    ensures
        repaired(row, span, k).0 == row,
    decreases k,
{
    if k > 0 {
        lemma_repaired_blank(row, span, k - 1);
        assert(row[k - 1].width == 1);
        assert(intact(row, k - 1, 1));
        assert(!orphaned(row, k - 1));
    }
}

/// Repairing a row never puts anything but a blank where there was one.
pub proof fn lemma_repair_keeps_blanks(row: Seq<Cell>, span: Span, k: int)
    requires
        k <= row.len(),
    ensures
        repaired(row, span, k).0.len() == row.len(),
        forall|x: int| 0 <= x < row.len() && row[x] == blank_cell() ==> #[trigger] repaired(row, span, k).0[x] == blank_cell(),
    decreases k,
{
    lemma_repaired_len(row, span, k);
    if k > 0 {
        lemma_repair_keeps_blanks(row, span, k - 1);
    }
}

/// Filling columns `from..=to` of a row with blanks leaves each of them
/// blank, whatever repair the row needed, and no other row changes.
pub proof fn lemma_blank_fill(b: BufferView, y: u16, from: u16, to: u16)
    requires
        b.wf(),
        y < b.rows,
        from <= to,
        to < b.cols,
    ensures
        forall|x: int| from <= x <= to ==> #[trigger] b.filled_row(y, from, to, blank_cell()).grid[y as int][x] == blank_cell(),
        forall|r: int| 0 <= r < b.rows && r != y ==> #[trigger] b.filled_row(y, from, to, blank_cell()).grid[r] == b.grid[r],
        b.filled_row(y, from, to, blank_cell()).grid.len() == b.grid.len(),
{
    let row = filled(b.grid[y as int], from as int, to as int, blank_cell());
    let span = spread(b.dirty[y as int], from, to);
    lemma_repair_keeps_blanks(row, span, b.cols as int);
    assert(min16(to, (b.cols - 1) as u16) == to);
}

/// Blanking a whole row leaves every cell of it blank, the other rows as
/// they were, and the shape.
pub proof fn lemma_cleared_row_blank(b: BufferView, y: u16)
    requires
        shaped(b),
        b.cols >= 1,
        y < b.rows,
    ensures
        shaped(b.cleared_row(y)),
        b.cleared_row(y).cols == b.cols,
        b.cleared_row(y).rows == b.rows,
        forall|x: int| 0 <= x < b.cols ==> #[trigger] b.cleared_row(y).grid[y as int][x] == blank_cell(),
        forall|r: int| 0 <= r < b.rows && r != y ==> #[trigger] b.cleared_row(y).grid[r] == b.grid[r],
{
    let end = (b.cols - 1) as u16;
    let row = filled(b.grid[y as int], 0, end as int, blank_cell());
    let span = spread(b.dirty[y as int], 0, end);
    assert forall|x: int| 0 <= x < row.len() implies #[trigger] row[x] == blank_cell() by {}
    lemma_repaired_blank(row, span, b.cols as int);
    lemma_with_row_shaped(b, y as int, row, repaired(row, span, b.cols as int).1);
}

/// Every cell of `row` is at most two columns wide.
pub open spec fn narrow(row: Seq<Cell>) -> bool {
    forall|j: int| 0 <= j < row.len() ==> #[trigger] row[j].width <= 2
}

/// Repairing the first `k` columns leaves none of them half of a pair, and
/// the columns after them as they were.
pub proof fn lemma_repaired_pairs(row: Seq<Cell>, span: Span, k: int)
    requires
        0 <= k <= row.len(),
        narrow(row),
    ensures
        repaired(row, span, k).0.len() == row.len(),
        narrow(repaired(row, span, k).0),
        forall|j: int| k <= j < row.len() ==> #[trigger] repaired(row, span, k).0[j] == row[j],
        forall|x: int| 0 <= x < k ==> !#[trigger] orphaned(repaired(row, span, k).0, x),
    decreases k,
{
    if k > 0 {
        lemma_repaired_pairs(row, span, k - 1);
        let r = repaired(row, span, k - 1).0;
        let z = k - 1;
        if orphaned(r, z) {
            let r2 = r.update(z, blank_cell());
            assert(repaired(row, span, k).0 == r2);
            assert(intact(r2, z, 1));
            assert forall|x: int| 0 <= x < k implies !#[trigger] orphaned(r2, x) by {
                if x < z {
                    assert(!orphaned(r, x));
                    if r[x].width == 0 {
                        assert(r2[x] == r[x]);
                        if x > 0 {
                            assert(r2[x - 1] == r[x - 1]);
                        }
                    } else {
                        assert(intact(r, x, r[x].width as int));
                        if x == z - 1 && r[x].width == 2 {
                            assert(r[x + 1].width == 0);
                            assert(false);
                        }
                        assert forall|t: int| #![trigger r2[x + t]] 1 <= t < r2[x].width implies x + t < r2.len()
                            && r2[x + t].width == 0 by {
                            assert(r[x + t].width == 0);
                        }
                    }
                }
            }
        } else {
            assert(repaired(row, span, k).0 == r);
        }
    }
}

/// After every row is repaired, no cell is half of a double-width pair whose
/// other half is missing: each continuation follows a wide glyph, and each
/// wide glyph is followed by its continuation.
pub proof fn lemma_repaired_all_pairs(b: BufferView)
    requires
        b.wf(),
        forall|y: int| 0 <= y < b.rows ==> narrow(#[trigger] b.grid[y]),
    ensures
        forall|y: int, x: int| 0 <= y < b.rows && 0 <= x < b.cols ==> !#[trigger] orphaned(b.repaired_all().grid[y], x),
{
    assert forall|y: int, x: int| 0 <= y < b.rows && 0 <= x < b.cols implies !#[trigger] orphaned(b.repaired_all().grid[y], x) by {
        lemma_repaired_pairs(b.grid[y], b.dirty[y], b.cols as int);
    }
}

/// Draining leaves no damage at all.
pub proof fn lemma_drained_clean(b: BufferView)
    ensures
        forall|x: int, y: int| 0 <= y < b.rows ==> !#[trigger] covers(b.drained().dirty[y], x),
{
}

/// One screen's cells, and the columns that changed since the last drain.
///
/// Damage is the inclusive minimum and maximum column per row. A per-row flag
/// alone would send a whole row for a one-cell change; per-cell tracking costs
/// more to keep than it saves on the wire. Min and max is the useful middle,
/// and a terminal's writes are overwhelmingly contiguous.
#[derive(Debug, Clone)]
pub struct Buffer {
    cols: u16,
    rows: u16,
    grid: Vec<Vec<Cell>>,
    dirty: Vec<Span>,
}

impl View for Buffer {
    type V = BufferView;

    closed spec fn view(&self) -> BufferView {
        BufferView {
            cols: self.cols,
            rows: self.rows,
            grid: Seq::new(self.grid@.len(), |y: int| self.grid@[y]@),
            dirty: self.dirty@,
        }
    }
}

fn blank_cells(cols: u16) -> (row: Vec<Cell>)
    ensures
        row@ == blank_row(cols as int),
{
    let mut row: Vec<Cell> = Vec::new();
    let mut x: u16 = 0;
    while x < cols
        invariant
            x <= cols,
            row@ == blank_row(x as int),
        decreases cols - x,
    {
        row.push(Cell::blank());
        x = x + 1;
        assert(row@ =~= blank_row(x as int));
    }
    row
}

impl Buffer {
    pub open spec fn wf(&self) -> bool {
        self@.wf()
    }

    /// A blank grid with no damage. A zero-column or zero-row grid has no cell
    /// to address, so each side is at least one.
    pub fn new(cols: u16, rows: u16) -> (b: Buffer)
        ensures
            b.wf(),
            b@.cols == (if cols == 0 { 1 } else { cols }),
            b@.rows == (if rows == 0 { 1 } else { rows }),
            forall|y: int| 0 <= y < b@.rows ==> #[trigger] b@.grid[y] == blank_row(b@.cols as int),
            forall|y: int| 0 <= y < b@.rows ==> #[trigger] b@.dirty[y] == None::<(u16, u16)>,
    {
        let cols = if cols == 0 { 1 } else { cols };
        let rows = if rows == 0 { 1 } else { rows };
        let mut grid: Vec<Vec<Cell>> = Vec::new();
        let mut dirty: Vec<Span> = Vec::new();
        let mut y: u16 = 0;
        while y < rows
            invariant
                y <= rows,
                grid@.len() == y,
                dirty@.len() == y,
                forall|j: int| 0 <= j < y ==> #[trigger] grid@[j]@ == blank_row(cols as int),
                forall|j: int| 0 <= j < y ==> #[trigger] dirty@[j] == None::<(u16, u16)>,
            decreases rows - y,
        {
            grid.push(blank_cells(cols));
            dirty.push(None);
            y = y + 1;
        }
        Buffer { cols, rows, grid, dirty }
    }

    pub fn cols(&self) -> (c: u16)
        ensures
            c == self@.cols,
    {
        self.cols
    }

    pub fn rows(&self) -> (r: u16)
        ensures
            r == self@.rows,
    {
        self.rows
    }

    /// Row `y`, or the last row when `y` is past it.
    pub fn row(&self, y: u16) -> (cells: &[Cell])
        requires
            self.wf(),
        ensures
            cells@ == self@.grid[if y < self@.rows { y as int } else { self@.rows - 1 }],
    {
        let y = if y < self.rows { y } else { self.rows - 1 };
        self.grid[y as usize].as_slice()
    }

    /// The cell at `(x, y)`, or a blank one off the grid.
    pub fn cell(&self, x: u16, y: u16) -> (c: Cell)
        requires
            self.wf(),
        ensures
            c == self@.at(x as int, y as int),
    {
        if x >= self.cols || y >= self.rows {
            return Cell::blank();
        }
        self.grid[y as usize][x as usize]
    }

    /// Writes one cell without marking it.
    fn put(&mut self, x: u16, y: u16, cell: Cell)
        requires
            old(self).wf(),
            x < old(self)@.cols,
            y < old(self)@.rows,
        ensures
            final(self).wf(),
            final(self)@.cols == old(self)@.cols,
            final(self)@.rows == old(self)@.rows,
            final(self)@.dirty == old(self)@.dirty,
            final(self)@.grid == old(self)@.grid.update(y as int, old(self)@.grid[y as int].update(x as int, cell)),
    {
        assert(self@.grid[y as int].len() == self.cols);
        self.grid[y as usize].set(x as usize, cell);
        assert(self@.grid =~= old(self)@.grid.update(y as int, old(self)@.grid[y as int].update(x as int, cell)));
    }

    /// Widens row `y`'s damage to reach `from_x..=to_x`, each clamped to the
    /// last column.
    fn touch(&mut self, y: u16, from_x: u16, to_x: u16)
        requires
            old(self).wf(),
            from_x <= to_x,
        ensures
            final(self).wf(),
            final(self)@.cols == old(self)@.cols,
            final(self)@.rows == old(self)@.rows,
            final(self)@.grid == old(self)@.grid,
            final(self)@.dirty == (if y < old(self)@.rows {
                old(self)@.dirty.update(
                    y as int,
                    spread(
                        old(self)@.dirty[y as int],
                        min16(from_x, (old(self)@.cols - 1) as u16),
                        min16(to_x, (old(self)@.cols - 1) as u16),
                    ),
                )
            } else {
                old(self)@.dirty
            }),
    {
        if y >= self.rows {
            return;
        }
        let last = self.cols - 1;
        let from_x = if from_x < last { from_x } else { last };
        let to_x = if to_x < last { to_x } else { last };
        let next = match self.dirty[y as usize] {
            None => Some((from_x, to_x)),
            Some((low, high)) => Some(
                (if low < from_x { low } else { from_x }, if high > to_x { high } else { to_x }),
            ),
        };
        self.dirty.set(y as usize, next);
    }

    /// Writes one cell and marks it, or does nothing off the grid.
    pub fn set(&mut self, x: u16, y: u16, cell: Cell)
        requires
            old(self).wf(),
        ensures
            final(self)@ == old(self)@.set_cell(x, y, cell),
            final(self).wf(),
            final(self)@.cols == old(self)@.cols,
            final(self)@.rows == old(self)@.rows,
            x < old(self)@.cols && y < old(self)@.rows ==> {
                &&& final(self)@.grid == old(self)@.grid.update(
                    y as int,
                    old(self)@.grid[y as int].update(x as int, cell),
                )
                &&& final(self)@.dirty == old(self)@.dirty.update(
                    y as int,
                    spread(old(self)@.dirty[y as int], x, x),
                )
            },
            !(x < old(self)@.cols && y < old(self)@.rows) ==> final(self)@ == old(self)@,
    {
        if x >= self.cols || y >= self.rows {
            return;
        }
        self.put(x, y, cell);
        self.touch(y, x, x);
    }

    /// Whether each later column `x + 1 .. x + width` of row `y` is on the grid
    /// and a continuation.
    fn lead_intact(&self, x: u16, y: u16, width: u8) -> (b: bool)
        requires
            self.wf(),
            y < self@.rows,
        ensures
            b == intact(self@.grid[y as int], x as int, width as int),
    {
        let ghost row = self@.grid[y as int];
        let mut t: u16 = 1;
        while t < width as u16
            invariant
                self.wf(),
                y < self@.rows,
                row == self@.grid[y as int],
                row.len() == self@.cols,
                1 <= t <= 256,
                intact(row, x as int, t as int),
            decreases width - t,
        {
            if x as u32 + t as u32 >= self.cols as u32 {
                proof {
                    let w = t as int;
                    assert(!(x + w < row.len() && row[x + w].width == 0));
                }
                return false;
            }
            if self.cell(x + t, y).width != 0 {
                proof {
                    let w = t as int;
                    assert(!(x + w < row.len() && row[x + w].width == 0));
                }
                return false;
            }
            proof {
                let w = t as int;
                assert(x + w < row.len() && row[x + w].width == 0);
                assert forall|s: int| #![trigger row[x + s]] 1 <= s < t + 1 implies x + s < row.len() && row[x + s].width == 0 by {
                    if s < t {
                        assert(intact(row, x as int, t as int));
                    }
                }
            }
            t = t + 1;
        }
        proof {
            assert forall|s: int| #![trigger row[x + s]] 1 <= s < width implies x + s < row.len() && row[x + s].width == 0 by {
                assert(intact(row, x as int, t as int));
            }
        }
        true
    }

    /// Blanks every orphaned half on row `y`, left to right.
    fn repair_wide(&mut self, y: u16)
        requires
            old(self).wf(),
            y < old(self)@.rows,
        ensures
            final(self).wf(),
            final(self)@.cols == old(self)@.cols,
            final(self)@.rows == old(self)@.rows,
            final(self)@.grid == old(self)@.grid.update(
                y as int,
                repaired(old(self)@.grid[y as int], old(self)@.dirty[y as int], old(self)@.cols as int).0,
            ),
            final(self)@.dirty == old(self)@.dirty.update(
                y as int,
                repaired(old(self)@.grid[y as int], old(self)@.dirty[y as int], old(self)@.cols as int).1,
            ),
    {
        let ghost row0 = old(self)@.grid[y as int];
        let ghost span0 = old(self)@.dirty[y as int];
        let mut x: u16 = 0;
        while x < self.cols
            invariant
                self.wf(),
                old(self).wf(),
                x <= self@.cols,
                y < self@.rows,
                self@.cols == old(self)@.cols,
                self@.rows == old(self)@.rows,
                row0 == old(self)@.grid[y as int],
                span0 == old(self)@.dirty[y as int],
                self@.grid == old(self)@.grid.update(y as int, repaired(row0, span0, x as int).0),
                self@.dirty == old(self)@.dirty.update(y as int, repaired(row0, span0, x as int).1),
            decreases self@.cols - x,
        {
            let cell = self.cell(x, y);
            let bad = if cell.width == 0 {
                !(x > 0 && self.cell(x - 1, y).width > 1)
            } else {
                !self.lead_intact(x, y, cell.width)
            };
            proof {
                assert(self@.grid[y as int] == repaired(row0, span0, x as int).0);
                assert(bad == orphaned(repaired(row0, span0, x as int).0, x as int));
            }
            if bad {
                self.put(x, y, Cell::blank());
                self.touch(y, x, x);
            }
            x = x + 1;
            proof {
                assert(self@.grid =~= old(self)@.grid.update(y as int, repaired(row0, span0, x as int).0));
                assert(self@.dirty =~= old(self)@.dirty.update(y as int, repaired(row0, span0, x as int).1));
            }
        }
    }

    /// Sets `from_x..=to_x` of row `y` to `cell`, the end clamped to the last
    /// column, marks it, and repairs any pair the run split. Does nothing when
    /// the run starts off the grid or ends before it starts.
    pub fn fill(&mut self, y: u16, from_x: u16, to_x: u16, cell: Cell)
        requires
            old(self).wf(),
        ensures
            final(self)@ == old(self)@.filled_row(y, from_x, to_x, cell),
            final(self).wf(),
            final(self)@.cols == old(self)@.cols,
            final(self)@.rows == old(self)@.rows,
            ({
                let last = (old(self)@.cols - 1) as u16;
                let to = min16(to_x, last);
                let row = filled(old(self)@.grid[y as int], from_x as int, to as int, cell);
                let span = spread(old(self)@.dirty[y as int], from_x, to);
                if y >= old(self)@.rows || from_x >= old(self)@.cols || from_x > to_x {
                    final(self)@ == old(self)@
                } else {
                    &&& final(self)@.grid == old(self)@.grid.update(y as int, repaired(row, span, old(self)@.cols as int).0)
                    &&& final(self)@.dirty == old(self)@.dirty.update(y as int, repaired(row, span, old(self)@.cols as int).1)
                }
            }),
    {
        if y >= self.rows || from_x >= self.cols || from_x > to_x {
            return;
        }
        let last = self.cols - 1;
        let to = if to_x < last { to_x } else { last };
        let ghost row0 = old(self)@.grid[y as int];
        proof {
            assert(filled(row0, from_x as int, from_x - 1, cell) =~= row0);
            assert(old(self)@.grid.update(y as int, row0) =~= old(self)@.grid);
        }
        let mut x: u16 = from_x;
        while x <= to
            invariant
                self.wf(),
                old(self).wf(),
                from_x <= x,
                x <= to + 1,
                to < self@.cols,
                y < self@.rows,
                self@.cols == old(self)@.cols,
                self@.rows == old(self)@.rows,
                self@.dirty == old(self)@.dirty,
                row0 == old(self)@.grid[y as int],
                self@.grid == old(self)@.grid.update(y as int, filled(row0, from_x as int, x - 1, cell)),
            decreases to + 1 - x,
        {
            self.put(x, y, cell);
            proof {
                assert(filled(row0, from_x as int, x - 1, cell).update(x as int, cell)
                    =~= filled(row0, from_x as int, x as int, cell));
            }
            x = x + 1;
        }
        self.touch(y, from_x, to);
        self.repair_wide(y);
    }

    /// Blanks row `y`.
    pub fn clear_row(&mut self, y: u16)
        requires
            old(self).wf(),
        ensures
            final(self)@ == old(self)@.cleared_row(y),
            final(self).wf(),
            final(self)@.cols == old(self)@.cols,
            final(self)@.rows == old(self)@.rows,
            ({
                let row = blank_row(old(self)@.cols as int);
                let span = spread(old(self)@.dirty[y as int], 0, (old(self)@.cols - 1) as u16);
                if y >= old(self)@.rows {
                    final(self)@ == old(self)@
                } else {
                    &&& final(self)@.grid == old(self)@.grid.update(y as int, repaired(row, span, old(self)@.cols as int).0)
                    &&& final(self)@.dirty == old(self)@.dirty.update(y as int, repaired(row, span, old(self)@.cols as int).1)
                }
            }),
    {
        let last = self.cols - 1;
        proof {
            if y < self@.rows {
                assert(filled(self@.grid[y as int], 0, last as int, blank_cell()) =~= blank_row(self@.cols as int));
            }
        }
        self.fill(y, 0, last, Cell::blank());
    }

    /// Blanks any double-width glyph that `x..x + width` would only half
    /// cover: the lead of a continuation at `x`, and whatever a glyph starting
    /// under the run still covers past its end. Does nothing off the grid.
    pub fn clear_wide_overlap(&mut self, x: u16, y: u16, width: u16)
        requires
            old(self).wf(),
        ensures
            final(self)@ == old(self)@.overlap_view(x, y, width),
            final(self).wf(),
            final(self)@.cols == old(self)@.cols,
            final(self)@.rows == old(self)@.rows,
            x >= old(self)@.cols || y >= old(self)@.rows ==> final(self)@ == old(self)@,
            x < old(self)@.cols && y < old(self)@.rows ==> {
                &&& final(self)@.grid == old(self)@.grid.update(
                    y as int,
                    overlap_cleared(old(self)@.grid[y as int], x as int, width as int),
                )
                &&& final(self)@.dirty == old(self)@.dirty.update(
                    y as int,
                    overlap_marked(old(self)@.grid[y as int], old(self)@.dirty[y as int], x as int, width as int),
                )
            },
    {
        if x >= self.cols || y >= self.rows {
            return;
        }
        let ghost row0 = old(self)@.grid[y as int];
        let ghost span0 = old(self)@.dirty[y as int];
        if x > 0 && self.cell(x, y).is_continuation() {
            self.put(x - 1, y, Cell::blank());
            self.touch(y, x - 1, x - 1);
        }
        let ghost first = lead_cleared(row0, x as int);
        let ghost lead = if x > 0 && row0[x as int].width == 0 {
            spread(span0, (x - 1) as u16, (x - 1) as u16)
        } else {
            span0
        };
        proof {
            assert(self@.grid[y as int] =~= first);
            assert(self@.dirty[y as int] == lead);
        }
        let cols = self.cols as u32;
        let run_end: u32 = if x as u32 + (width as u32) < cols { x as u32 + width as u32 } else { cols };
        let mut far: u32 = x as u32;
        let mut c: u32 = x as u32;
        while c < run_end
            invariant
                self.wf(),
                x as u32 <= c <= run_end,
                run_end <= cols,
                cols == self@.cols,
                y < self@.rows,
                first == self@.grid[y as int],
                far == reach(first, x as int, c as int),
                far <= c + 255,
            decreases run_end - c,
        {
            let w = self.cell(c as u16, y).width as u32;
            if c + w > far {
                far = c + w;
            }
            c = c + 1;
        }
        proof {
            assert(run_end == min_int(x + width, first.len() as int));
        }
        let stop: u32 = if far < cols { far } else { cols };
        let start: u32 = x as u32 + width as u32;
        if start < stop {
            let ghost grid1 = self@.grid;
            proof {
                assert(Seq::new(first.len(), |i: int| if start <= i < start { blank_cell() } else { first[i] }) =~= first);
                assert(grid1.update(y as int, first) =~= grid1);
            }
            let mut j: u32 = start;
            while j < stop
                invariant
                    self.wf(),
                    start <= j <= stop,
                    stop <= cols,
                    cols == self@.cols,
                    y < self@.rows,
                    self@.rows == old(self)@.rows,
                    self@.dirty == old(self)@.dirty.update(y as int, lead),
                    grid1.len() == self@.rows,
                    first.len() == cols,
                    self@.grid == grid1.update(
                        y as int,
                        Seq::new(first.len(), |i: int| if start <= i < j { blank_cell() } else { first[i] }),
                    ),
                decreases stop - j,
            {
                let ghost sj = Seq::new(first.len(), |i: int| if start <= i < j { blank_cell() } else { first[i] });
                self.put(j as u16, y, Cell::blank());
                proof {
                    assert(sj.update(j as int, blank_cell()) =~= Seq::new(first.len(), |i: int| if start <= i < j + 1 { blank_cell() } else { first[i] }));
                    assert(self@.grid =~= grid1.update(
                        y as int,
                        Seq::new(first.len(), |i: int| if start <= i < j + 1 { blank_cell() } else { first[i] }),
                    ));
                }
                j = j + 1;
            }
            self.touch(y, start as u16, (stop - 1) as u16);
            proof {
                assert(Seq::new(first.len(), |i: int| if start <= i < stop { blank_cell() } else { first[i] })
                    =~= overlap_cleared(row0, x as int, width as int));
                assert(self@.grid =~= old(self)@.grid.update(y as int, overlap_cleared(row0, x as int, width as int)));
            }
        } else {
            proof {
                assert(overlap_cleared(row0, x as int, width as int) =~= first);
                assert(self@.grid =~= old(self)@.grid.update(y as int, first));
            }
        }
    }

    /// The cells `from..to` of row `y`, copied.
    fn copy_cells(&self, y: u16, from: u16, to: u16) -> (cells: Vec<Cell>)
        requires
            self.wf(),
            y < self@.rows,
            from <= to <= self@.cols,
        ensures
            cells@ == self@.grid[y as int].subrange(from as int, to as int),
    {
        let mut cells: Vec<Cell> = Vec::new();
        let mut x: u16 = from;
        while x < to
            invariant
                self.wf(),
                y < self@.rows,
                from <= x <= to,
                to <= self@.cols,
                cells@ == self@.grid[y as int].subrange(from as int, x as int),
            decreases to - x,
        {
            cells.push(self.cell(x, y));
            proof {
                assert(cells@ =~= self@.grid[y as int].subrange(from as int, x + 1));
            }
            x = x + 1;
        }
        cells
    }

    /// Replaces row `y` whole, without marking it.
    fn put_row(&mut self, y: u16, row: Vec<Cell>)
        requires
            old(self).wf(),
            y < old(self)@.rows,
            row@.len() == old(self)@.cols,
        ensures
            final(self).wf(),
            final(self)@.cols == old(self)@.cols,
            final(self)@.rows == old(self)@.rows,
            final(self)@.dirty == old(self)@.dirty,
            final(self)@.grid == old(self)@.grid.update(y as int, row@),
    {
        let ghost r = row@;
        self.grid.set(y as usize, row);
        assert(self@.grid =~= old(self)@.grid.update(y as int, r));
    }

    /// Shifts row `y` right from `x` by `count` blanks, clamped to the row's
    /// end, marks `x` to the end, and repairs any pair the shift split.
    pub fn insert_cells(&mut self, x: u16, y: u16, count: u16)
        requires
            old(self).wf(),
        ensures
            final(self)@ == old(self)@.inserted_view(x, y, count),
            final(self).wf(),
            final(self)@.cols == old(self)@.cols,
            final(self)@.rows == old(self)@.rows,
            y >= old(self)@.rows || x >= old(self)@.cols || count == 0 ==> final(self)@ == old(self)@,
            !(y >= old(self)@.rows || x >= old(self)@.cols || count == 0) ==> ({
                let n = min_int(count as int, old(self)@.cols - x);
                let row = inserted(old(self)@.grid[y as int], x as int, n);
                let span = spread(old(self)@.dirty[y as int], x, (old(self)@.cols - 1) as u16);
                &&& final(self)@.grid == old(self)@.grid.update(y as int, repaired(row, span, old(self)@.cols as int).0)
                &&& final(self)@.dirty == old(self)@.dirty.update(y as int, repaired(row, span, old(self)@.cols as int).1)
            }),
    {
        if y >= self.rows || x >= self.cols || count == 0 {
            return;
        }
        let n = if count < self.cols - x { count } else { self.cols - x };
        let ghost row0 = self@.grid[y as int];
        let mut row = self.copy_cells(y, 0, x);
        let mut i: u16 = 0;
        while i < n
            invariant
                i <= n,
                row@ == row0.take(x as int) + Seq::new(i as nat, |k: int| blank_cell()),
            decreases n - i,
        {
            row.push(Cell::blank());
            i = i + 1;
            proof {
                assert(row@ =~= row0.take(x as int) + Seq::new(i as nat, |k: int| blank_cell()));
            }
        }
        let mut rest = self.copy_cells(y, x, self.cols - n);
        row.append(&mut rest);
        proof {
            assert(row@ =~= inserted(row0, x as int, n as int));
        }
        self.put_row(y, row);
        self.touch(y, x, self.cols - 1);
        self.repair_wide(y);
    }

    /// Shifts row `y` left onto `x` by `count`, clamped to the row's end,
    /// blanks in from the right, marks `x` to the end, and repairs any pair the
    /// shift split.
    pub fn delete_cells(&mut self, x: u16, y: u16, count: u16)
        requires
            old(self).wf(),
        ensures
            final(self)@ == old(self)@.deleted_view(x, y, count),
            final(self).wf(),
            final(self)@.cols == old(self)@.cols,
            final(self)@.rows == old(self)@.rows,
            y >= old(self)@.rows || x >= old(self)@.cols || count == 0 ==> final(self)@ == old(self)@,
            !(y >= old(self)@.rows || x >= old(self)@.cols || count == 0) ==> ({
                let n = min_int(count as int, old(self)@.cols - x);
                let row = deleted(old(self)@.grid[y as int], x as int, n);
                let span = spread(old(self)@.dirty[y as int], x, (old(self)@.cols - 1) as u16);
                &&& final(self)@.grid == old(self)@.grid.update(y as int, repaired(row, span, old(self)@.cols as int).0)
                &&& final(self)@.dirty == old(self)@.dirty.update(y as int, repaired(row, span, old(self)@.cols as int).1)
            }),
    {
        if y >= self.rows || x >= self.cols || count == 0 {
            return;
        }
        let n = if count < self.cols - x { count } else { self.cols - x };
        let ghost row0 = self@.grid[y as int];
        let mut row = self.copy_cells(y, 0, x);
        let mut rest = self.copy_cells(y, x + n, self.cols);
        row.append(&mut rest);
        let mut i: u16 = 0;
        while i < n
            invariant
                i <= n,
                row@ == row0.take(x as int) + row0.subrange(x + n, row0.len() as int) + Seq::new(i as nat, |k: int| blank_cell()),
            decreases n - i,
        {
            row.push(Cell::blank());
            i = i + 1;
            proof {
                assert(row@ =~= row0.take(x as int) + row0.subrange(x + n, row0.len() as int) + Seq::new(i as nat, |k: int| blank_cell()));
            }
        }
        proof {
            assert(row@ =~= deleted(row0, x as int, n as int));
        }
        self.put_row(y, row);
        self.touch(y, x, self.cols - 1);
        self.repair_wide(y);
    }

    /// Repairs every row, for an operation that could have split a pair
    /// anywhere.
    pub fn repair_all_wide(&mut self)
        requires
            old(self).wf(),
        ensures
            final(self)@ == old(self)@.repaired_all(),
            final(self).wf(),
            final(self)@.cols == old(self)@.cols,
            final(self)@.rows == old(self)@.rows,
            forall|y: int| 0 <= y < old(self)@.rows ==> #[trigger] final(self)@.grid[y]
                == repaired(old(self)@.grid[y], old(self)@.dirty[y], old(self)@.cols as int).0,
            forall|y: int| 0 <= y < old(self)@.rows ==> #[trigger] final(self)@.dirty[y]
                == repaired(old(self)@.grid[y], old(self)@.dirty[y], old(self)@.cols as int).1,
    {
        let mut y: u16 = 0;
        while y < self.rows
            invariant
                self.wf(),
                old(self).wf(),
                y <= self@.rows,
                self@.cols == old(self)@.cols,
                self@.rows == old(self)@.rows,
                forall|j: int| 0 <= j < y ==> #[trigger] self@.grid[j]
                    == repaired(old(self)@.grid[j], old(self)@.dirty[j], old(self)@.cols as int).0,
                forall|j: int| 0 <= j < y ==> #[trigger] self@.dirty[j]
                    == repaired(old(self)@.grid[j], old(self)@.dirty[j], old(self)@.cols as int).1,
                forall|j: int| y <= j < self@.rows ==> #[trigger] self@.grid[j] == old(self)@.grid[j],
                forall|j: int| y <= j < self@.rows ==> #[trigger] self@.dirty[j] == old(self)@.dirty[j],
            decreases self@.rows - y,
        {
            self.repair_wide(y);
            y = y + 1;
        }
    }

    /// Marks each row of `top..=bottom` whole.
    fn mark_rows(&mut self, top: u16, bottom: u16)
        requires
            old(self).wf(),
            top <= bottom < old(self)@.rows,
        ensures
            final(self).wf(),
            final(self)@.cols == old(self)@.cols,
            final(self)@.rows == old(self)@.rows,
            final(self)@.grid == old(self)@.grid,
            final(self)@.dirty == marked_rows(old(self)@.dirty, old(self)@.cols as int, top as int, bottom as int),
    {
        let last = self.cols - 1;
        let mut y: u16 = top;
        while y <= bottom
            invariant
                self.wf(),
                top <= y <= bottom + 1,
                bottom < self@.rows,
                last == self@.cols - 1,
                self@.cols == old(self)@.cols,
                self@.rows == old(self)@.rows,
                self@.grid == old(self)@.grid,
                self@.dirty.len() == old(self)@.dirty.len(),
                forall|j: int| 0 <= j < self@.rows ==> #[trigger] self@.dirty[j]
                    == (if top <= j < y { spread(old(self)@.dirty[j], 0, last) } else { old(self)@.dirty[j] }),
            decreases bottom + 1 - y,
        {
            self.touch(y, 0, last);
            y = y + 1;
        }
        assert(self@.dirty =~= marked_rows(old(self)@.dirty, old(self)@.cols as int, top as int, bottom as int));
    }

    /// Moves `top..=bottom` up by `count`, clamped to the region, and returns
    /// the rows that left the top, top first, so a caller can push them to
    /// scrollback. The freed rows at the bottom are blank and the whole region
    /// is marked. Does nothing for an empty count or a region that is not on
    /// the grid.
    pub fn scroll_up(&mut self, top: u16, bottom: u16, count: u16) -> (evicted: Vec<Vec<Cell>>)
        requires
            old(self).wf(),
        ensures
            evicted@.map_values(|r: Vec<Cell>| r@) == old(self)@.evicted(top, bottom, count),
            final(self)@ == old(self)@.scrolled_up_view(top, bottom, count),
            final(self).wf(),
            final(self)@.cols == old(self)@.cols,
            final(self)@.rows == old(self)@.rows,
            top > bottom || bottom >= old(self)@.rows || count == 0 ==> {
                &&& final(self)@ == old(self)@
                &&& evicted@.len() == 0
            },
            !(top > bottom || bottom >= old(self)@.rows || count == 0) ==> ({
                let n = min_int(count as int, bottom - top + 1);
                &&& final(self)@.grid == scrolled_up(old(self)@.grid, old(self)@.cols as int, top as int, bottom as int, n)
                &&& final(self)@.dirty == marked_rows(old(self)@.dirty, old(self)@.cols as int, top as int, bottom as int)
                &&& evicted@.len() == n
                &&& forall|i: int| 0 <= i < n ==> #[trigger] evicted@[i]@ == old(self)@.grid[top + i]
            }),
    {
        if top > bottom || bottom >= self.rows || count == 0 {
            return Vec::new();
        }
        let span = bottom - top + 1;
        let n = if count < span { count } else { span };
        let ghost g0 = old(self)@.grid;
        let ghost rows = self.rows as int;
        let mut evicted: Vec<Vec<Cell>> = Vec::new();
        let mut i: u16 = 0;
        while i < n
            invariant
                i <= n <= bottom - top + 1,
                bottom < rows,
                g0.len() == rows,
                self.grid@.len() == rows - i,
                forall|j: int| 0 <= j < rows - i ==> #[trigger] self.grid@[j]@ == (if j < top { g0[j] } else { g0[j + i] }),
                evicted@.len() == i,
                forall|k: int| 0 <= k < i ==> #[trigger] evicted@[k]@ == g0[top + k],
                self.cols == old(self)@.cols,
                self.rows == old(self)@.rows,
                self.dirty@ == old(self)@.dirty,
                old(self).wf(),
                g0 == old(self)@.grid,
            decreases n - i,
        {
            proof {
                assert(self.grid@[top as int]@ == g0[top + i]);
            }
            let row = self.grid.remove(top as usize);
            evicted.push(row);
            i = i + 1;
        }
        let at = (bottom + 1 - n) as usize;
        let mut k: u16 = 0;
        while k < n
            invariant
                k <= n <= bottom - top + 1,
                bottom < rows,
                at == bottom + 1 - n,
                g0.len() == rows,
                self.grid@.len() == rows - n + k,
                forall|j: int| 0 <= j < rows - n + k ==> #[trigger] self.grid@[j]@ == (
                    if j < top { g0[j] } else if j < at { g0[j + n] } else if j < at + k { blank_row(self.cols as int) } else { g0[j - k + n] }
                ),
                self.cols == old(self)@.cols,
                self.rows == old(self)@.rows,
                self.dirty@ == old(self)@.dirty,
                old(self).wf(),
            decreases n - k,
        {
            self.grid.insert(at, blank_cells(self.cols));
            k = k + 1;
        }
        proof {
            assert(self@.grid =~= scrolled_up(g0, self.cols as int, top as int, bottom as int, n as int));
            assert forall|y: int| 0 <= y < self@.rows implies #[trigger] self@.grid[y].len() == self@.cols by {
                if y > bottom - n && y <= bottom {
                } else if top <= y && y <= bottom - n {
                    assert(g0[y + n].len() == self@.cols);
                } else {
                    assert(g0[y].len() == self@.cols);
                }
            }
        }
        self.mark_rows(top, bottom);
        evicted
    }

    /// Moves `top..=bottom` down by `count`, clamped to the region, blanking
    /// the freed rows at the top and marking the whole region. Does nothing
    /// for an empty count or a region that is not on the grid.
    pub fn scroll_down(&mut self, top: u16, bottom: u16, count: u16)
        requires
            old(self).wf(),
        ensures
            final(self)@ == old(self)@.scrolled_down_view(top, bottom, count),
            final(self).wf(),
            final(self)@.cols == old(self)@.cols,
            final(self)@.rows == old(self)@.rows,
            top > bottom || bottom >= old(self)@.rows || count == 0 ==> final(self)@ == old(self)@,
            !(top > bottom || bottom >= old(self)@.rows || count == 0) ==> ({
                let n = min_int(count as int, bottom - top + 1);
                &&& final(self)@.grid == scrolled_down(old(self)@.grid, old(self)@.cols as int, top as int, bottom as int, n)
                &&& final(self)@.dirty == marked_rows(old(self)@.dirty, old(self)@.cols as int, top as int, bottom as int)
            }),
    {
        if top > bottom || bottom >= self.rows || count == 0 {
            return;
        }
        let span = bottom - top + 1;
        let n = if count < span { count } else { span };
        let ghost g0 = old(self)@.grid;
        let ghost rows = self.rows as int;
        let at = (bottom + 1 - n) as usize;
        let mut i: u16 = 0;
        while i < n
            invariant
                i <= n <= bottom - top + 1,
                bottom < rows,
                at == bottom + 1 - n,
                g0.len() == rows,
                self.grid@.len() == rows - i,
                forall|j: int| 0 <= j < rows - i ==> #[trigger] self.grid@[j]@ == (if j < at { g0[j] } else { g0[j + i] }),
                self.cols == old(self)@.cols,
                self.rows == old(self)@.rows,
                self.dirty@ == old(self)@.dirty,
                old(self).wf(),
                g0 == old(self)@.grid,
            decreases n - i,
        {
            let _gone = self.grid.remove(at);
            i = i + 1;
        }
        let mut k: u16 = 0;
        while k < n
            invariant
                k <= n <= bottom - top + 1,
                bottom < rows,
                at == bottom + 1 - n,
                g0.len() == rows,
                self.grid@.len() == rows - n + k,
                forall|j: int| 0 <= j < rows - n + k ==> #[trigger] self.grid@[j]@ == (
                    if j < top { g0[j] } else if j < top + k { blank_row(self.cols as int) } else if j < at + k { g0[j - k] } else { g0[j - k + n] }
                ),
                self.cols == old(self)@.cols,
                self.rows == old(self)@.rows,
                self.dirty@ == old(self)@.dirty,
                old(self).wf(),
            decreases n - k,
        {
            self.grid.insert(top as usize, blank_cells(self.cols));
            k = k + 1;
        }
        proof {
            assert(self@.grid =~= scrolled_down(g0, self.cols as int, top as int, bottom as int, n as int));
            assert forall|y: int| 0 <= y < self@.rows implies #[trigger] self@.grid[y].len() == self@.cols by {
                if top <= y && y < top + n {
                } else if top + n <= y && y <= bottom {
                    assert(g0[y - n].len() == self@.cols);
                } else {
                    assert(g0[y].len() == self@.cols);
                }
            }
        }
        self.mark_rows(top, bottom);
    }

    /// Cuts or grows the grid to `cols` by `rows`, each at least one, keeping
    /// what stays in its place and marking everything. Does nothing when the
    /// size is unchanged.
    pub fn resize(&mut self, cols: u16, rows: u16)
        requires
            old(self).wf(),
        ensures
            final(self)@ == old(self)@.resized_view(cols, rows),
            final(self).wf(),
            final(self)@.cols == (if cols == 0 { 1 } else { cols }),
            final(self)@.rows == (if rows == 0 { 1 } else { rows }),
            final(self)@.cols == old(self)@.cols && final(self)@.rows == old(self)@.rows ==> final(self)@ == old(self)@,
            !(final(self)@.cols == old(self)@.cols && final(self)@.rows == old(self)@.rows) ==> {
                &&& final(self)@.grid == resized(old(self)@.grid, old(self)@.cols as int, final(self)@.cols as int, final(self)@.rows as int)
                &&& forall|y: int| 0 <= y < final(self)@.rows ==> #[trigger] final(self)@.dirty[y]
                    == Some(((0u16, (final(self)@.cols - 1) as u16)))
            },
    {
        let cols = if cols == 0 { 1 } else { cols };
        let rows = if rows == 0 { 1 } else { rows };
        if cols == self.cols && rows == self.rows {
            return;
        }
        let ghost g0 = old(self)@.grid;
        let ghost target = resized(g0, old(self)@.cols as int, cols as int, rows as int);
        let mut next: Vec<Vec<Cell>> = Vec::new();
        let mut dirty: Vec<Span> = Vec::new();
        let mut y: u16 = 0;
        while y < rows
            invariant
                self.wf(),
                self@ == old(self)@,
                g0 == old(self)@.grid,
                target == resized(g0, old(self)@.cols as int, cols as int, rows as int),
                y <= rows,
                next@.len() == y,
                dirty@.len() == y,
                forall|j: int| 0 <= j < y ==> #[trigger] next@[j]@ == target[j],
                forall|j: int| 0 <= j < y ==> #[trigger] dirty@[j] == None::<(u16, u16)>,
            decreases rows - y,
        {
            let mut row: Vec<Cell> = Vec::new();
            let mut x: u16 = 0;
            while x < cols
                invariant
                    self.wf(),
                    self@ == old(self)@,
                    g0 == old(self)@.grid,
                    target == resized(g0, old(self)@.cols as int, cols as int, rows as int),
                    y < rows,
                    x <= cols,
                    row@ == target[y as int].take(x as int),
                decreases cols - x,
            {
                row.push(self.cell(x, y));
                x = x + 1;
                proof {
                    assert(row@ =~= target[y as int].take(x as int));
                }
            }
            proof {
                assert(row@ =~= target[y as int]);
            }
            next.push(row);
            dirty.push(None);
            y = y + 1;
        }
        self.cols = cols;
        self.rows = rows;
        self.grid = next;
        self.dirty = dirty;
        proof {
            assert(self@.grid =~= target);
        }
        self.mark_all_dirty();
    }

    /// Draws `cell` at `(x, y)` as a glyph `width` columns wide.
    pub fn draw_glyph(&mut self, insert: bool, x: u16, y: u16, cell: Cell, width: u16)
        requires
            old(self).wf(),
        ensures
            final(self).wf(),
            final(self)@ == glyph(old(self)@, insert, x, y, cell, width),
            final(self)@.cols == old(self)@.cols,
            final(self)@.rows == old(self)@.rows,
    {
        if insert {
            self.insert_cells(x, y, width);
        }
        self.clear_wide_overlap(x, y, width);
        self.set(x, y, cell);
        let ghost b3 = self@;
        let mut k: u16 = 1;
        while k < width && (x as u32 + k as u32) < self.cols as u32
            invariant
                self.wf(),
                1 <= k,
                self@.cols == b3.cols,
                self@.rows == b3.rows,
                with_continuations(self@, x, y, k as int, width as int, cell.style)
                    == with_continuations(b3, x, y, 1, width as int, cell.style),
            decreases width - k,
        {
            self.set(x + k, y, Cell::continuation(cell.style));
            k = k + 1;
        }
    }

    /// Marks every cell of every row.
    pub fn mark_all_dirty(&mut self)
        requires
            old(self).wf(),
        ensures
            final(self)@ == old(self)@.all_marked(),
            final(self).wf(),
            final(self)@.cols == old(self)@.cols,
            final(self)@.rows == old(self)@.rows,
            final(self)@.grid == old(self)@.grid,
            forall|y: int| 0 <= y < old(self)@.rows ==> #[trigger] final(self)@.dirty[y]
                == spread(old(self)@.dirty[y], 0, (old(self)@.cols - 1) as u16),
    {
        let last = self.cols - 1;
        let mut y: u16 = 0;
        while y < self.rows
            invariant
                self.wf(),
                y <= self@.rows,
                last == self@.cols - 1,
                self@.cols == old(self)@.cols,
                self@.rows == old(self)@.rows,
                self@.grid == old(self)@.grid,
                forall|j: int| 0 <= j < y ==> #[trigger] self@.dirty[j] == spread(old(self)@.dirty[j], 0, last),
                forall|j: int| y <= j < self@.rows ==> #[trigger] self@.dirty[j] == old(self)@.dirty[j],
            decreases self@.rows - y,
        {
            self.touch(y, 0, last);
            y = y + 1;
        }
    }

    /// How many rows carry damage.
    pub fn dirty_rows(&self) -> (n: usize)
        requires
            self.wf(),
        ensures
            n == self@.dirty.filter(|s: Span| s is Some).len(),
    {
        let mut n: usize = 0;
        let mut y: usize = 0;
        while y < self.dirty.len()
            invariant
                y <= self.dirty@.len(),
                n == self.dirty@.take(y as int).filter(|s: Span| s is Some).len(),
                n <= y,
            decreases self.dirty@.len() - y,
        {
            proof {
                reveal_with_fuel(Seq::filter, 1);
                assert(self.dirty@.take(y as int + 1).drop_last() =~= self.dirty@.take(y as int));
            }
            if self.dirty[y].is_some() {
                n = n + 1;
            }
            y = y + 1;
        }
        assert(self.dirty@.take(y as int) =~= self.dirty@);
        n
    }

    /// `(y, from_x, to_x)` for every dirty row, top row first, clearing the
    /// tracking as it goes.
    pub fn take_dirty(&mut self) -> (taken: Vec<(u16, u16, u16)>)
        requires
            old(self).wf(),
        ensures
            final(self)@ == old(self)@.drained(),
            final(self).wf(),
            final(self)@.cols == old(self)@.cols,
            final(self)@.rows == old(self)@.rows,
            final(self)@.grid == old(self)@.grid,
            forall|y: int| 0 <= y < old(self)@.rows ==> #[trigger] final(self)@.dirty[y] == None::<(u16, u16)>,
            taken@ == dirt(old(self)@.dirty, old(self)@.rows as int),
    {
        let mut taken: Vec<(u16, u16, u16)> = Vec::new();
        let mut y: u16 = 0;
        while y < self.rows
            invariant
                self.wf(),
                y <= self@.rows,
                self@.cols == old(self)@.cols,
                self@.rows == old(self)@.rows,
                self@.grid == old(self)@.grid,
                forall|j: int| 0 <= j < y ==> #[trigger] self@.dirty[j] == None::<(u16, u16)>,
                forall|j: int| y <= j < self@.rows ==> #[trigger] self@.dirty[j] == old(self)@.dirty[j],
                taken@ == dirt(old(self)@.dirty, y as int),
            decreases self@.rows - y,
        {
            match self.dirty[y as usize] {
                Some((from_x, to_x)) => {
                    taken.push((y, from_x, to_x));
                },
                None => {},
            }
            self.dirty.set(y as usize, None);
            y = y + 1;
        }
        taken
    }
}

/// The damage of the first `n` rows as `(y, from_x, to_x)`, top row first.
pub open spec fn dirt(dirty: Seq<Span>, n: int) -> Seq<(u16, u16, u16)>
    decreases n,
{
    if n <= 0 {
        Seq::empty()
    } else {
        let before = dirt(dirty, n - 1);
        match dirty[n - 1] {
            Some((from_x, to_x)) => before.push(((n - 1) as u16, from_x, to_x)),
            None => before,
        }
    }
}

/// Whether a damage list entry names row `y < n` and that row's damage.
pub open spec fn names_damage(dirty: Seq<Span>, n: int, entry: (u16, u16, u16)) -> bool {
    entry.0 < n && dirty[entry.0 as int] == Some((entry.1, entry.2))
}

/// Each entry of the damage list names a row of the grid and its damage.
pub proof fn lemma_dirt_rows(dirty: Seq<Span>, n: int)
    requires
        0 <= n <= dirty.len(),
        n <= u16::MAX,
    ensures
        forall|i: int| 0 <= i < dirt(dirty, n).len() ==> names_damage(dirty, n, #[trigger] dirt(dirty, n)[i]),
    decreases n,
{
    if n > 0 {
        lemma_dirt_rows(dirty, n - 1);
        let before = dirt(dirty, n - 1);
        assert forall|i: int| 0 <= i < dirt(dirty, n).len() implies names_damage(dirty, n, #[trigger] dirt(dirty, n)[i]) by {
            if i < before.len() {
                assert(dirt(dirty, n)[i] == before[i]);
                assert(names_damage(dirty, n - 1, before[i]));
            }
        }
    }
}

} // verus!
