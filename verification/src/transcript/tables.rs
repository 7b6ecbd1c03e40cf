//! GitHub-flavoured tables found in agent prose, so they can travel as tables.
use vstd::prelude::*;
use crate::text::{
    chars_of, copy_runs, has_char, join, join_parts, lines, slice_of, split_lines, string_of,
    strs, to_strings, trim, trimmed,
};

verus! {

/// A run of agent prose that renders one way.
pub enum Segment {
    Prose(String),
    Table { columns: Vec<String>, rows: Vec<Vec<String>>, source: String },
}

/// A segment as values.
pub enum SegmentView {
    Prose(Seq<char>),
    Table { columns: Seq<Seq<char>>, rows: Seq<Seq<Seq<char>>>, source: Seq<char> },
}

impl View for Segment {
    type V = SegmentView;

    open spec fn view(&self) -> SegmentView {
        match self {
            Segment::Prose(text) => SegmentView::Prose(text@),
            Segment::Table { columns, rows, source } => SegmentView::Table {
                columns: strs(columns@),
                rows: Seq::new(rows@.len(), |i: int| strs(rows@[i]@)),
                source: source@,
            },
        }
    }
}

pub open spec fn segments_view(v: Seq<Segment>) -> Seq<SegmentView> {
    Seq::new(v.len(), |i: int| v[i]@)
}

/// A line that could be a row: it has a pipe and something else.
pub open spec fn is_row(line: Seq<char>) -> bool {
    line.contains('|') && trim(line).len() > 1
}

pub open spec fn strip_colons_start(s: Seq<char>) -> Seq<char>
    decreases s.len(),
{
    if s.len() > 0 && s[0] == ':' {
        strip_colons_start(s.drop_first())
    } else {
        s
    }
}

pub open spec fn strip_colons_end(s: Seq<char>) -> Seq<char>
    decreases s.len(),
{
    if s.len() > 0 && s.last() == ':' {
        strip_colons_end(s.drop_last())
    } else {
        s
    }
}

/// A delimiter cell: dashes, with optional alignment colons at either end.
pub open spec fn is_dashes(cell: Seq<char>) -> bool {
    let body = strip_colons_end(strip_colons_start(cell));
    body.len() > 0 && forall|i: int| 0 <= i < body.len() ==> body[i] == '-'
}

/// A row split at its pipes, `\|` standing for a pipe inside a cell; `cur`
/// is the cell being built.
pub open spec fn raw_cells(s: Seq<char>, cur: Seq<char>) -> Seq<Seq<char>>
    decreases s.len(),
{
    if s.len() == 0 {
        seq![cur]
    } else if s[0] == '\\' && s.len() > 1 && s[1] == '|' {
        raw_cells(s.skip(2), cur.push('|'))
    } else if s[0] == '|' {
        seq![cur] + raw_cells(s.drop_first(), Seq::empty())
    } else {
        raw_cells(s.drop_first(), cur.push(s[0]))
    }
}

/// The cells with a blank one dropped from each end: the outer pipes of
/// `| a | b |` leave those, and they were never columns.
pub open spec fn outer_trimmed(cells: Seq<Seq<char>>) -> Seq<Seq<char>> {
    let a = if cells.len() > 0 && trim(cells[0]).len() == 0 {
        cells.drop_first()
    } else {
        cells
    };
    if a.len() > 0 && trim(a.last()).len() == 0 {
        a.drop_last()
    } else {
        a
    }
}

/// A cell's text with its backticks gone, so inline code renders as words.
pub open spec fn without_ticks(s: Seq<char>) -> Seq<char>
    decreases s.len(),
{
    if s.len() == 0 {
        Seq::empty()
    } else if s[0] == '`' {
        without_ticks(s.drop_first())
    } else {
        seq![s[0]] + without_ticks(s.drop_first())
    }
}

/// The cells of a row, trimmed and flattened.
pub open spec fn cells(line: Seq<char>) -> Seq<Seq<char>> {
    let c = outer_trimmed(raw_cells(line, Seq::empty()));
    Seq::new(c.len(), |i: int| without_ticks(trim(c[i])))
}

/// A delimiter row: every cell dashes with optional alignment colons.
pub open spec fn is_delimiter(line: Seq<char>) -> bool {
    line.contains('-') && cells(line).len() > 0 && forall|i: int|
        0 <= i < cells(line).len() ==> is_dashes(#[trigger] cells(line)[i])
}

/// A row padded or cut to the header's width.
pub open spec fn fit(cells: Seq<Seq<char>>, width: nat) -> Seq<Seq<char>> {
    Seq::new(
        width,
        |i: int|
            if i < cells.len() {
                cells[i]
            } else {
                Seq::<char>::empty()
            },
    )
}

/// How many lines from `from` on read as rows, counting at most `cap`.
pub open spec fn row_run(ls: Seq<Seq<char>>, from: int, cap: nat) -> nat
    decreases cap,
{
    if cap == 0 || from < 0 || from >= ls.len() || !is_row(ls[from]) {
        0
    } else {
        1 + row_run(ls, from + 1, (cap - 1) as nat)
    }
}

pub proof fn lemma_row_run_bound(ls: Seq<Seq<char>>, from: int, cap: nat)
    requires
        0 <= from,
    ensures
        row_run(ls, from, cap) <= cap,
        from + row_run(ls, from, cap) <= ls.len() || row_run(ls, from, cap) == 0,
    decreases cap,
{
    if !(cap == 0 || from >= ls.len() || !is_row(ls[from])) {
        lemma_row_run_bound(ls, from + 1, (cap - 1) as nat);
    }
}

/// The most rows a table may have before the rest is left as prose.
pub open spec fn max_rows() -> nat {
    200
}

/// A header row, with a delimiter row directly beneath it, and cells.
pub open spec fn starts_table(ls: Seq<Seq<char>>, at: int) -> bool {
    0 <= at && at + 1 < ls.len() && is_row(ls[at]) && is_delimiter(ls[at + 1]) && cells(
        ls[at],
    ).len() > 0
}

/// The prose held so far, as one segment, when there is any.
pub open spec fn flushed(prose: Seq<Seq<char>>) -> Seq<SegmentView> {
    if prose.len() > 0 {
        seq![SegmentView::Prose(join(prose, seq!['\n']))]
    } else {
        Seq::empty()
    }
}

/// The segments of the lines from `at` on, with `prose` already held.
pub open spec fn segments_from(ls: Seq<Seq<char>>, at: int, prose: Seq<Seq<char>>) -> Seq<
    SegmentView,
>
    decreases ls.len() - at,
{
    if at < 0 || at >= ls.len() {
        flushed(prose)
    } else if !starts_table(ls, at) {
        segments_from(ls, at + 1, prose.push(ls[at]))
    } else {
        let columns = cells(ls[at]);
        let n = row_run(ls, at + 2, max_rows());
        proof {
            lemma_row_run_bound(ls, at + 2, max_rows());
        }
        let rows = Seq::new(n, |i: int| fit(cells(ls[at + 2 + i]), columns.len()));
        flushed(prose) + seq![
            SegmentView::Table {
                columns,
                rows,
                source: join(ls.subrange(at, at + 2 + n), seq!['\n']),
            },
        ] + segments_from(ls, at + 2 + n, Seq::empty())
    }
}

/// The prose of a text in order, with each table lifted into its own segment.
pub open spec fn table_segments(source: Seq<char>) -> Seq<SegmentView> {
    segments_from(lines(source), 0, Seq::empty())
}

/// The text a segment stands for: prose as itself, a table as the markdown
/// it was lifted from.
pub open spec fn segment_text(seg: SegmentView) -> Seq<char> {
    match seg {
        SegmentView::Prose(t) => t,
        SegmentView::Table { source, .. } => source,
    }
}

/// The text each segment stands for, in order.
pub open spec fn segment_texts(segs: Seq<SegmentView>) -> Seq<Seq<char>> {
    Seq::new(segs.len(), |i: int| segment_text(segs[i]))
}

/// Joining two runs of parts joins their joins.
pub proof fn lemma_join_concat(a: Seq<Seq<char>>, b: Seq<Seq<char>>, sep: Seq<char>)
    requires
        a.len() > 0,
        b.len() > 0,
    ensures
        join(a + b, sep) == join(a, sep) + sep + join(b, sep),
    decreases b.len(),
{
    if b.len() == 1 {
        assert((a + b).drop_last() =~= a);
        assert((a + b).last() == b[0]);
    } else {
        lemma_join_concat(a, b.drop_last(), sep);
        assert((a + b).drop_last() =~= a + b.drop_last());
        assert((a + b).last() == b.last());
    }
}

/// Lines left to read, or prose held, always make at least one segment.
proof fn lemma_segments_nonempty(ls: Seq<Seq<char>>, at: int, prose: Seq<Seq<char>>)
    requires
        0 <= at,
        prose.len() > 0 || at < ls.len(),
    ensures
        segments_from(ls, at, prose).len() > 0,
    decreases ls.len() - at,
{
    if at < ls.len() && !starts_table(ls, at) {
        lemma_segments_nonempty(ls, at + 1, prose.push(ls[at]));
    }
}

/// The segments from line `at` on, with `prose` held, stand for exactly the
/// held prose and those lines, in order.
proof fn lemma_segments_keep_text(ls: Seq<Seq<char>>, at: int, prose: Seq<Seq<char>>)
    requires
        0 <= at <= ls.len(),
    ensures
        join(segment_texts(segments_from(ls, at, prose)), seq!['\n']) == join(prose + ls.skip(at), seq!['\n']),
    decreases ls.len() - at,
{
    let nl = seq!['\n'];
    if at >= ls.len() {
        assert(prose + ls.skip(at) =~= prose);
        if prose.len() > 0 {
            assert(segment_texts(flushed(prose)) =~= seq![join(prose, nl)]);
        } else {
            assert(segment_texts(flushed(prose)) =~= Seq::<Seq<char>>::empty());
        }
    } else if !starts_table(ls, at) {
        lemma_segments_keep_text(ls, at + 1, prose.push(ls[at]));
        assert(prose.push(ls[at]) + ls.skip(at + 1) =~= prose + ls.skip(at));
    } else {
        let n = row_run(ls, at + 2, max_rows());
        lemma_row_run_bound(ls, at + 2, max_rows());
        let end = at + 2 + n;
        let columns = cells(ls[at]);
        let rows = Seq::new(n, |i: int| fit(cells(ls[at + 2 + i]), columns.len()));
        let table_lines = ls.subrange(at, end);
        let table = SegmentView::Table { columns, rows, source: join(table_lines, nl) };
        let rest = segments_from(ls, end, Seq::empty());
        lemma_segments_keep_text(ls, end, Seq::empty());
        assert(Seq::<Seq<char>>::empty() + ls.skip(end) =~= ls.skip(end));
        let segs = segments_from(ls, at, prose);
        assert(segs == flushed(prose) + seq![table] + rest);
        let head = segment_texts(flushed(prose) + seq![table]);
        assert(segment_texts(segs) =~= head + segment_texts(rest));
        // What the held prose and the table stand for.
        if prose.len() > 0 {
            assert(head =~= seq![join(prose, nl)] + seq![join(table_lines, nl)]);
            lemma_join_concat(seq![join(prose, nl)], seq![join(table_lines, nl)], nl);
            lemma_join_concat(prose, table_lines, nl);
            assert(join(head, nl) == join(prose + table_lines, nl));
        } else {
            assert(head =~= seq![join(table_lines, nl)]);
            assert(prose + table_lines =~= table_lines);
            assert(join(head, nl) == join(prose + table_lines, nl));
        }
        // And the lines after it.
        if end < ls.len() {
            lemma_segments_nonempty(ls, end, Seq::empty());
            lemma_join_concat(head, segment_texts(rest), nl);
            lemma_join_concat(prose + table_lines, ls.skip(end), nl);
            assert(prose + ls.skip(at) =~= (prose + table_lines) + ls.skip(end));
        } else {
            assert(rest =~= Seq::<SegmentView>::empty());
            assert(segment_texts(segs) =~= head);
            assert(prose + ls.skip(at) =~= prose + table_lines);
        }
    }
}

/// Splitting loses nothing and moves nothing: the text the segments stand
/// for, one after another, is the text's lines, in order.
pub proof fn lemma_split_keeps_text(source: Seq<char>)
    ensures
        join(segment_texts(table_segments(source)), seq!['\n']) == join(lines(source), seq!['\n']),
{
    lemma_segments_keep_text(lines(source), 0, Seq::empty());
    assert(Seq::<Seq<char>>::empty() + lines(source).skip(0) =~= lines(source));
}

/// Finds GitHub-flavoured tables in agent prose so they can travel as tables.
pub struct MarkdownTables;

impl MarkdownTables {
    const MAX_ROWS: usize = 200;

    /// The prose in order, with each table lifted into its own segment. A
    /// table is a header row, a delimiter row of dashes directly beneath it,
    /// and the rows that follow while they still look like rows; the delimiter
    /// is what decides, because prose is full of pipes.
    pub fn split(source: &str) -> (segments: Vec<Segment>)
        ensures
            segments_view(segments@) == table_segments(source@),
    {
        let text = chars_of(source);
        let ls = split_lines(&text);
        let ghost l = ls.deep_view();
        let mut segments: Vec<Segment> = Vec::new();
        let mut prose: Vec<Vec<char>> = Vec::new();
        let mut at: usize = 0;
        assert(prose.deep_view() =~= Seq::<Seq<char>>::empty());
        assert(segments_view(segments@) =~= Seq::<SegmentView>::empty());
        assert(segments_view(segments@) + segments_from(l, 0, prose.deep_view()) =~= segments_from(
            l,
            0,
            Seq::empty(),
        ));
        while at < ls.len()
            invariant
                at <= ls.len(),
                l == ls.deep_view(),
                l == lines(source@),
                segments_view(segments@) + segments_from(l, at as int, prose.deep_view())
                    == table_segments(source@),
            decreases ls.len() - at,
        {
            let header = &ls[at];
            proof {
                assert(l[at as int] =~= ls[at as int]@);
            }
            let table = at + 1 < ls.len() && Self::is_row(header) && Self::is_delimiter(
                &ls[at + 1],
            );
            proof {
                if at + 1 < ls.len() {
                    assert(l[at + 1] =~= ls[at + 1]@);
                }
            }
            let columns = if table {
                Self::cells(header)
            } else {
                Vec::new()
            };
            if !table || columns.len() == 0 {
                let line = slice_of(header, 0, header.len());
                let ghost before = prose.deep_view();
                prose.push(line);
                proof {
                    assert(header@.subrange(0, header@.len() as int) =~= header@);
                    assert(prose[prose.len() - 1].deep_view() =~= l[at as int]);
                    assert(prose.deep_view() =~= before.push(l[at as int]));
                }
                at += 1;
                continue;
            }
            let width = columns.len();
            let mut rows: Vec<Vec<Vec<char>>> = Vec::new();
            let mut row = at + 2;
            proof {
                lemma_row_run_bound(l, at + 2, max_rows());
            }
            while row < ls.len() && Self::is_row(&ls[row]) && rows.len() < Self::MAX_ROWS
                invariant
                    at + 2 <= row <= ls.len(),
                    l == ls.deep_view(),
                    width == cells(l[at as int]).len(),
                    rows.len() == row - (at + 2),
                    rows.len() <= 200,
                    row_run(l, at + 2, max_rows()) == rows.len() + row_run(
                        l,
                        row as int,
                        (200 - rows.len()) as nat,
                    ),
                    forall|i: int|
                        0 <= i < rows.len() ==> #[trigger] rows[i].deep_view() == fit(
                            cells(l[at + 2 + i]),
                            width as nat,
                        ),
                decreases ls.len() - row,
            {
                proof {
                    assert(l[row as int] =~= ls[row as int]@);
                }
                let fitted = Self::fit(Self::cells(&ls[row]), width);
                rows.push(fitted);
                row += 1;
            }
            proof {
                if row < ls.len() {
                    assert(l[row as int] =~= ls[row as int]@);
                }
                assert(row_run(l, row as int, (200 - rows.len()) as nat) == 0);
            }
            let ghost p0 = prose.deep_view();
            let ghost s0 = segments@;
            if prose.len() > 0 {
                let newline: [char; 1] = ['\n'];
                assert(newline@ =~= seq!['\n']);
                let joined = join_parts(&prose, &newline);
                segments.push(Segment::Prose(string_of(&joined)));
                prose = Vec::new();
                assert(segments_view(segments@) =~= segments_view(s0) + flushed(p0));
            } else {
                assert(segments_view(segments@) =~= segments_view(s0) + flushed(p0));
            }
            assert(prose.deep_view() =~= Seq::<Seq<char>>::empty());
            let ghost before_table = segments@;
            let source_lines = copy_runs(&ls, at, row);
            let newline: [char; 1] = ['\n'];
            assert(newline@ =~= seq!['\n']);
            let source_text = join_parts(&source_lines, &newline);
            let column_strings = to_strings(&columns);
            let mut row_strings: Vec<Vec<String>> = Vec::new();
            let mut k: usize = 0;
            while k < rows.len()
                invariant
                    k <= rows.len(),
                    row_strings.len() == k,
                    forall|i: int| 0 <= i < k ==> strs(#[trigger] row_strings@[i]@) == rows[i].deep_view(),
                decreases rows.len() - k,
            {
                row_strings.push(to_strings(&rows[k]));
                k += 1;
            }
            segments.push(
                Segment::Table { columns: column_strings, rows: row_strings, source: string_of(&source_text) },
            );
            proof {
                let n = row_run(l, at + 2, max_rows());
                assert(n == rows.len());
                let expected_rows = Seq::new(n, |i: int| fit(cells(l[at + 2 + i]), width as nat));
                assert(Seq::new(row_strings@.len(), |i: int| strs(row_strings@[i]@)) =~= expected_rows);
                let t = SegmentView::Table {
                    columns: cells(l[at as int]),
                    rows: expected_rows,
                    source: join(l.subrange(at as int, at + 2 + n), seq!['\n']),
                };
                assert(segments@.last()@ == t);
                assert(segments_view(segments@) =~= segments_view(before_table).push(t));
                assert(starts_table(l, at as int));
                assert(segments_from(l, at as int, p0) == flushed(p0) + seq![t] + segments_from(
                    l,
                    at + 2 + n,
                    Seq::empty(),
                ));
                assert(segments_view(segments@) + segments_from(l, row as int, prose.deep_view())
                    =~= segments_view(s0) + segments_from(l, at as int, p0));
            }
            at = row;
        }
        proof {
            assert(segments_view(segments@) + flushed(prose.deep_view()) == table_segments(source@));
        }
        if prose.len() > 0 {
            let newline: [char; 1] = ['\n'];
            assert(newline@ =~= seq!['\n']);
            let joined = join_parts(&prose, &newline);
            let ghost before = segments@;
            segments.push(Segment::Prose(string_of(&joined)));
            assert(segments_view(segments@) =~= segments_view(before) + flushed(prose.deep_view()));
        } else {
            assert(segments_view(segments@) + flushed(prose.deep_view()) =~= segments_view(segments@));
        }
        segments
    }

    /// A line that could be a row: it has a pipe and something else.
    fn is_row(line: &[char]) -> (row: bool)
        ensures
            row == is_row(line@),
    {
        has_char(line, '|') && trimmed(line).len() > 1
    }

    /// A delimiter row, `| --- | :--: |` and its variants, judged cell by cell
    /// so a row whose text merely contains a dash is not mistaken for one.
    fn is_delimiter(line: &[char]) -> (delimiter: bool)
        ensures
            delimiter == is_delimiter(line@),
    {
        if !has_char(line, '-') {
            return false;
        }
        let found = Self::cells(line);
        if found.len() == 0 {
            return false;
        }
        let mut i: usize = 0;
        while i < found.len()
            invariant
                i <= found.len(),
                found.deep_view() == cells(line@),
                forall|j: int| 0 <= j < i ==> is_dashes(#[trigger] cells(line@)[j]),
            decreases found.len() - i,
        {
            proof {
                assert(found.deep_view()[i as int] =~= found[i as int]@);
            }
            if !Self::is_dashes(&found[i]) {
                return false;
            }
            i += 1;
        }
        true
    }

    /// Dashes, with optional alignment colons at either end.
    fn is_dashes(cell: &[char]) -> (dashes: bool)
        ensures
            dashes == is_dashes(cell@),
    {
        let mut lo: usize = 0;
        assert(cell@.skip(0) =~= cell@);
        while lo < cell.len() && cell[lo] == ':'
            invariant
                lo <= cell.len(),
                strip_colons_start(cell@) == strip_colons_start(cell@.skip(lo as int)),
            decreases cell.len() - lo,
        {
            assert(cell@.skip(lo as int).drop_first() =~= cell@.skip(lo + 1));
            lo += 1;
        }
        let mut hi: usize = cell.len();
        let ghost start = cell@.skip(lo as int);
        assert(lo < cell.len() ==> start[0] == cell@[lo as int]);
        assert(strip_colons_start(start) == start);
        assert(cell@.subrange(lo as int, cell.len() as int) =~= start);
        while hi > lo && cell[hi - 1] == ':'
            invariant
                lo <= hi <= cell.len(),
                start == cell@.skip(lo as int),
                strip_colons_end(start) == strip_colons_end(cell@.subrange(lo as int, hi as int)),
            decreases hi,
        {
            assert(cell@.subrange(lo as int, hi as int).drop_last() =~= cell@.subrange(
                lo as int,
                hi - 1,
            ));
            hi -= 1;
        }
        let ghost body = cell@.subrange(lo as int, hi as int);
        assert(hi > lo ==> body.last() == cell@[hi - 1]);
        assert(strip_colons_end(body) == body);
        assert(strip_colons_end(strip_colons_start(cell@)) == body);
        if hi == lo {
            return false;
        }
        let mut i = lo;
        while i < hi
            invariant
                lo <= i <= hi <= cell.len(),
                body == cell@.subrange(lo as int, hi as int),
                forall|j: int| 0 <= j < i - lo ==> body[j] == '-',
                strip_colons_end(strip_colons_start(cell@)) == body,
            decreases hi - i,
        {
            if cell[i] != '-' {
                proof {
                    assert(body[i - lo] == cell@[i as int]);
                    let b = strip_colons_end(strip_colons_start(cell@));
                    assert(b[i - lo] != '-');
                    assert(!(forall|j: int| 0 <= j < b.len() ==> b[j] == '-'));
                }
                return false;
            }
            i += 1;
        }
        true
    }

    /// The cells of a row with the outer pipes dropped, trimmed and with
    /// their backticks gone. Scanned rather than split, because `\|` is an
    /// escaped pipe inside a cell.
    fn cells(line: &[char]) -> (out: Vec<Vec<char>>)
        ensures
            out.deep_view() == cells(line@),
    {
        let mut raw: Vec<Vec<char>> = Vec::new();
        let mut cell: Vec<char> = Vec::new();
        let mut i: usize = 0;
        assert(line@.skip(0) =~= line@);
        assert(raw.deep_view() + raw_cells(line@, cell@) =~= raw_cells(line@, Seq::empty()));
        while i < line.len()
            invariant
                i <= line.len(),
                raw.deep_view() + raw_cells(line@.skip(i as int), cell@) == raw_cells(
                    line@,
                    Seq::empty(),
                ),
            decreases line.len() - i,
        {
            let ghost rest = line@.skip(i as int);
            let ghost before = raw.deep_view();
            let c = line[i];
            assert(rest[0] == c);
            if c == '\\' && i + 1 < line.len() && line[i + 1] == '|' {
                assert(rest[1] == '|');
                assert(rest.skip(2) =~= line@.skip(i + 2));
                cell.push('|');
                i += 2;
                continue;
            }
            assert(rest.drop_first() =~= line@.skip(i + 1));
            if c == '|' {
                let done = slice_of(&cell, 0, cell.len());
                raw.push(done);
                proof {
                    assert(cell@.subrange(0, cell@.len() as int) =~= cell@);
                    assert(raw[raw.len() - 1].deep_view() =~= cell@);
                    assert(raw.deep_view() =~= before.push(cell@));
                    assert(raw.deep_view() + raw_cells(line@.skip(i + 1), Seq::empty()) =~= before
                        + (seq![cell@] + raw_cells(rest.drop_first(), Seq::empty())));
                }
                cell = Vec::new();
            } else {
                cell.push(c);
            }
            i += 1;
        }
        let ghost before = raw.deep_view();
        raw.push(cell);
        proof {
            assert(line@.skip(i as int) =~= Seq::<char>::empty());
            assert(raw.deep_view() =~= raw_cells(line@, Seq::empty())) by {
                assert(raw[raw.len() - 1].deep_view() =~= raw[raw.len() - 1]@);
                assert(raw.deep_view() =~= before.push(raw[raw.len() - 1]@));
            }
        }
        let ghost all = raw.deep_view();
        let mut lo: usize = 0;
        if raw.len() > 0 && trimmed(&raw[0]).len() == 0 {
            proof {
                assert(all[0] =~= raw[0]@);
            }
            lo = 1;
        } else {
            proof {
                if raw.len() > 0 {
                    assert(all[0] =~= raw[0]@);
                }
            }
        }
        let ghost a = all.skip(lo as int);
        assert(lo == 1 ==> a =~= all.drop_first());
        assert(lo == 0 ==> a =~= all);
        let mut hi: usize = raw.len();
        if hi > lo && trimmed(&raw[hi - 1]).len() == 0 {
            proof {
                assert(all[hi - 1] =~= raw[hi - 1]@);
                assert(a.last() == all[hi - 1]);
            }
            hi -= 1;
        } else {
            proof {
                if hi > lo {
                    assert(all[hi - 1] =~= raw[hi - 1]@);
                    assert(a.last() == all[hi - 1]);
                }
            }
        }
        let ghost kept = all.subrange(lo as int, hi as int);
        assert(kept =~= outer_trimmed(all));
        let mut out: Vec<Vec<char>> = Vec::new();
        let mut k = lo;
        while k < hi
            invariant
                lo <= k <= hi <= raw.len(),
                all == raw.deep_view(),
                kept == all.subrange(lo as int, hi as int),
                out.len() == k - lo,
                forall|j: int| 0 <= j < k - lo ==> #[trigger] out[j]@ == without_ticks(trim(kept[j])),
            decreases hi - k,
        {
            let t = trimmed(&raw[k]);
            proof {
                assert(all[k as int] =~= raw[k as int]@);
                assert(kept[k - lo] == all[k as int]);
            }
            out.push(Self::flatten(&t));
            k += 1;
        }
        proof {
            assert forall|j: int| 0 <= j < out.len() implies out.deep_view()[j] == cells(line@)[j] by {
                assert(out.deep_view()[j] =~= out[j]@);
            }
            assert(out.deep_view() =~= cells(line@));
        }
        out
    }

    /// A cell as the words it renders as: inline code unwrapped.
    fn flatten(cell: &[char]) -> (out: Vec<char>)
        ensures
            out@ == without_ticks(cell@),
    {
        let mut out: Vec<char> = Vec::new();
        let mut i: usize = 0;
        assert(cell@.skip(0) =~= cell@);
        assert(out@ + without_ticks(cell@) =~= without_ticks(cell@));
        while i < cell.len()
            invariant
                i <= cell.len(),
                out@ + without_ticks(cell@.skip(i as int)) == without_ticks(cell@),
            decreases cell.len() - i,
        {
            let ghost rest = cell@.skip(i as int);
            let ghost before = out@;
            assert(rest[0] == cell[i as int]);
            assert(rest.drop_first() =~= cell@.skip(i + 1));
            if cell[i] != '`' {
                out.push(cell[i]);
                assert(out@ + without_ticks(cell@.skip(i + 1)) =~= before + (seq![cell[i as int]]
                    + without_ticks(rest.drop_first())));
            }
            i += 1;
        }
        assert(cell@.skip(i as int) =~= Seq::<char>::empty());
        assert(out@ + Seq::<char>::empty() =~= out@);
        out
    }

    /// A row padded or trimmed to the header's width, so the table stays
    /// square.
    fn fit(cells: Vec<Vec<char>>, width: usize) -> (out: Vec<Vec<char>>)
        ensures
            out.deep_view() == fit(cells.deep_view(), width as nat),
    {
        let mut out: Vec<Vec<char>> = Vec::new();
        let mut i: usize = 0;
        while i < width
            invariant
                i <= width,
                out.len() == i,
                forall|j: int|
                    0 <= j < i ==> #[trigger] out[j]@ == (if j < cells.len() {
                        cells[j]@
                    } else {
                        Seq::<char>::empty()
                    }),
            decreases width - i,
        {
            if i < cells.len() {
                out.push(slice_of(&cells[i], 0, cells[i].len()));
                assert(cells[i as int]@.subrange(0, cells[i as int]@.len() as int) =~= cells[i as int]@);
            } else {
                out.push(Vec::new());
            }
            i += 1;
        }
        proof {
            assert forall|j: int| 0 <= j < out.len() implies out.deep_view()[j] == fit(
                cells.deep_view(),
                width as nat,
            )[j] by {
                assert(out.deep_view()[j] =~= out[j]@);
                if j < cells.len() {
                    assert(cells.deep_view()[j] =~= cells[j]@);
                }
            }
            assert(out.deep_view() =~= fit(cells.deep_view(), width as nat));
        }
        out
    }
}

} // verus!
