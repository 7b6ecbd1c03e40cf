//! A question an agent has on screen and nowhere else.
//!
//! A permission prompt is never written to the records: the tool call is,
//! but the request to allow it is drawn, answered and gone. So the only way to
//! know a person is being asked is to read what the agent is showing them.
//!
//! Both shapes an agent draws are the same shape underneath: a line asking
//! something, then rows numbered from one. That is why one detector covers a
//! permission prompt and a picker.
//!
//! Conservative by construction: every rule below is a reason to return
//! nothing. A false negative leaves a person answering at the machine, which
//! is where they were already; a false positive puts a question on somebody's
//! phone that their keystrokes cannot answer.
use vstd::prelude::*;
use crate::terminal::picker::ScreenChrome;
use crate::text::{
    chars_of, has_prefix, index_of, is_whitespace, lemma_index_of_bounds, lines, occurs, occurs_in,
    split_lines, string_of, trim, trim_start, trimmed, trimmed_start,
};
use crate::transcript::question::{Ask, AskView, OptionView, QuestionOption};

verus! {

/// Rows the detector considers. A picker deeper than this is one it does not
/// recognise, and guessing at it would answer the wrong row.
pub const MAX_ROWS: usize = 9;

/// How far above the first row to look for what is being asked: the prompt
/// sits directly above the options, separated by at most a blank line.
pub const PROMPT_WITHIN: usize = 3;

/// A row as it is read: its label, and its description, where an empty one
/// marks a row a blank line closed.
pub type Row = (Seq<char>, Option<Seq<char>>);

/// The Unicode block a harness draws its frames from.
pub open spec fn is_box_drawing(c: char) -> bool {
    0x2500 <= (c as u32) <= 0x257f
}

/// Where the first box-drawing character is, or the length.
pub open spec fn first_box(s: Seq<char>) -> int
    decreases s.len(),
{
    if s.len() == 0 {
        0
    } else if is_box_drawing(s[0]) {
        0
    } else {
        1 + first_box(s.drop_first())
    }
}

/// The part of a row that is the option, not the pane drawn beside it: cut
/// at the box drawing rather than at a column, because where the pane starts
/// depends on the width of the terminal.
pub open spec fn before_preview(row: Seq<char>) -> Seq<char> {
    row.take(first_box(row))
}

/// How many copies of `c` a text starts with.
pub open spec fn leading_run(s: Seq<char>, c: char) -> nat
    decreases s.len(),
{
    if s.len() == 0 || s[0] != c {
        0
    } else {
        1 + leading_run(s.drop_first(), c)
    }
}

pub open spec fn is_digit(c: char) -> bool {
    '0' <= c <= '9'
}

/// The value of a run of decimal digits.
pub open spec fn digits_value(s: Seq<char>) -> nat
    decreases s.len(),
{
    if s.len() == 0 {
        0
    } else {
        digits_value(s.drop_last()) * 10 + ((s.last() as u32) - ('0' as u32)) as nat
    }
}

/// `usize::from_str`: an optional `+` and at least one digit, the value
/// fitting a `usize`.
pub open spec fn parsed_number(s: Seq<char>) -> Option<nat> {
    let body = number_body(s);
    if body.len() > 0 && all_digits(body) && digits_value(body) <= usize::MAX {
        Some(digits_value(body))
    } else {
        None
    }
}

/// A number's digits: what follows an optional `+`.
pub open spec fn number_body(s: Seq<char>) -> Seq<char> {
    if s.len() > 0 && s[0] == '+' { s.drop_first() } else { s }
}

pub open spec fn all_digits(s: Seq<char>) -> bool {
    forall|i: int| 0 <= i < s.len() ==> is_digit(#[trigger] s[i])
}

/// Every character of `s` is `c`.
pub open spec fn all_are(s: Seq<char>, c: char) -> bool {
    forall|i: int| 0 <= i < s.len() ==> #[trigger] s[i] == c
}

/// A numbered row, such as `❯ 1. Yes` or `  2. No`: the number and the label,
/// or `None` for any other line.
pub open spec fn numbered(line: Seq<char>, cursor: char) -> Option<(nat, Seq<char>)> {
    let t0 = trim_start(line);
    let text = trim_start(t0.skip(leading_run(t0, cursor) as int));
    let dot = index_of(text, '.');
    if dot >= text.len() {
        None
    } else {
        match parsed_number(text.take(dot)) {
            None => None,
            Some(n) => {
                let label = trim(before_preview(text.skip(dot + 1)));
                if label.len() == 0 { None } else { Some((n, label)) }
            },
        }
    }
}

pub proof fn lemma_first_box_is(s: Seq<char>, k: int)
    requires
        0 <= k <= s.len(),
        forall|j: int| 0 <= j < k ==> !is_box_drawing(#[trigger] s[j]),
        k == s.len() || is_box_drawing(s[k]),
    ensures
        first_box(s) == k,
    decreases k,
{
    if k > 0 {
        assert forall|j: int| 0 <= j < k - 1 implies !is_box_drawing(#[trigger] s.drop_first()[j]) by {
            assert(s.drop_first()[j] == s[j + 1]);
        }
        if k < s.len() {
            assert(s.drop_first()[k - 1] == s[k]);
        }
        lemma_first_box_is(s.drop_first(), k - 1);
    }
}

pub proof fn lemma_leading_run_is(s: Seq<char>, c: char, k: int)
    requires
        0 <= k <= s.len(),
        forall|j: int| 0 <= j < k ==> #[trigger] s[j] == c,
        k == s.len() || s[k] != c,
    ensures
        leading_run(s, c) == k,
    decreases k,
{
    if k > 0 {
        assert forall|j: int| 0 <= j < k - 1 implies #[trigger] s.drop_first()[j] == c by {
            assert(s.drop_first()[j] == s[j + 1]);
        }
        if k < s.len() {
            assert(s.drop_first()[k - 1] == s[k]);
        }
        lemma_leading_run_is(s.drop_first(), c, k - 1);
    }
}

/// A longer run of digits is worth at least as much.
pub proof fn lemma_digits_grow(s: Seq<char>, k: int)
    requires
        0 <= k <= s.len(),
        forall|i: int| 0 <= i < s.len() ==> is_digit(#[trigger] s[i]),
    ensures
        digits_value(s.take(k)) <= digits_value(s),
    decreases s.len() - k,
{
    if k < s.len() {
        lemma_digits_grow(s, k + 1);
        assert(s.take(k + 1).drop_last() =~= s.take(k));
        assert(is_digit(s[k]));
        assert(s.take(k + 1).last() == s[k]);
        assert(digits_value(s.take(k + 1)) == digits_value(s.take(k)) * 10 + ((s[k] as u32) - ('0' as u32)) as nat);
    } else {
        assert(s.take(k) =~= s);
    }
}

/// A rule, or a line that is only the harness's own box drawing.
pub open spec fn is_furniture(line: Seq<char>, rule: char) -> bool {
    trim(line).len() > 0 && all_are(trim(line), rule)
}

/// Whether a line below `last_row` starts with the cursor glyph: the
/// harness's input line is on screen, so the rows are scrollback.
pub open spec fn composer_below(lines: Seq<Seq<char>>, last_row: int, cursor: char) -> bool {
    exists|j: int| last_row < j < lines.len() && has_prefix(trim_start(#[trigger] lines[j]), seq![cursor])
}

/// The question, from the nearest line at most `PROMPT_WITHIN` above the
/// rows that is neither blank nor a rule, trimmed; looking `k` lines up and
/// beyond.
pub open spec fn prompt_from(lines: Seq<Seq<char>>, first_row: int, k: int, rule: char) -> Option<Seq<char>>
    decreases PROMPT_WITHIN + 1 - k,
{
    if k > PROMPT_WITHIN || first_row - k < 0 {
        None
    } else {
        let t = trim(lines[first_row - k]);
        if t.len() > 0 && !is_furniture(t, rule) { Some(t) } else { prompt_from(lines, first_row, k + 1, rule) }
    }
}

/// The newest row closed: a blank line ends it, marked by an empty
/// description when it had none.
pub open spec fn closed_row(rows: Seq<Row>) -> Seq<Row> {
    if rows.len() == 0 {
        rows
    } else {
        let r = rows.last();
        rows.update(rows.len() - 1, (r.0, if r.1 is Some { r.1 } else { Some(Seq::empty()) }))
    }
}

/// An indented line under a row taken as that row's description, wrapped;
/// nothing for a row a blank line closed.
pub open spec fn absorbed(rows: Seq<Row>, line: Seq<char>) -> Seq<Row> {
    let text = trim(line);
    if text.len() == 0 || rows.len() == 0 {
        rows
    } else {
        let r = rows.last();
        match r.1 {
            Some(d) => if d.len() == 0 {
                rows
            } else {
                rows.update(rows.len() - 1, (r.0, Some(d + seq![' '] + text)))
            },
            None => rows.update(rows.len() - 1, (r.0, Some(text))),
        }
    }
}

/// Where a scan of the screen's lines has got to.
pub struct Scan {
    pub first: Option<int>,
    pub last: int,
    pub rows: Seq<Row>,
    pub closed: bool,
}

/// The scan from line `i` on, or `None` where a list runs past `MAX_ROWS`.
///
/// Rows are numbered from one and consecutive: the number pressed is the row
/// selected, so a gap would select the wrong one. A rule closes the list, and
/// so does a second list further down. A line under a row is its
/// description; a blank one closes the row.
pub open spec fn scan(lines: Seq<Seq<char>>, cursor: char, rule: char, i: int, st: Scan) -> Option<Scan>
    decreases lines.len() - i,
{
    if i < 0 || i >= lines.len() {
        Some(st)
    } else {
        let line = lines[i];
        if st.first is Some && is_furniture(line, rule) {
            Some(Scan { closed: true, ..st })
        } else {
            match numbered(line, cursor) {
                None => {
                    let next = if st.first is Some && trim(line).len() > 0 {
                        Scan { rows: absorbed(st.rows, line), ..st }
                    } else if st.first is Some {
                        Scan { rows: closed_row(st.rows), ..st }
                    } else {
                        st
                    };
                    scan(lines, cursor, rule, i + 1, next)
                },
                Some((n, label)) => if n != st.rows.len() + 1 {
                    if st.first is Some { Some(st) } else { scan(lines, cursor, rule, i + 1, st) }
                } else if st.rows.len() >= MAX_ROWS {
                    None
                } else {
                    scan(
                        lines,
                        cursor,
                        rule,
                        i + 1,
                        Scan {
                            first: if st.first is Some { st.first } else { Some(i) },
                            last: i,
                            rows: st.rows.push((label, None)),
                            ..st
                        },
                    )
                },
            }
        }
    }
}

/// The numbered rows, the line the first is on, and whether a rule closed
/// them; `None` without a list, with one too long, or with the harness's
/// input line below it.
pub open spec fn options_of(lines: Seq<Seq<char>>, cursor: char, rule: char) -> Option<(int, Seq<Row>, bool)> {
    match scan(lines, cursor, rule, 0, Scan { first: None, last: 0, rows: Seq::empty(), closed: false }) {
        None => None,
        Some(st) => match st.first {
            None => None,
            Some(at) => if composer_below(lines, st.last, cursor) { None } else { Some((at, st.rows, st.closed)) },
        },
    }
}

/// The options a person is offered: the free-text row lifted out when it
/// is, and the empty descriptions that only marked a closed row dropped.
pub open spec fn offered(rows: Seq<Row>, lifted: bool) -> Seq<OptionView> {
    let kept = if lifted { rows.drop_last() } else { rows };
    Seq::new(
        kept.len(),
        |i: int| OptionView {
            label: kept[i].0,
            description: if kept[i].1 == Some(Seq::<char>::empty()) { None } else { kept[i].1 },
        },
    )
}

/// What the agent on `screen` is asking, if it is asking anything.
///
/// The free-text row is lifted out of a list a rule closes, on a screen that
/// is not the side-by-side picker, when at least three rows remain to choose
/// from; it is never a choice, because tapping it opens the harness's own
/// field. A single option is no choice, and a list with nothing asking above
/// it is no question.
pub open spec fn detected(screen: Seq<char>, chrome_cursor: char, chrome_rule: char, preview_hint: Seq<char>) -> Option<AskView> {
    let ls = lines(screen);
    match options_of(ls, chrome_cursor, chrome_rule) {
        None => None,
        Some((first, rows, closed)) => {
            let lifted = !occurs_in(preview_hint, screen) && closed && rows.len() >= 3;
            let options = offered(rows, lifted);
            if options.len() < 2 {
                None
            } else {
                match prompt_from(ls, first, 1, chrome_rule) {
                    None => None,
                    Some(prompt) => Some(AskView {
                        header: None,
                        prompt,
                        options,
                        multi_select: false,
                        allows_free_text: lifted,
                    }),
                }
            }
        },
    }
}

/// A row being read, as values.
pub open spec fn opt_chars(o: Option<Vec<char>>) -> Option<Seq<char>> {
    match o {
        Some(v) => Some(v@),
        None => None,
    }
}

/// Rows being read, as values.
pub open spec fn rows_of(v: Seq<(Vec<char>, Option<Vec<char>>)>) -> Seq<Row> {
    v.map_values(|r: (Vec<char>, Option<Vec<char>>)| (r.0@, opt_chars(r.1)))
}

/// The first row a scan finds is a line of the screen.
pub proof fn lemma_first_row_on_screen(lines: Seq<Seq<char>>, cursor: char, rule: char)
    ensures
        options_of(lines, cursor, rule) matches Some((at, rows, closed)) ==> 0 <= at < lines.len(),
{
    lemma_scan_first(lines, cursor, rule, 0, Scan { first: None, last: 0, rows: Seq::empty(), closed: false });
}

pub proof fn lemma_scan_first(lines: Seq<Seq<char>>, cursor: char, rule: char, i: int, st: Scan)
    requires
        0 <= i,
        st.first matches Some(f) ==> 0 <= f < lines.len(),
    ensures
        scan(lines, cursor, rule, i, st) matches Some(end) ==> (end.first matches Some(f) ==> 0 <= f < lines.len()),
    decreases lines.len() - i,
{
    if i < lines.len() {
        let line = lines[i];
        if !(st.first is Some && is_furniture(line, rule)) {
            match numbered(line, cursor) {
                None => {
                    let next = if st.first is Some && trim(line).len() > 0 {
                        Scan { rows: absorbed(st.rows, line), ..st }
                    } else if st.first is Some {
                        Scan { rows: closed_row(st.rows), ..st }
                    } else {
                        st
                    };
                    lemma_scan_first(lines, cursor, rule, i + 1, next);
                },
                Some((n, label)) => {
                    if n != st.rows.len() + 1 {
                        if !(st.first is Some) {
                            lemma_scan_first(lines, cursor, rule, i + 1, st);
                        }
                    } else if st.rows.len() < MAX_ROWS {
                        lemma_scan_first(lines, cursor, rule, i + 1, Scan {
                            first: if st.first is Some { st.first } else { Some(i) },
                            last: i,
                            rows: st.rows.push((label, None)),
                            ..st
                        });
                    }
                },
            }
        }
    }
}

/// Reads what an agent is asking from what it draws.
pub struct PromptDetector {
    /// What the harness draws its picker with.
    pub chrome: ScreenChrome,
}

fn is_box(c: char) -> (b: bool)
    ensures
        b == is_box_drawing(c),
{
    0x2500 <= (c as u32) && (c as u32) <= 0x257f
}

/// Where the first box-drawing character is, or the length.
fn box_at(row: &[char]) -> (k: usize)
    ensures
        k == first_box(row@),
        k <= row@.len(),
{
    let mut i: usize = 0;
    while i < row.len() && !is_box(row[i])
        invariant
            i <= row@.len(),
            forall|j: int| 0 <= j < i ==> !is_box_drawing(#[trigger] row@[j]),
        decreases row@.len() - i,
    {
        i = i + 1;
    }
    proof {
        lemma_first_box_is(row@, i as int);
    }
    i
}

/// How many copies of `c` the text starts with.
fn leading(s: &[char], c: char) -> (k: usize)
    ensures
        k == leading_run(s@, c),
        k <= s@.len(),
{
    let mut i: usize = 0;
    while i < s.len() && s[i] == c
        invariant
            i <= s@.len(),
            forall|j: int| 0 <= j < i ==> #[trigger] s@[j] == c,
        decreases s@.len() - i,
    {
        i = i + 1;
    }
    proof {
        lemma_leading_run_is(s@, c, i as int);
    }
    i
}

/// `usize::from_str` on a run of characters.
pub(crate) fn parse_number(s: &[char]) -> (n: Option<usize>)
    ensures
        match n {
            Some(v) => parsed_number(s@) == Some(v as nat),
            None => parsed_number(s@) is None,
        },
{
    let start: usize = if s.len() > 0 && s[0] == '+' { 1 } else { 0 };
    let ghost body = number_body(s@);
    proof {
        assert(body =~= s@.skip(start as int));
    }
    if start >= s.len() {
        return None;
    }
    let mut value: usize = 0;
    let mut i: usize = start;
    while i < s.len()
        invariant
            start <= i <= s@.len(),
            body == s@.skip(start as int),
            body == number_body(s@),
            forall|j: int| 0 <= j < i - start ==> is_digit(#[trigger] body[j]),
            value as nat == digits_value(body.take(i - start)),
        decreases s@.len() - i,
    {
        let c = s[i];
        if !('0' <= c && c <= '9') {
            proof {
                assert(body[i - start] == c);
                assert(!is_digit(body[i - start]));
                assert(!all_digits(body));
                assert(parsed_number(s@) is None);
            }
            return None;
        }
        let d = (c as u32 - '0' as u32) as usize;
        proof {
            assert(body.take(i - start + 1).drop_last() =~= body.take(i - start));
            assert(body[i - start] == c);
        }
        if value > (usize::MAX - d) / 10 {
            proof {
                assert(value * 10 + d > usize::MAX) by (nonlinear_arith)
                    requires
                        value > (usize::MAX - d) / 10,
                        d <= 9;
                assert(digits_value(body.take(i - start + 1)) == digits_value(body.take(i - start)) * 10 + d);
                if all_digits(body) {
                    lemma_digits_grow(body, i - start + 1);
                }
                assert(parsed_number(s@) is None);
            }
            return None;
        }
        proof {
            assert(value * 10 + d <= usize::MAX) by (nonlinear_arith)
                requires
                    value <= (usize::MAX - d) / 10,
                    d <= 9;
        }
        value = value * 10 + d;
        proof {
            assert(digits_value(body.take(i - start + 1)) == digits_value(body.take(i - start)) * 10 + d);
        }
        i = i + 1;
    }
    proof {
        assert(body.take(i - start) =~= body);
    }
    Some(value)
}

impl PromptDetector {
    /// A detector for a harness somebody has measured: every value in the
    /// chrome describes what one harness draws.
    pub fn new(chrome: ScreenChrome) -> (d: PromptDetector)
        ensures
            d.chrome == chrome,
    {
        PromptDetector { chrome }
    }

    /// A numbered row's number and label.
    pub fn numbered(&self, line: &[char]) -> (row: Option<(usize, Vec<char>)>)
        ensures
            match row {
                Some((n, label)) => numbered(line@, self.chrome.cursor) == Some((n as nat, label@)),
                None => numbered(line@, self.chrome.cursor) is None,
            },
    {
        let t0 = trimmed_start(line);
        let skip = leading(t0.as_slice(), self.chrome.cursor);
        let after = crate::text::slice_of(t0.as_slice(), skip, t0.len());
        let text = trimmed_start(after.as_slice());
        let mut dot: usize = 0;
        while dot < text.len() && text[dot] != '.'
            invariant
                dot <= text@.len(),
                forall|j: int| 0 <= j < dot ==> text@[j] != '.',
            decreases text@.len() - dot,
        {
            dot = dot + 1;
        }
        proof {
            crate::text::lemma_index_of_is(text@, '.', dot as int);
        }
        if dot >= text.len() {
            return None;
        }
        let digits = crate::text::slice_of(text.as_slice(), 0, dot);
        let number = match parse_number(digits.as_slice()) {
            Some(n) => n,
            None => {
                return None;
            },
        };
        let rest = crate::text::slice_of(text.as_slice(), dot + 1, text.len());
        let cut = box_at(rest.as_slice());
        let before = crate::text::slice_of(rest.as_slice(), 0, cut);
        let label = trimmed(before.as_slice());
        proof {
            assert(rest@.take(cut as int) =~= before@);
            assert(digits@ =~= text@.take(dot as int));
            assert(rest@ =~= text@.skip(dot + 1));
        }
        if label.len() == 0 {
            return None;
        }
        Some((number, label))
    }

    /// Whether a line below `last_row` starts with the cursor glyph.
    pub fn composer_below(&self, lines: &Vec<Vec<char>>, last_row: usize) -> (b: bool)
        ensures
            b == composer_below(lines.deep_view(), last_row as int, self.chrome.cursor),
    {
        let mut j: usize = last_row;
        while lines.len() > 0 && j < lines.len() - 1
            invariant
                last_row <= j,
                forall|k: int| last_row < k <= j && k < lines.deep_view().len()
                    ==> !has_prefix(trim_start(#[trigger] lines.deep_view()[k]), seq![self.chrome.cursor]),
            decreases lines@.len() - j,
        {
            j = j + 1;
            let t = trimmed_start(lines[j].as_slice());
            proof {
                assert(lines.deep_view()[j as int] == lines@[j as int]@);
            }
            if t.len() > 0 && t[0] == self.chrome.cursor {
                proof {
                    assert(t@.take(1) =~= seq![self.chrome.cursor]);
                    assert(has_prefix(trim_start(lines.deep_view()[j as int]), seq![self.chrome.cursor]));
                }
                return true;
            }
            proof {
                if t@.len() > 0 {
                    assert(t@.take(1)[0] == t@[0]);
                }
            }
        }
        false
    }

    /// The question, from the nearest line at most three above the rows that
    /// is neither blank nor a rule.
    pub fn prompt_above(&self, lines: &Vec<Vec<char>>, first_row: usize) -> (prompt: Option<Vec<char>>)
        requires
            first_row <= lines@.len(),
        ensures
            match prompt {
                Some(p) => prompt_from(lines.deep_view(), first_row as int, 1, self.chrome.rule) == Some(p@),
                None => prompt_from(lines.deep_view(), first_row as int, 1, self.chrome.rule) is None,
            },
    {
        let mut k: usize = 1;
        while k <= PROMPT_WITHIN && k <= first_row
            invariant
                1 <= k <= PROMPT_WITHIN + 1,
                first_row <= lines@.len(),
                prompt_from(lines.deep_view(), first_row as int, k as int, self.chrome.rule)
                    == prompt_from(lines.deep_view(), first_row as int, 1, self.chrome.rule),
            decreases PROMPT_WITHIN + 1 - k,
        {
            let t = trimmed(lines[first_row - k].as_slice());
            proof {
                assert(lines.deep_view()[first_row - k] == lines@[first_row - k]@);
            }
            if t.len() > 0 && !self.is_furniture(t.as_slice()) {
                return Some(t);
            }
            k = k + 1;
        }
        None
    }

    /// Stops the newest row taking any more description.
    fn close_row(rows: &mut Vec<(Vec<char>, Option<Vec<char>>)>)
        ensures
            rows_of(final(rows)@) == closed_row(rows_of(old(rows)@)),
    {
        let ghost before = rows_of(rows@);
        match rows.pop() {
            Some((label, description)) => {
                let description = match description {
                    Some(d) => Some(d),
                    None => Some(Vec::new()),
                };
                rows.push((label, description));
                proof {
                    assert(rows_of(rows@) =~= closed_row(before));
                }
            },
            None => {
                proof {
                    assert(rows_of(rows@) =~= before);
                }
            },
        }
    }

    /// An indented line under a row is that row's description, wrapped.
    fn absorb_continuation(rows: &mut Vec<(Vec<char>, Option<Vec<char>>)>, line: &[char])
        ensures
            rows_of(final(rows)@) == absorbed(rows_of(old(rows)@), line@),
    {
        let text = trimmed(line);
        if text.len() == 0 || rows.len() == 0 {
            return;
        }
        let ghost before = rows_of(rows@);
        let ghost t = text@;
        let (label, description) = rows.pop().unwrap();
        proof {
            assert(before.last() == (label@, opt_chars(description)));
        }
        let description = match description {
            Some(existing) => {
                if existing.len() == 0 {
                    Some(existing)
                } else {
                    let ghost e = existing@;
                    let mut joined = existing;
                    joined.push(' ');
                    let mut more = text;
                    joined.append(&mut more);
                    proof {
                        assert(joined@ =~= e + seq![' '] + t);
                    }
                    Some(joined)
                }
            },
            None => Some(text),
        };
        let ghost d = opt_chars(description);
        rows.push((label, description));
        proof {
            assert(rows_of(rows@) =~= before.update(before.len() - 1, (label@, d)));
            assert(rows_of(rows@) =~= absorbed(before, line@));
        }
    }

    /// The scan of the screen's lines, or `None` for a list past `MAX_ROWS`.
    fn scan_rows(&self, lines: &Vec<Vec<char>>) -> (found: Option<(Option<usize>, usize, Vec<(Vec<char>, Option<Vec<char>>)>, bool)>)
        ensures
            match found {
                Some((first, last, rows, closed)) => scan(
                    lines.deep_view(),
                    self.chrome.cursor,
                    self.chrome.rule,
                    0,
                    Scan { first: None, last: 0, rows: Seq::empty(), closed: false },
                ) == Some(Scan {
                    first: match first { Some(f) => Some(f as int), None => None },
                    last: last as int,
                    rows: rows_of(rows@),
                    closed,
                }),
                None => scan(
                    lines.deep_view(),
                    self.chrome.cursor,
                    self.chrome.rule,
                    0,
                    Scan { first: None, last: 0, rows: Seq::empty(), closed: false },
                ) is None,
            },
    {
        let ghost ls = lines.deep_view();
        let ghost whole = scan(ls, self.chrome.cursor, self.chrome.rule, 0, Scan { first: None, last: 0, rows: Seq::empty(), closed: false });
        let mut first: Option<usize> = None;
        let mut last: usize = 0;
        let mut rows: Vec<(Vec<char>, Option<Vec<char>>)> = Vec::new();
        let mut i: usize = 0;
        proof {
            assert(rows_of(rows@) =~= Seq::<Row>::empty());
        }
        while i < lines.len()
            invariant
                ls == lines.deep_view(),
                i <= lines@.len(),
                first is Some ==> first.unwrap() < i,
                last < i || (i == 0 && last == 0),
                rows@.len() <= MAX_ROWS,
                whole == scan(ls, self.chrome.cursor, self.chrome.rule, 0, Scan { first: None, last: 0, rows: Seq::empty(), closed: false }),
                whole == scan(ls, self.chrome.cursor, self.chrome.rule, i as int, Scan {
                    first: match first { Some(f) => Some(f as int), None => None },
                    last: last as int,
                    rows: rows_of(rows@),
                    closed: false,
                }),
            decreases lines@.len() - i,
        {
            let line = &lines[i];
            proof {
                assert(ls[i as int] == line@);
            }
            if first.is_some() && self.is_furniture(line.as_slice()) {
                return Some((first, last, rows, true));
            }
            match self.numbered(line.as_slice()) {
                None => {
                    if first.is_some() {
                        let t = trimmed(line.as_slice());
                        if t.len() > 0 {
                            Self::absorb_continuation(&mut rows, line.as_slice());
                        } else {
                            Self::close_row(&mut rows);
                        }
                    }
                },
                Some((number, label)) => {
                    if number != rows.len() + 1 {
                        if first.is_some() {
                            return Some((first, last, rows, false));
                        }
                    } else {
                        if rows.len() >= MAX_ROWS {
                            return None;
                        }
                        if first.is_none() {
                            first = Some(i);
                        }
                        last = i;
                        let ghost before = rows_of(rows@);
                        rows.push((label, None));
                        proof {
                            assert(rows_of(rows@) =~= before.push((label@, None)));
                        }
                    }
                },
            }
            i = i + 1;
        }
        Some((first, last, rows, false))
    }

    /// The numbered rows, the line the first is on, and whether a rule
    /// closed them.
    pub fn options(&self, lines: &Vec<Vec<char>>) -> (found: Option<(usize, Vec<(Vec<char>, Option<Vec<char>>)>, bool)>)
        ensures
            match found {
                Some((at, rows, closed)) => options_of(lines.deep_view(), self.chrome.cursor, self.chrome.rule)
                    == Some((at as int, rows_of(rows@), closed)),
                None => options_of(lines.deep_view(), self.chrome.cursor, self.chrome.rule) is None,
            },
    {
        let (first, last, rows, closed) = match self.scan_rows(lines) {
            Some(found) => found,
            None => {
                return None;
            },
        };
        let at = match first {
            Some(at) => at,
            None => {
                return None;
            },
        };
        if self.composer_below(lines, last) {
            return None;
        }
        Some((at, rows, closed))
    }

    /// Whether this is the picker that draws a preview beside its options,
    /// recognised by the notes affordance that belongs to the preview pane.
    pub fn is_side_by_side(&self, screen: &[char]) -> (b: bool)
        ensures
            b == occurs_in(self.chrome.preview_hint@, screen@),
    {
        let hint = chars_of(self.chrome.preview_hint.as_str());
        occurs(hint.as_slice(), screen)
    }

    /// What the agent is asking, if it is asking anything.
    pub fn detect(&self, screen: &str) -> (ask: Option<Ask>)
        ensures
            match ask {
                Some(a) => detected(screen@, self.chrome.cursor, self.chrome.rule, self.chrome.preview_hint@) == Some(a@),
                None => detected(screen@, self.chrome.cursor, self.chrome.rule, self.chrome.preview_hint@) is None,
            },
    {
        let chars = chars_of(screen);
        let lines = split_lines(chars.as_slice());
        let (first_row, mut rows, closed) = match self.options(&lines) {
            Some(found) => found,
            None => {
                return None;
            },
        };
        proof {
            crate::terminal::prompt::lemma_first_row_on_screen(lines.deep_view(), self.chrome.cursor, self.chrome.rule);
        }
        let lifted = !self.is_side_by_side(chars.as_slice()) && closed && rows.len() >= 3;
        let ghost all = rows_of(rows@);
        if lifted {
            rows.pop();
        }
        let ghost kept = if lifted { all.drop_last() } else { all };
        proof {
            assert(rows_of(rows@) =~= kept);
        }
        let mut options: Vec<QuestionOption> = Vec::new();
        let mut k: usize = 0;
        while k < rows.len()
            invariant
                k <= rows@.len(),
                rows_of(rows@) == kept,
                kept == (if lifted { all.drop_last() } else { all }),
                options@.len() == k,
                forall|j: int| 0 <= j < k ==> #[trigger] options@[j]@ == offered(all, lifted)[j],
            decreases rows@.len() - k,
        {
            let label = string_of(rows[k].0.as_slice());
            let description = match &rows[k].1 {
                Some(d) => if d.len() == 0 { None } else { Some(string_of(d.as_slice())) },
                None => None,
            };
            proof {
                assert(rows_of(rows@)[k as int] == (rows@[k as int].0@, opt_chars(rows@[k as int].1)));
                if rows@[k as int].1 is Some {
                    if rows@[k as int].1.unwrap()@.len() == 0 {
                        assert(rows@[k as int].1.unwrap()@ =~= Seq::<char>::empty());
                    }
                }
            }
            let option = QuestionOption { label, description };
            proof {
                assert(option@ == offered(all, lifted)[k as int]);
            }
            let ghost prior = options@;
            options.push(option);
            proof {
                assert forall|j: int| 0 <= j < k + 1 implies #[trigger] options@[j]@ == offered(all, lifted)[j] by {
                    if j < k {
                        assert(options@[j] == prior[j]);
                    }
                }
            }
            k = k + 1;
        }
        if options.len() < 2 {
            return None;
        }
        let prompt = match self.prompt_above(&lines, first_row) {
            Some(p) => p,
            None => {
                return None;
            },
        };
        let ask = Ask {
            header: None,
            prompt: string_of(prompt.as_slice()),
            options,
            multi_select: false,
            allows_free_text: lifted,
        };
        proof {
            assert(ask@.options =~= offered(all, lifted));
        }
        Some(ask)
    }

    /// Whether a line is a rule or only box drawing.
    pub fn is_furniture(&self, line: &[char]) -> (b: bool)
        ensures
            b == is_furniture(line@, self.chrome.rule),
    {
        let t = trimmed(line);
        if t.len() == 0 {
            return false;
        }
        let mut i: usize = 0;
        while i < t.len()
            invariant
                i <= t@.len(),
                t@ == trim(line@),
                forall|j: int| 0 <= j < i ==> #[trigger] t@[j] == self.chrome.rule,
            decreases t@.len() - i,
        {
            if t[i] != self.chrome.rule {
                proof {
                    assert(!(t@[i as int] == self.chrome.rule));
                    assert(!all_are(t@, self.chrome.rule));
                }
                return false;
            }
            i = i + 1;
        }
        true
    }
}

} // verus!
