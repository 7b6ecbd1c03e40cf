//! The cursors a transcript reader hands out: a record's byte offset in its
//! file, behind a prefix.
use vstd::prelude::*;
use crate::terminal::prompt::{all_digits, digits_value, is_digit, lemma_digits_grow, number_body};
use crate::terminal::relay::lemma_decimal_digits;
use crate::text::{chars_of, decimal_text, push_decimal, string_of};
use crate::transcript::turn::Turn;

verus! {

/// The prefix on every cursor a reader mints, so a cursor from some later
/// encoding is told apart from this one rather than read as a small number.
pub open spec fn cursor_prefix() -> char {
    'o'
}

/// The cursor for a record at `offset`.
pub open spec fn cursor_text(offset: u64) -> Seq<char> {
    seq![cursor_prefix()] + decimal_text(offset as nat)
}

/// `u64::from_str`: an optional `+` and at least one digit, the value
/// fitting a `u64`.
pub open spec fn u64_text(s: Seq<char>) -> Option<u64> {
    let body = number_body(s);
    if body.len() > 0 && all_digits(body) && digits_value(body) <= u64::MAX {
        Some(digits_value(body) as u64)
    } else {
        None
    }
}

/// The offset a cursor names, or nothing for a cursor this reader did not
/// mint.
pub open spec fn cursor_offset(cursor: Seq<char>) -> Option<u64> {
    if cursor.len() > 0 && cursor[0] == cursor_prefix() {
        u64_text(cursor.drop_first())
    } else {
        None
    }
}

pub proof fn lemma_first_at_or_after_bound(offsets: Seq<u64>, offset: u64, i: int)
    requires
        0 <= i,
    ensures
        first_at_or_after(offsets, offset, i) <= offsets.len(),
        i <= offsets.len() ==> i <= first_at_or_after(offsets, offset, i),
    decreases offsets.len() - i,
{
    if i < offsets.len() && offsets[i] < offset {
        lemma_first_at_or_after_bound(offsets, offset, i + 1);
    }
}

/// A cursor a reader minted reads back as the offset it was minted for.
pub proof fn lemma_cursor_round_trip(offset: u64)
    ensures
        cursor_offset(cursor_text(offset)) == Some(offset),
{
    lemma_decimal_digits(offset as nat);
    let c = cursor_text(offset);
    assert(c.drop_first() =~= decimal_text(offset as nat));
    assert(number_body(decimal_text(offset as nat)) == decimal_text(offset as nat));
}

/// Reads a whole count: an optional `+`, then digits, the value fitting a
/// `u64`.
fn parse_u64(s: &[char]) -> (n: Option<u64>)
    ensures
        n == u64_text(s@),
{
    let start: usize = if s.len() > 0 && s[0] == '+' { 1 } else { 0 };
    let ghost body = number_body(s@);
    proof {
        assert(body =~= s@.skip(start as int));
    }
    if start >= s.len() {
        return None;
    }
    let mut value: u64 = 0;
    let mut i: usize = start;
    while i < s.len()
        invariant
            start <= i <= s@.len(),
            body == s@.skip(start as int),
            body == number_body(s@),
            forall|j: int| 0 <= j < i - start ==> is_digit(#[trigger] body[j]),
            value as nat == digits_value(body.take(i - start)),
        decreases s@.len() - i,
    {
        let c = s[i];
        proof {
            assert(body[i - start] == c);
        }
        if !('0' <= c && c <= '9') {
            proof {
                assert(!is_digit(body[i - start]));
                assert(!all_digits(body));
            }
            return None;
        }
        let d = (c as u32 - '0' as u32) as u64;
        proof {
            assert(body.take(i - start + 1).drop_last() =~= body.take(i - start));
            assert(body.take(i - start + 1).last() == c);
            assert(digits_value(body.take(i - start + 1)) == digits_value(body.take(i - start)) * 10 + d);
        }
        if value > (u64::MAX - d) / 10 {
            proof {
                assert(value * 10 + d > u64::MAX) by (nonlinear_arith)
                    requires
                        value > (u64::MAX - d) / 10,
                        d <= 9;
                if all_digits(body) {
                    lemma_digits_grow(body, i - start + 1);
                }
            }
            return None;
        }
        proof {
            assert(value * 10 + d <= u64::MAX) by (nonlinear_arith)
                requires
                    value <= (u64::MAX - d) / 10,
                    d <= 9;
        }
        value = value * 10 + d;
        i = i + 1;
    }
    proof {
        assert(body.take(body.len() as int) =~= body);
    }
    Some(value)
}

/// The first turn at or after `offset`, counting from `i`: the turns are
/// indexed in file order, so everything before it starts earlier.
pub open spec fn first_at_or_after(offsets: Seq<u64>, offset: u64, i: int) -> int
    decreases offsets.len() - i,
{
    if i < 0 || i >= offsets.len() {
        offsets.len() as int
    } else if offsets[i] >= offset {
        i
    } else {
        first_at_or_after(offsets, offset, i + 1)
    }
}

/// Which turns a page asks for, as the range `floor..end` of the index: the
/// newest `limit` turns before the cursor, or before the end when there is
/// none; nothing when the cursor is not one this reader minted.
pub open spec fn page_range(offsets: Seq<u64>, before: Option<Seq<char>>, limit: u16) -> Option<(int, int)> {
    let end = match before {
        None => Some(offsets.len() as int),
        Some(c) => match cursor_offset(c) {
            Some(o) => Some(first_at_or_after(offsets, o, 0)),
            None => None,
        },
    };
    match end {
        Some(e) => Some((e - if (limit as int) < e { limit as int } else { e }, e)),
        None => None,
    }
}

/// How a page fills, newest turn first: each turn's encoded size, or none
/// for a turn that renders as nothing. A turn joins while the page stays
/// within `max` bytes, and the first turn always joins, or a page whose newest
/// turn is large would come back empty and the client would page forever.
/// The result is how many entries were looked at, the positions of those that
/// joined, and the bytes they take.
pub open spec fn budget_run(sizes: Seq<Option<usize>>, i: int, used: int, kept: Seq<int>, max: int) -> (int, Seq<int>, int)
    decreases sizes.len() - i,
{
    if i < 0 || i >= sizes.len() {
        (sizes.len() as int, kept, used)
    } else {
        match sizes[i] {
            None => budget_run(sizes, i + 1, used, kept, max),
            Some(size) => if kept.len() > 0 && used + size > max {
                (i, kept, used)
            } else {
                budget_run(sizes, i + 1, used + size, kept.push(i), max)
            },
        }
    }
}

/// A page within budget: the turns that joined take at most `max` bytes
/// unless only one joined, and none joined only when no turn from `i` on
/// renders as anything.
pub proof fn lemma_budget_fits(sizes: Seq<Option<usize>>, i: int, used: int, kept: Seq<int>, max: int)
    requires
        0 <= i,
        kept.len() == 0 ==> used == 0,
        kept.len() > 1 ==> used <= max,
    ensures
        budget_run(sizes, i, used, kept, max).1.len() >= kept.len(),
        budget_run(sizes, i, used, kept, max).1.len() > 1 ==> budget_run(sizes, i, used, kept, max).2 <= max,
        budget_run(sizes, i, used, kept, max).1.len() == 0 ==> forall|j: int| i <= j < sizes.len() ==> #[trigger] sizes[j] is None,
    decreases sizes.len() - i,
{
    if i < sizes.len() {
        match sizes[i] {
            None => lemma_budget_fits(sizes, i + 1, used, kept, max),
            Some(size) => if !(kept.len() > 0 && used + size > max) {
                lemma_budget_fits(sizes, i + 1, used + size, kept.push(i), max);
            },
        }
    }
}

/// A page's window as the sizes a budget is filled from, newest turn first:
/// each turn's encoded size, or none for a turn that renders as nothing. The
/// window itself runs oldest first.
pub open spec fn window_sizes(window: Seq<Option<(Turn, usize)>>) -> Seq<Option<usize>> {
    Seq::new(
        window.len(),
        |k: int|
            match window[window.len() - 1 - k] {
                Some(e) => Some(e.1),
                None => None,
            },
    )
}

/// How a page's window fills its budget of `max` bytes.
pub open spec fn window_run(window: Seq<Option<(Turn, usize)>>, max: int) -> (int, Seq<int>, int) {
    budget_run(window_sizes(window), 0, 0, Seq::empty(), max)
}

/// The turns a page carries, oldest first: those of its window that joined
/// the budget.
pub open spec fn page_items(window: Seq<Option<(Turn, usize)>>, max: int) -> Seq<Turn> {
    let kept = window_run(window, max).1;
    Seq::new(kept.len(), |j: int| (window[window.len() - 1 - kept[kept.len() - 1 - j]]->0).0)
}

/// Where a page ending at `end` starts: below the oldest turn it looked at
/// and kept going past.
pub open spec fn page_start(end: int, window: Seq<Option<(Turn, usize)>>, max: int) -> int {
    end - window_run(window, max).0
}

/// A page always carries a turn when its window renders one, and its turns
/// fit the budget unless it carries only one; it never carries more turns
/// than its window holds.
pub proof fn lemma_page_fits(window: Seq<Option<(Turn, usize)>>, max: int)
    ensures
        window_run(window, max).1.len() > 1 ==> window_run(window, max).2 <= max,
        window_run(window, max).1.len() == 0 ==> forall|k: int| 0 <= k < window.len() ==> #[trigger] window[k] is None,
        page_items(window, max).len() <= window.len(),
{
    let sizes = window_sizes(window);
    lemma_budget_fits(sizes, 0, 0, Seq::empty(), max);
    lemma_run_counts(sizes, 0, 0, Seq::empty(), max);
    assert forall|k: int| 0 <= k < window.len() && window_run(window, max).1.len() == 0 implies #[trigger] window[k] is None by {
        assert(sizes[window.len() - 1 - k] is None);
    }
}

proof fn lemma_run_counts(sizes: Seq<Option<usize>>, i: int, used: int, kept: Seq<int>, max: int)
    requires
        0 <= i <= sizes.len(),
        kept.len() <= i,
    ensures
        budget_run(sizes, i, used, kept, max).1.len() <= sizes.len(),
    decreases sizes.len() - i,
{
    if i < sizes.len() {
        match sizes[i] {
            None => lemma_run_counts(sizes, i + 1, used, kept, max),
            Some(size) => if !(kept.len() > 0 && used + size > max) {
                lemma_run_counts(sizes, i + 1, used + size, kept.push(i), max);
            },
        }
    }
}

/// A cursor as its view.
pub open spec fn cursor_view(before: Option<&str>) -> Option<Seq<char>> {
    match before {
        Some(c) => Some(c@),
        None => None,
    }
}

/// Whether `p` is the page of `window` ending at `end`: its turns newest
/// last, whether anything lies before it, and the cursor for the page before,
/// which exists when there is a turn at the page's start to name it by.
/// `oversized` says that the one turn it carries alone exceeds the budget.
pub open spec fn page_is(
    p: Page,
    oversized: bool,
    offsets: Seq<u64>,
    end: int,
    window: Seq<Option<(Turn, usize)>>,
    max: int,
) -> bool {
    let start = page_start(end, window, max);
    let run = window_run(window, max);
    &&& p.items@ == page_items(window, max)
    &&& p.has_earlier == (start > 0)
    &&& match p.next_before {
        Some(c) => 0 < start < offsets.len() && c@ == cursor_text(offsets[start]),
        None => start == 0 || start >= offsets.len(),
    }
    &&& oversized == (run.1.len() == 1 && run.2 > max)
}

/// One page of turns, oldest first, with the cursor for the page before it.
#[derive(Debug, Clone, PartialEq, Eq)]
pub struct Page {
    pub items: Vec<Turn>,
    pub next_before: Option<String>,
    pub has_earlier: bool,
}

/// Where a reader's cursors come from and how they are read back.
pub struct TranscriptReader;

impl TranscriptReader {
    /// The cursor for a record at `offset`.
    pub fn cursor_of(offset: u64) -> (cursor: String)
        ensures
            cursor@ == cursor_text(offset),
    {
        let mut out: Vec<char> = Vec::new();
        out.push('o');
        push_decimal(&mut out, offset);
        string_of(out.as_slice())
    }

    /// Where the first turn at or after `offset` sits in the index.
    pub fn position_before(offsets: &[u64], offset: u64) -> (at: usize)
        ensures
            at == first_at_or_after(offsets@, offset, 0),
    {
        let mut i: usize = 0;
        while i < offsets.len()
            invariant
                i <= offsets@.len(),
                first_at_or_after(offsets@, offset, i as int) == first_at_or_after(offsets@, offset, 0),
            decreases offsets@.len() - i,
        {
            if offsets[i] >= offset {
                return i;
            }
            i = i + 1;
        }
        i
    }

    /// The range of the index a page asks for, `floor..end`, or nothing when
    /// the cursor is stale: not one this reader minted.
    pub fn page_bounds(offsets: &[u64], before: Option<&str>, limit: u16) -> (range: Option<(usize, usize)>)
        ensures
            match range {
                Some((floor, end)) => page_range(offsets@, match before {
                    Some(c) => Some(c@),
                    None => None,
                }, limit) == Some((floor as int, end as int)),
                None => page_range(offsets@, match before {
                    Some(c) => Some(c@),
                    None => None,
                }, limit) is None,
            },
    {
        let end = match before {
            None => offsets.len(),
            Some(cursor) => match Self::offset_of(cursor) {
                Some(offset) => Self::position_before(offsets, offset),
                None => return None,
            },
        };
        proof {
            assert(first_at_or_after(offsets@, 0, 0) <= offsets@.len()) by {
                lemma_first_at_or_after_bound(offsets@, 0, 0);
            }
            if let Some(c) = before {
                if let Some(o) = cursor_offset(c@) {
                    lemma_first_at_or_after_bound(offsets@, o, 0);
                }
            }
        }
        let take: usize = if (limit as usize) < end { limit as usize } else { end };
        Some((end - take, end))
    }

    /// How a page fills, newest turn first, within `max` bytes: how many
    /// entries were looked at, the positions of those that joined, and the
    /// bytes they take. The first turn always joins.
    pub fn budget_take(sizes: &[Option<usize>], max: usize) -> (taken: (usize, Vec<usize>, usize))
        ensures
            ({
                let run = budget_run(sizes@, 0, 0, Seq::empty(), max as int);
                &&& taken.0 as int == run.0
                &&& taken.1@.map_values(|k: usize| k as int) == run.1
                &&& taken.2 as int == run.2
            }),
    {
        let mut kept: Vec<usize> = Vec::new();
        let mut used: usize = 0;
        let mut i: usize = 0;
        proof {
            assert(kept@.map_values(|k: usize| k as int) =~= Seq::<int>::empty());
        }
        while i < sizes.len()
            invariant
                i <= sizes@.len(),
                kept@.len() == 0 ==> used == 0,
                kept@.len() > 0 ==> used <= max || kept@.len() == 1,
                budget_run(sizes@, i as int, used as int, kept@.map_values(|k: usize| k as int), max as int)
                    == budget_run(sizes@, 0, 0, Seq::empty(), max as int),
            decreases sizes@.len() - i,
        {
            match sizes[i] {
                None => {},
                Some(size) => {
                    if kept.len() > 0 && (used > max || size > max - used) {
                        return (i, kept, used);
                    }
                    let ghost before = kept@;
                    kept.push(i);
                    proof {
                        assert(kept@.map_values(|k: usize| k as int) =~= before.map_values(|k: usize| k as int).push(
                            i as int,
                        ));
                    }
                    used = used + size;
                },
            }
            i = i + 1;
        }
        (i, kept, used)
    }

    /// One page, newest last, ending strictly before `before`: at most `limit`
    /// turns, and within `max` bytes unless its newest turn alone is larger,
    /// as a page must always carry one turn or the client would page forever.
    /// `window` is the turns of the range `page_bounds` gives, oldest first,
    /// each with its encoded size, or none for a turn that renders as nothing.
    /// Nothing for a cursor this reader did not mint. The flag says that the
    /// page's one turn alone exceeds `max`, and is to be shrunk.
    pub fn page_of(
        offsets: &[u64],
        before: Option<&str>,
        limit: u16,
        window: Vec<Option<(Turn, usize)>>,
        max: usize,
    ) -> (page: Option<(Page, bool)>)
        requires
            page_range(offsets@, cursor_view(before), limit) is Some ==> window@.len() == (page_range(
                offsets@,
                cursor_view(before),
                limit,
            )->0).1 - (page_range(offsets@, cursor_view(before), limit)->0).0,
        ensures
            match page {
                None => page_range(offsets@, cursor_view(before), limit) is None,
                Some((p, oversized)) => page_range(offsets@, cursor_view(before), limit) is Some && page_is(
                    p,
                    oversized,
                    offsets@,
                    (page_range(offsets@, cursor_view(before), limit)->0).1,
                    window@,
                    max as int,
                ),
            },
    {
        let (floor, end) = match Self::page_bounds(offsets, before, limit) {
            Some(range) => range,
            None => return None,
        };
        let ghost w0 = window@;
        let ghost sizes = window_sizes(w0);
        let ghost mut kept: Seq<int> = Seq::empty();
        let mut window = window;
        let mut newest: Vec<Turn> = Vec::new();
        let mut used: usize = 0;
        let mut i: usize = 0;
        let n = window.len();
        let mut looked: usize = n;
        proof {
            lemma_budget_fits(sizes, 0, 0, Seq::empty(), max as int);
        }
        while i < n
            invariant_except_break
                n == w0.len(),
                sizes == window_sizes(w0),
                i <= n,
                window@ == w0.take(n - i),
                kept.len() == 0 ==> used == 0,
                kept.len() > 0 ==> used <= max || kept.len() == 1,
                budget_run(sizes, i as int, used as int, kept, max as int) == window_run(w0, max as int),
                newest@.len() == kept.len(),
                forall|j: int| 0 <= j < kept.len() ==> 0 <= #[trigger] kept[j] < i,
                forall|j: int| 0 <= j < kept.len() ==> newest@[j] == (w0[n - 1 - kept[j]]->0).0,
                looked == n,
            ensures
                window_run(w0, max as int) == (looked as int, kept, used as int),
                looked <= n,
                newest@.len() == kept.len(),
                forall|j: int| 0 <= j < kept.len() ==> 0 <= #[trigger] kept[j] < n,
                forall|j: int| 0 <= j < kept.len() ==> newest@[j] == (w0[n - 1 - kept[j]]->0).0,
            decreases n - i,
        {
            let entry = window.pop();
            proof {
                assert(w0.take(n - i).drop_last() =~= w0.take(n - i - 1));
                assert(sizes[i as int] == match w0[n - 1 - i] {
                    Some(e) => Some(e.1),
                    None => None,
                });
            }
            match entry {
                Some(Some((turn, size))) => {
                    if newest.len() > 0 && (used > max || size > max - used) {
                        looked = i;
                        break;
                    }
                    newest.push(turn);
                    proof {
                        kept = kept.push(i as int);
                    }
                    used = used + size;
                },
                _ => {},
            }
            i = i + 1;
        }
        let kept_count = newest.len();
        let ghost nw = newest@;
        let mut items: Vec<Turn> = Vec::new();
        let mut k: usize = 0;
        while k < kept_count
            invariant
                kept_count == nw.len(),
                k <= kept_count,
                newest@ == nw.take(kept_count - k),
                items@.len() == k,
                forall|j: int| 0 <= j < k ==> items@[j] == nw[kept_count - 1 - j],
            decreases kept_count - k,
        {
            proof {
                assert(nw.take(kept_count - k).drop_last() =~= nw.take(kept_count - k - 1));
            }
            match newest.pop() {
                Some(t) => items.push(t),
                None => {},
            }
            k = k + 1;
        }
        proof {
            assert(items@ =~= page_items(w0, max as int));
        }
        assert(n == end - floor);
        let start = end - looked;
        let has_earlier = start > 0;
        let next_before = if start == 0 || start >= offsets.len() {
            None
        } else {
            Some(Self::cursor_of(offsets[start]))
        };
        let oversized = kept_count == 1 && used > max;
        Some((Page { items, next_before, has_earlier }, oversized))
    }

    /// The cursor a page hands back for the next page up: the start of the
    /// oldest turn it carries, or nothing when it reaches the beginning.
    pub fn next_before(offsets: &[u64], start: usize) -> (cursor: Option<String>)
        requires
            start == 0 || start < offsets@.len(),
        ensures
            match cursor {
                Some(c) => start > 0 && c@ == cursor_text(offsets@[start as int]),
                None => start == 0,
            },
    {
        if start == 0 {
            None
        } else {
            Some(Self::cursor_of(offsets[start]))
        }
    }

    /// The offset a cursor names, or nothing for a cursor this reader did
    /// not mint.
    pub fn offset_of(cursor: &str) -> (offset: Option<u64>)
        ensures
            offset == cursor_offset(cursor@),
    {
        let v = chars_of(cursor);
        if v.len() == 0 || v[0] != 'o' {
            return None;
        }
        let rest = crate::text::slice_of(v.as_slice(), 1, v.len());
        proof {
            assert(rest@ =~= cursor@.drop_first());
        }
        parse_u64(rest.as_slice())
    }
}

} // verus!
