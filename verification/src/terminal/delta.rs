//! Successive reads of a pane, turned back into the stream they came from.
//!
//! A backend that publishes no bytes can still be read, and each read returns
//! the last N lines rather than what changed. Two consecutive reads overlap,
//! and the overlap says where one ends and the next begins. When the overlap
//! cannot be found the join is unknown, and this never splices.
use vstd::prelude::*;
use crate::text::{
    chars_of, ends_with, has_prefix, join, join_parts, lines, slice_of, split_lines, starts_with,
    same_chars, string_of,
};

verus! {

/// What a read added to what was already seen.
#[derive(Debug, Clone, PartialEq, Eq)]
pub enum Advance {
    /// The new text, which is empty when nothing was produced.
    Appended(String),
    /// The overlap is gone: the caller must say so rather than join two pieces
    /// of output that were never adjacent.
    Jumped,
}

/// An advance as values.
pub enum AdvanceView {
    Appended(Seq<char>),
    Jumped,
}

impl View for Advance {
    type V = AdvanceView;

    open spec fn view(&self) -> AdvanceView {
        match self {
            Advance::Appended(text) => AdvanceView::Appended(text@),
            Advance::Jumped => AdvanceView::Jumped,
        }
    }
}

/// The last `k` held lines are the first `k` fresh ones.
pub open spec fn overlaps(held: Seq<Seq<char>>, fresh: Seq<Seq<char>>, k: int) -> bool {
    held.skip(held.len() - k) == fresh.take(k)
}

/// The longest overlap of at most `k` lines, or zero when none of at least one
/// line exists.
pub open spec fn longest_overlap(held: Seq<Seq<char>>, fresh: Seq<Seq<char>>, k: int) -> int
    decreases k,
{
    if k <= 0 {
        0
    } else if overlaps(held, fresh, k) {
        k
    } else {
        longest_overlap(held, fresh, k - 1)
    }
}

pub open spec fn min(a: int, b: int) -> int {
    if a <= b {
        a
    } else {
        b
    }
}

/// What the lines after the longest overlap add, as text, or `None` when the
/// two reads share no line at the join.
pub open spec fn rejoined(held: Seq<char>, text: Seq<char>) -> Option<Seq<char>> {
    let h = lines(held);
    let f = lines(text);
    let k = longest_overlap(h, f, min(h.len() as int, f.len() as int));
    if k == 0 {
        None
    } else {
        let after = f.skip(k);
        if after.len() == 0 {
            Some(Seq::empty())
        } else if text.len() > 0 && text.last() == '\n' {
            Some(join(after, seq!['\n']) + seq!['\n'])
        } else {
            Some(join(after, seq!['\n']))
        }
    }
}

/// What a read of `text` reports after `held` was last seen.
pub open spec fn advanced(held: Seq<char>, text: Seq<char>) -> AdvanceView {
    if held.len() == 0 {
        AdvanceView::Appended(text)
    } else if has_prefix(text, held) {
        AdvanceView::Appended(text.skip(held.len() as int))
    } else {
        match rejoined(held, text) {
            Some(added) => AdvanceView::Appended(added),
            None => AdvanceView::Jumped,
        }
    }
}

proof fn lemma_longest_overlap(h: Seq<Seq<char>>, f: Seq<Seq<char>>, k: int)
    requires
        0 <= k,
    ensures
        0 <= longest_overlap(h, f, k) <= k,
        longest_overlap(h, f, k) > 0 ==> overlaps(h, f, longest_overlap(h, f, k)),
        forall|m: int| longest_overlap(h, f, k) < m <= k ==> !overlaps(h, f, m),
    decreases k,
{
    if k > 0 && !overlaps(h, f, k) {
        lemma_longest_overlap(h, f, k - 1);
    }
}

/// A read that slid past what was held reports only what is new: the lines
/// it shares with the end of the held read, as many as possible and at least
/// one, are not reported again, and every line after them is, in order, with
/// the read's own final line break.
pub proof fn lemma_rejoin_reports_only_fresh_lines(held: Seq<char>, text: Seq<char>)
    requires
        held.len() > 0,
        !has_prefix(text, held),
        advanced(held, text) is Appended,
    ensures
        ({
            let h = lines(held);
            let f = lines(text);
            exists|j: int|
                1 <= j <= h.len() && j <= f.len() && h.skip(h.len() - j) == #[trigger] f.take(j) && (forall|m: int|
                    j < m <= h.len() && m <= f.len() ==> h.skip(h.len() - m) != f.take(m)) && advanced(held, text)
                    == AdvanceView::Appended(
                    if j == f.len() {
                        Seq::<char>::empty()
                    } else if text.len() > 0 && text.last() == '\n' {
                        join(f.skip(j), seq!['\n']) + seq!['\n']
                    } else {
                        join(f.skip(j), seq!['\n'])
                    },
                )
        }),
{
    let h = lines(held);
    let f = lines(text);
    let top = min(h.len() as int, f.len() as int);
    lemma_longest_overlap(h, f, top);
    let k = longest_overlap(h, f, top);
    assert(k > 0);
    assert(f.take(k) == h.skip(h.len() - k));
    assert(f.skip(k).len() == 0 <==> k == f.len());
    assert(forall|m: int| k < m <= h.len() && m <= f.len() ==> h.skip(h.len() - m) != f.take(m)) by {
        assert forall|m: int| k < m <= h.len() && m <= f.len() implies h.skip(h.len() - m) != f.take(m) by {
            assert(!overlaps(h, f, m));
        }
    }
    assert(rejoined(held, text) == Some(
        if k == f.len() {
            Seq::<char>::empty()
        } else if text.len() > 0 && text.last() == '\n' {
            join(f.skip(k), seq!['\n']) + seq!['\n']
        } else {
            join(f.skip(k), seq!['\n'])
        },
    ));
    assert(h.skip(h.len() - k) == f.take(k));
}

/// Successive reads of a pane, turned back into the stream they came from.
pub struct OutputDelta {
    held: String,
}

impl OutputDelta {
    /// The text of the last read.
    pub closed spec fn held(&self) -> Seq<char> {
        self.held@
    }

    pub fn new() -> (delta: Self)
        ensures
            delta.held() == Seq::<char>::empty(),
    {
        OutputDelta { held: String::new() }
    }

    /// What this read added. Whatever it reports, the read becomes the text the
    /// next one is compared against, so a jump resynchronises rather than
    /// jumping for ever.
    pub fn advance(&mut self, text: &str) -> (advance: Advance)
        ensures
            advance@ == advanced(old(self).held(), text@),
            final(self).held() == text@,
    {
        let held = chars_of(self.held.as_str());
        let fresh = chars_of(text);
        if held.len() == 0 {
            self.held = string_of(&fresh);
            return Advance::Appended(string_of(&fresh));
        }
        if starts_with(&fresh, &held) {
            let rest = slice_of(&fresh, held.len(), fresh.len());
            self.held = string_of(&fresh);
            return Advance::Appended(string_of(&rest));
        }
        let joined = Self::rejoin(&held, &fresh);
        self.held = string_of(&fresh);
        match joined {
            Some(added) => Advance::Appended(string_of(&added)),
            None => Advance::Jumped,
        }
    }

    /// Whether the last `k` held lines equal the first `k` fresh ones.
    fn agree(held: &Vec<Vec<char>>, fresh: &Vec<Vec<char>>, k: usize) -> (same: bool)
        requires
            k <= held.len(),
            k <= fresh.len(),
        ensures
            same == overlaps(held.deep_view(), fresh.deep_view(), k as int),
    {
        let base = held.len() - k;
        let mut j: usize = 0;
        while j < k
            invariant
                k <= held.len(),
                k <= fresh.len(),
                base == held.len() - k,
                j <= k,
                forall|i: int| 0 <= i < j ==> held.deep_view()[base + i] == fresh.deep_view()[i],
            decreases k - j,
        {
            if !same_chars(&held[base + j], &fresh[j]) {
                proof {
                    assert(held.deep_view()[base + j] =~= held[base + j as int]@);
                    assert(fresh.deep_view()[j as int] =~= fresh[j as int]@);
                    assert(held.deep_view().skip(base as int)[j as int] != fresh.deep_view().take(
                        k as int,
                    )[j as int]);
                }
                return false;
            }
            proof {
                assert(held.deep_view()[base + j] =~= held[base + j as int]@);
                assert(fresh.deep_view()[j as int] =~= fresh[j as int]@);
            }
            j += 1;
        }
        assert(held.deep_view().skip(base as int) =~= fresh.deep_view().take(k as int));
        true
    }

    /// How much of the held text is still visible at the start of a new read:
    /// the longest run of held lines that ends the held text and starts the new
    /// one. Longest first, so a screen that repeats itself rejoins on the
    /// longest agreement rather than the first coincidence.
    fn rejoin(held: &Vec<char>, text: &Vec<char>) -> (added: Option<Vec<char>>)
        ensures
            match added {
                Some(a) => rejoined(held@, text@) == Some(a@),
                None => rejoined(held@, text@) is None,
            },
    {
        let held_lines = split_lines(held);
        let fresh = split_lines(text);
        let longest = if held_lines.len() <= fresh.len() {
            held_lines.len()
        } else {
            fresh.len()
        };
        let ghost h = held_lines.deep_view();
        let ghost f = fresh.deep_view();
        let mut overlap = longest;
        while overlap > 0
            invariant
                overlap <= longest,
                longest == min(h.len() as int, f.len() as int),
                h == held_lines.deep_view(),
                f == fresh.deep_view(),
                h == lines(held@),
                f == lines(text@),
                longest_overlap(h, f, longest as int) == longest_overlap(h, f, overlap as int),
            decreases overlap,
        {
            if Self::agree(&held_lines, &fresh, overlap) {
                let mut after: Vec<Vec<char>> = Vec::new();
                let mut i = overlap;
                while i < fresh.len()
                    invariant
                        overlap <= i <= fresh.len(),
                        after.deep_view() == f.subrange(overlap as int, i as int),
                        f == fresh.deep_view(),
                    decreases fresh.len() - i,
                {
                    let line = slice_of(&fresh[i], 0, fresh[i].len());
                    let ghost before = after.deep_view();
                    after.push(line);
                    proof {
                        assert(fresh[i as int]@.subrange(0, fresh[i as int].len() as int) =~= fresh[i as int]@);
                        assert(after[after.len() - 1].deep_view() =~= fresh[i as int]@);
                        assert(f[i as int] =~= fresh[i as int]@);
                        assert(after.deep_view() =~= before.push(f[i as int]));
                        assert(f.subrange(overlap as int, i + 1) =~= f.subrange(overlap as int, i as int).push(f[i as int]));
                    }
                    i += 1;
                }
                assert(f.subrange(overlap as int, f.len() as int) =~= f.skip(overlap as int));
                if after.len() == 0 {
                    return Some(Vec::new());
                }
                let newline: [char; 1] = ['\n'];
                let mut added = join_parts(&after, &newline);
                assert(newline@ =~= seq!['\n']);
                if ends_with(text, &newline) {
                    added.push('\n');
                    proof {
                        assert(text@.skip(text@.len() - 1)[0] == text@.last());
                    }
                } else {
                    proof {
                        if text@.len() > 0 && text@.last() == '\n' {
                            assert(text@.skip(text@.len() - 1) =~= seq!['\n']);
                        }
                    }
                }
                return Some(added);
            }
            overlap -= 1;
        }
        None
    }
}

impl Default for OutputDelta {
    fn default() -> (delta: Self)
        ensures
            delta.held() == Seq::<char>::empty(),
    {
        Self::new()
    }
}

/// Output that only grew since the last read comes back as exactly what was
/// added: the common case, answered exactly.
pub proof fn lemma_delta_extends(held: Seq<char>, added: Seq<char>)
    ensures
        advanced(held, held + added) == AdvanceView::Appended(added),
{
    if held.len() > 0 {
        assert((held + added).take(held.len() as int) =~= held);
        assert((held + added).skip(held.len() as int) =~= added);
    }
}

/// A read is reported as `Jumped` exactly when something was held, the new
/// read does not extend it, and no line of it survives at the join: the join
/// is unknown and is never guessed.
pub proof fn lemma_delta_jumps_only_without_overlap(held: Seq<char>, text: Seq<char>)
    ensures
        (advanced(held, text) == AdvanceView::Jumped) <==> (held.len() > 0 && !has_prefix(
            text,
            held,
        ) && rejoined(held, text) is None),
{
}


/// A read is reported as `Jumped` exactly when something was held, the read
/// does not extend it, and not one line at the end of the held read starts
/// the new one: however many lines are tried, none lines up.
pub proof fn lemma_jumped_means_no_shared_line(held: Seq<char>, text: Seq<char>)
    ensures
        ({
            let h = lines(held);
            let f = lines(text);
            (advanced(held, text) == AdvanceView::Jumped) <==> (held.len() > 0 && !has_prefix(text, held) && forall|j: int|
                1 <= j <= h.len() && j <= f.len() ==> h.skip(h.len() - j) != #[trigger] f.take(j))
        }),
{
    let h = lines(held);
    let f = lines(text);
    let top = min(h.len() as int, f.len() as int);
    lemma_longest_overlap(h, f, top);
    let k = longest_overlap(h, f, top);
    if k > 0 {
        assert(h.skip(h.len() - k) == f.take(k));
    } else {
        assert forall|j: int| 1 <= j <= h.len() && j <= f.len() implies h.skip(h.len() - j) != #[trigger] f.take(j) by {
            assert(!overlaps(h, f, j));
        }
    }
}

} // verus!
