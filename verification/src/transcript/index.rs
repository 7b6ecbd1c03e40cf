//! Where every turn and every tool result sits in one session's file.
//!
//! Offsets only: a page seeks and reads the lines it needs, which is what
//! keeps a multi-megabyte session costing a page rather than a file. Reading
//! the file is the caller's; what each line read does to the index is here.
use vstd::prelude::*;
use crate::text::{chars_of, same_chars};
use crate::transcript::grouping::{joins_turn, TurnGrouping};
use crate::transcript::reader::first_at_or_after;
use crate::transcript::record::{answered_ids, record_blocks, Record};
use crate::transcript::span::RecordSpan;
use crate::transcript::turn_span::TurnSpan;

verus! {

/// The span recorded for a tool call's id: the one folded in last under it,
/// as a later answer to the same id replaces an earlier one.
pub open spec fn span_for(results: Seq<(Seq<char>, RecordSpan)>, id: Seq<char>) -> Option<RecordSpan>
    decreases results.len(),
{
    if results.len() == 0 {
        None
    } else if results.last().0 == id {
        Some(results.last().1)
    } else {
        span_for(results.drop_last(), id)
    }
}

/// Each of `ids` filed under the record at `span`, in the order they appear.
pub open spec fn answered_at(ids: Seq<Seq<char>>, span: RecordSpan) -> Seq<(Seq<char>, RecordSpan)> {
    ids.map_values(|id: Seq<char>| (id, span))
}

/// The offsets at which the turns start, in file order.
pub open spec fn turn_offsets(turns: Seq<(u64, Seq<RecordSpan>)>) -> Seq<u64> {
    turns.map_values(|t: (u64, Seq<RecordSpan>)| t.0)
}

/// The first turn starting after `offset`, counting from `i`.
pub open spec fn first_past(offsets: Seq<u64>, offset: u64, i: int) -> Option<u64>
    decreases offsets.len() - i,
{
    if i < 0 || i >= offsets.len() {
        None
    } else if offsets[i] > offset {
        Some(offsets[i])
    } else {
        first_past(offsets, offset, i + 1)
    }
}

/// What an index holds: how much of the file it has folded in, each turn's
/// first offset and the records it spans, the tool results filed by id in the
/// order they were read, how many lines were not records, the last record
/// folded in and whether the newest turn still accepts records.
pub struct IndexView {
    pub path: Seq<char>,
    pub indexed_len: u64,
    pub turns: Seq<(u64, Seq<RecordSpan>)>,
    pub results: Seq<(Seq<char>, RecordSpan)>,
    pub skipped: u64,
    pub last: Option<Record>,
    pub group_open: bool,
}

/// An index of the file at `path` with nothing folded in.
pub open spec fn empty_index(path: Seq<char>) -> IndexView {
    IndexView {
        path,
        indexed_len: 0,
        turns: Seq::empty(),
        results: Seq::empty(),
        skipped: 0,
        last: None,
        group_open: false,
    }
}

/// Whether `r`, read after the index's last record, continues it.
pub open spec fn continues(s: IndexView, r: Record) -> bool {
    match s.last {
        Some(previous) => joins_turn(previous, r),
        None => false,
    }
}

/// What one line read from the file does to the index.
///
/// A line that is no record is counted and changes nothing else. A record is
/// filed under every tool call it answers. It then joins the newest turn when
/// it continues the record before it and that turn is still open; otherwise
/// it opens a turn of its own when it yields one, and when it does not, the
/// newest turn accepts no later record.
pub open spec fn consumed(s: IndexView, record: Option<Record>, span: RecordSpan, yields: bool) -> IndexView {
    match record {
        None => IndexView { skipped: (s.skipped + 1) as u64, ..s },
        Some(r) => {
            let results = s.results + answered_at(answered_ids(record_blocks(r)), span);
            if continues(s, r) && s.group_open {
                let turns = if s.turns.len() > 0 {
                    s.turns.update(s.turns.len() - 1, (s.turns.last().0, s.turns.last().1.push(span)))
                } else {
                    s.turns
                };
                IndexView { turns, results, last: Some(r), ..s }
            } else if yields {
                IndexView {
                    turns: s.turns.push((span.offset, seq![span])),
                    results,
                    last: Some(r),
                    group_open: true,
                    ..s
                }
            } else {
                IndexView { results, last: Some(r), group_open: false, ..s }
            }
        },
    }
}

proof fn lemma_span_for_appended(base: Seq<(Seq<char>, RecordSpan)>, ids: Seq<Seq<char>>, span: RecordSpan, id: Seq<char>)
    requires
        ids.contains(id),
    ensures
        span_for(base + answered_at(ids, span), id) == Some(span),
    decreases ids.len(),
{
    let all = base + answered_at(ids, span);
    assert(all.last() == (ids.last(), span));
    if ids.last() != id {
        let j = choose|j: int| 0 <= j < ids.len() && ids[j] == id;
        assert(ids.drop_last()[j] == id);
        assert(all.drop_last() =~= base + answered_at(ids.drop_last(), span));
        lemma_span_for_appended(base, ids.drop_last(), span, id);
    }
}

/// A record read into the index is found again under every tool call it
/// answers, whatever it did to the turns.
pub proof fn lemma_answer_found(s: IndexView, r: Record, span: RecordSpan, yields: bool, id: Seq<char>)
    requires
        answered_ids(record_blocks(r)).contains(id),
    ensures
        span_for(consumed(s, Some(r), span, yields).results, id) == Some(span),
{
    lemma_span_for_appended(s.results, answered_ids(record_blocks(r)), span, id);
}

/// Turns stay in file order when lines are read in file order: a line read
/// after every turn's start leaves the turns' starts ascending.
pub proof fn lemma_turns_stay_ordered(s: IndexView, record: Option<Record>, span: RecordSpan, yields: bool)
    requires
        forall|i: int, j: int| 0 <= i < j < s.turns.len() ==> s.turns[i].0 < s.turns[j].0,
        forall|i: int| 0 <= i < s.turns.len() ==> s.turns[i].0 < span.offset,
    ensures
        ({
            let t = consumed(s, record, span, yields).turns;
            forall|i: int, j: int| 0 <= i < j < t.len() ==> t[i].0 < t[j].0
        }),
{
}

/// Where every turn and every tool result sits in one session's file.
pub struct TranscriptIndex {
    path: String,
    indexed_len: u64,
    turns: Vec<TurnSpan>,
    results: Vec<(String, RecordSpan)>,
    skipped: u64,
    last: Option<Record>,
    group_open: bool,
}

impl View for TranscriptIndex {
    type V = IndexView;

    closed spec fn view(&self) -> IndexView {
        IndexView {
            path: self.path@,
            indexed_len: self.indexed_len,
            turns: self.turns@.map_values(|t: TurnSpan| (t.offset, t.records@)),
            results: self.results@.map_values(|p: (String, RecordSpan)| (p.0@, p.1)),
            skipped: self.skipped,
            last: self.last,
            group_open: self.group_open,
        }
    }
}

impl TranscriptIndex {
    /// An index of `path` with nothing folded in yet.
    pub fn open(path: String) -> (index: Self)
        ensures
            index@ == empty_index(path@),
    {
        let index = TranscriptIndex {
            path,
            indexed_len: 0,
            turns: Vec::new(),
            results: Vec::new(),
            skipped: 0,
            last: None,
            group_open: false,
        };
        proof {
            assert(index@.turns =~= Seq::<(u64, Seq<RecordSpan>)>::empty());
            assert(index@.results =~= Seq::<(Seq<char>, RecordSpan)>::empty());
        }
        index
    }

    /// The file this index is of.
    pub fn path(&self) -> (p: &str)
        ensures
            p@ == self@.path,
    {
        self.path.as_str()
    }

    /// The turns, in file order.
    pub fn turns(&self) -> (t: &[TurnSpan])
        ensures
            t@.map_values(|t: TurnSpan| (t.offset, t.records@)) == self@.turns,
    {
        self.turns.as_slice()
    }

    pub fn turn_count(&self) -> (n: usize)
        ensures
            n == self@.turns.len(),
    {
        self.turns.len()
    }

    /// How many lines were not records.
    pub fn skipped(&self) -> (n: u64)
        ensures
            n == self@.skipped,
    {
        self.skipped
    }

    /// How much of the file has been folded in.
    pub fn indexed_len(&self) -> (n: u64)
        ensures
            n == self@.indexed_len,
    {
        self.indexed_len
    }

    /// Where the record answering a tool call sits: the last one read for
    /// that id.
    pub fn result_span(&self, tool_use_id: &str) -> (span: Option<RecordSpan>)
        ensures
            span == span_for(self@.results, tool_use_id@),
    {
        let want = chars_of(tool_use_id);
        let mut i: usize = self.results.len();
        proof {
            assert(self@.results.take(i as int) =~= self@.results);
        }
        while i > 0
            invariant
                i <= self.results@.len(),
                span_for(self@.results.take(i as int), tool_use_id@) == span_for(self@.results, tool_use_id@),
                want@ == tool_use_id@,
            decreases i,
        {
            proof {
                assert(self@.results.take(i as int).drop_last() =~= self@.results.take(i - 1));
            }
            let key = chars_of(self.results[i - 1].0.as_str());
            if same_chars(key.as_slice(), want.as_slice()) {
                return Some(self.results[i - 1].1);
            }
            i = i - 1;
        }
        proof {
            assert(self@.results.take(0) =~= Seq::<(Seq<char>, RecordSpan)>::empty());
        }
        None
    }

    /// How many turns start before `offset`: where the first turn at or after
    /// it sits.
    pub fn position_before(&self, offset: u64) -> (at: usize)
        ensures
            at == first_at_or_after(turn_offsets(self@.turns), offset, 0),
    {
        let ghost offsets = turn_offsets(self@.turns);
        let mut i: usize = 0;
        while i < self.turns.len()
            invariant
                i <= self.turns@.len(),
                offsets == turn_offsets(self@.turns),
                offsets.len() == self.turns@.len(),
                first_at_or_after(offsets, offset, i as int) == first_at_or_after(offsets, offset, 0),
            decreases self.turns@.len() - i,
        {
            assert(offsets[i as int] == self.turns@[i as int].offset);
            if self.turns[i].offset >= offset {
                return i;
            }
            i = i + 1;
        }
        i
    }

    /// Whether a turn starts at `offset`.
    pub fn holds_offset(&self, offset: u64) -> (held: bool)
        ensures
            held == turn_offsets(self@.turns).contains(offset),
    {
        let ghost offsets = turn_offsets(self@.turns);
        let mut i: usize = 0;
        while i < self.turns.len()
            invariant
                i <= self.turns@.len(),
                offsets == turn_offsets(self@.turns),
                offsets.len() == self.turns@.len(),
                forall|j: int| 0 <= j < i ==> offsets[j] != offset,
            decreases self.turns@.len() - i,
        {
            assert(offsets[i as int] == self.turns@[i as int].offset);
            if self.turns[i].offset == offset {
                return true;
            }
            i = i + 1;
        }
        false
    }

    /// Where the first turn that starts after `offset` starts.
    pub fn first_after(&self, offset: u64) -> (next: Option<u64>)
        ensures
            next == first_past(turn_offsets(self@.turns), offset, 0),
    {
        let ghost offsets = turn_offsets(self@.turns);
        let mut i: usize = 0;
        while i < self.turns.len()
            invariant
                i <= self.turns@.len(),
                offsets == turn_offsets(self@.turns),
                offsets.len() == self.turns@.len(),
                first_past(offsets, offset, i as int) == first_past(offsets, offset, 0),
            decreases self.turns@.len() - i,
        {
            assert(offsets[i as int] == self.turns@[i as int].offset);
            if self.turns[i].offset > offset {
                return Some(self.turns[i].offset);
            }
            i = i + 1;
        }
        None
    }

    /// Where the newest turn starts.
    pub fn newest_offset(&self) -> (newest: Option<u64>)
        ensures
            newest == if self@.turns.len() > 0 { Some(self@.turns.last().0) } else { None },
    {
        if self.turns.len() > 0 {
            Some(self.turns[self.turns.len() - 1].offset)
        } else {
            None
        }
    }

    /// Forgets everything folded in: the file shrank, so the offsets held no
    /// longer point at what they pointed at.
    pub fn reset(&mut self)
        ensures
            final(self)@ == empty_index(old(self)@.path),
    {
        self.indexed_len = 0;
        self.turns = Vec::new();
        self.results = Vec::new();
        self.skipped = 0;
        self.last = None;
        self.group_open = false;
        proof {
            assert(self@.turns =~= Seq::<(u64, Seq<RecordSpan>)>::empty());
            assert(self@.results =~= Seq::<(Seq<char>, RecordSpan)>::empty());
        }
    }

    /// Where a refresh of a file now `length` bytes long starts reading, or
    /// nothing when the file has not changed length. A file shorter than what
    /// was folded in is read again from the start.
    pub fn begin_refresh(&mut self, length: u64) -> (from: Option<u64>)
        ensures
            length == old(self)@.indexed_len ==> from is None && final(self)@ == old(self)@,
            length < old(self)@.indexed_len ==> from == Some(0u64) && final(self)@ == empty_index(old(self)@.path),
            length > old(self)@.indexed_len ==> from == Some(old(self)@.indexed_len) && final(self)@ == old(self)@,
    {
        if length == self.indexed_len {
            return None;
        }
        if length < self.indexed_len {
            self.reset();
        }
        Some(self.indexed_len)
    }

    /// Marks the file folded in up to `offset`: a line still being written
    /// stays outside it, so the next refresh reads it whole.
    pub fn finish_refresh(&mut self, offset: u64)
        ensures
            final(self)@ == (IndexView { indexed_len: offset, ..old(self)@ }),
    {
        self.indexed_len = offset;
    }

    /// Folds in one line read at `span`: the record it held, or nothing when
    /// it was not one, and whether that record yields a turn of its own.
    pub fn consume(&mut self, record: Option<Record>, span: RecordSpan, yields: bool)
        requires
            record is None ==> old(self)@.skipped < u64::MAX,
        ensures
            final(self)@ == consumed(old(self)@, record, span, yields),
    {
        let r = match record {
            None => {
                self.skipped = self.skipped + 1;
                return;
            },
            Some(r) => r,
        };
        let ghost before = self@;
        let ids = r.answered_tool_ids();
        let mut k: usize = 0;
        while k < ids.len()
            invariant
                k <= ids@.len(),
                ids@.map_values(|s: String| s@) == answered_ids(record_blocks(r)),
                self@ == (IndexView {
                    results: before.results + answered_at(ids@.map_values(|s: String| s@).take(k as int), span),
                    ..before
                }),
                self@.path == old(self)@.path,
            decreases ids@.len() - k,
        {
            let ghost was = self.results@;
            self.results.push((ids[k].clone(), span));
            proof {
                let named = ids@.map_values(|s: String| s@);
                let f = |p: (String, RecordSpan)| (p.0@, p.1);
                assert(named.take(k + 1) =~= named.take(k as int).push(ids@[k as int]@));
                assert(answered_at(named.take(k + 1), span) =~= answered_at(named.take(k as int), span).push(
                    (ids@[k as int]@, span),
                ));
                assert(self.results@ == was.push((ids@[k as int], span)));
                assert(self.results@.map_values(f) =~= was.map_values(f).push((ids@[k as int]@, span)));
                assert(self@.results =~= before.results + answered_at(named.take(k + 1), span));
            }
            k = k + 1;
        }
        proof {
            assert(ids@.map_values(|s: String| s@).take(ids@.len() as int) =~= ids@.map_values(|s: String| s@));
        }
        let joins = match &self.last {
            Some(previous) => TurnGrouping::joins(previous, &r),
            None => false,
        };
        if joins && self.group_open {
            match self.turns.pop() {
                Some(mut newest) => {
                    let ghost held = newest.records@;
                    newest.records.push(span);
                    self.turns.push(newest);
                    proof {
                        assert(self@.turns =~= before.turns.update(
                            before.turns.len() - 1,
                            (before.turns.last().0, held.push(span)),
                        ));
                    }
                },
                None => {},
            }
        } else if yields {
            self.turns.push(TurnSpan::new(span));
            self.group_open = true;
            proof {
                assert(self@.turns =~= before.turns.push((span.offset, seq![span])));
            }
        } else {
            self.group_open = false;
        }
        self.last = Some(r);
    }
}

} // verus!
