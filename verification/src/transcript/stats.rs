//! What an agent is doing right now, from its own records.
use vstd::prelude::*;
use crate::text::{chars_of, has_prefix, starts_with, string_of};
use crate::transcript::content::ContentBlock;
use crate::transcript::record::{is_assistant_record, record_blocks, rfc3339_millis, Record, Timestamp};
use crate::transcript::usage::Usage;

verus! {

/// A model family's context window: every model id starting with `prefix`
/// has a window of `window` tokens. Matched by prefix because a model id
/// carries a date suffix the window does not change with.
#[derive(Debug, Clone, PartialEq, Eq)]
pub struct ModelWindow {
    pub prefix: String,
    pub window: u64,
}

/// The window of the first family in `table` whose prefix `model` starts
/// with. A model in no family reports no window at all rather than a
/// plausible wrong one: a bar drawn against a guess would tell somebody they
/// had room they did not have.
pub open spec fn window_in(model: Seq<char>, table: Seq<ModelWindow>, i: int) -> Option<u64>
    decreases table.len() - i,
{
    if i < 0 || i >= table.len() {
        None
    } else if has_prefix(model, table[i].prefix@) {
        Some(table[i].window)
    } else {
        window_in(model, table, i + 1)
    }
}

/// What an agent is doing right now.
#[derive(Debug, Clone, PartialEq, Eq)]
pub struct AgentStats {
    pub turn_started_at: Timestamp,
    pub tokens_in: u64,
    pub tokens_out: u64,
    pub tools: u32,
    pub context_used: u64,
    pub context_window: Option<u64>,
    pub model: Option<String>,
    /// The records carry no price and no pricing table is held: absent is
    /// the only honest answer.
    pub cost_micros: Option<u64>,
    pub activity: Option<String>,
}

/// A record's own moment.
pub open spec fn at_of(r: Record) -> Option<Timestamp> {
    match r.timestamp {
        Some(raw) => match rfc3339_millis(raw@) {
            Some(ms) => Some(Timestamp(ms)),
            None => None,
        },
        None => None,
    }
}

/// The last record in `rs[..n]` that is not the model's.
pub open spec fn last_spoken(rs: Seq<Record>, n: int) -> Option<int>
    decreases n,
{
    if n <= 0 {
        None
    } else if !is_assistant_record(rs[n - 1]) {
        Some(n - 1)
    } else {
        last_spoken(rs, n - 1)
    }
}

/// When the person last spoke, which is when this turn began; the first
/// record's moment when that one has none.
pub open spec fn turn_began_at(rs: Seq<Record>) -> Option<Timestamp> {
    let spoke = match last_spoken(rs, rs.len() as int) {
        Some(i) => at_of(rs[i]),
        None => None,
    };
    match spoke {
        Some(t) => Some(t),
        None => if rs.len() > 0 { at_of(rs[0]) } else { None },
    }
}

/// Whether anything in `rs[..n]` came from the model.
pub open spec fn from_model(rs: Seq<Record>, n: int) -> bool
    decreases n,
{
    if n <= 0 {
        false
    } else {
        is_assistant_record(rs[n - 1]) || from_model(rs, n - 1)
    }
}

/// A record's usage, zero when it carried none.
pub open spec fn usage_of(r: Record) -> Usage {
    match r.message {
        Some(m) => match m.usage {
            Some(u) => u,
            None => Usage { input_tokens: 0, output_tokens: 0, cache_written: 0, cache_read: 0 },
        },
        None => Usage { input_tokens: 0, output_tokens: 0, cache_written: 0, cache_read: 0 },
    }
}

pub open spec fn usage_empty(u: Usage) -> bool {
    u.input_tokens == 0 && u.output_tokens == 0 && u.cache_written == 0 && u.cache_read == 0
}

/// The last model record in `rs[..n]` that carried usage. Not a sum: a
/// harness repeats one request's usage on each of its blocks.
pub open spec fn last_usage(rs: Seq<Record>, n: int) -> Option<int>
    decreases n,
{
    if n <= 0 {
        None
    } else if is_assistant_record(rs[n - 1]) && !usage_empty(usage_of(rs[n - 1])) {
        Some(n - 1)
    } else {
        last_usage(rs, n - 1)
    }
}

/// How many tool calls the blocks hold.
pub open spec fn tool_uses(blocks: Seq<ContentBlock>) -> int
    decreases blocks.len(),
{
    if blocks.len() == 0 {
        0
    } else {
        tool_uses(blocks.drop_last()) + if blocks.last() is ToolUse { 1int } else { 0int }
    }
}

/// How many tool calls the records `rs[from..n]` hold.
pub open spec fn tool_calls(rs: Seq<Record>, from: int, n: int) -> int
    decreases n - from,
{
    if n <= from {
        0
    } else {
        tool_calls(rs, from, n - 1) + tool_uses(record_blocks(rs[n - 1]))
    }
}

/// The tool calls since the person last spoke, held at `u32::MAX`.
pub open spec fn calls_since_spoken(rs: Seq<Record>) -> u32 {
    let from = match last_spoken(rs, rs.len() as int) {
        Some(i) => i + 1,
        None => 0,
    };
    let n = tool_calls(rs, from, rs.len() as int);
    if n > u32::MAX { u32::MAX } else { n as u32 }
}

pub proof fn lemma_last_spoken_bounds(rs: Seq<Record>, n: int)
    requires
        n <= rs.len(),
    ensures
        last_spoken(rs, n) matches Some(i) ==> 0 <= i < n && !is_assistant_record(rs[i]),
        forall|j: int| #![trigger rs[j]] (match last_spoken(rs, n) { Some(i) => i, None => -1 }) < j < n ==> is_assistant_record(rs[j]),
    decreases n,
{
    if n > 0 {
        lemma_last_spoken_bounds(rs, n - 1);
    }
}

pub proof fn lemma_last_usage_bounds(rs: Seq<Record>, n: int)
    requires
        n <= rs.len(),
    ensures
        last_usage(rs, n) matches Some(i) ==> 0 <= i < n,
    decreases n,
{
    if n > 0 {
        lemma_last_usage_bounds(rs, n - 1);
    }
}

/// The usage a figure is read from is the newest model record that carried
/// any; earlier ones are never added in, and there is none when no model
/// record carried usage.
pub proof fn lemma_newest_usage_is_taken(rs: Seq<Record>, n: int)
    requires
        0 <= n <= rs.len(),
    ensures
        last_usage(rs, n) matches Some(i) ==> 0 <= i < n && is_assistant_record(rs[i]) && !usage_empty(usage_of(rs[i]))
            && forall|j: int| i < j < n ==> !(is_assistant_record(#[trigger] rs[j]) && !usage_empty(usage_of(rs[j]))),
        last_usage(rs, n) is None ==> forall|j: int| 0 <= j < n ==> !(is_assistant_record(#[trigger] rs[j])
            && !usage_empty(usage_of(rs[j]))),
    decreases n,
{
    if n > 0 {
        lemma_newest_usage_is_taken(rs, n - 1);
    }
}

/// Something came from the model exactly when some record is the model's.
pub proof fn lemma_from_model_is_any_model_record(rs: Seq<Record>, n: int)
    requires
        0 <= n <= rs.len(),
    ensures
        from_model(rs, n) <==> exists|j: int| 0 <= j < n && is_assistant_record(#[trigger] rs[j]),
    decreases n,
{
    if n > 0 {
        lemma_from_model_is_any_model_record(rs, n - 1);
        if is_assistant_record(rs[n - 1]) {
            assert(is_assistant_record(rs[n - 1]));
        }
    }
}

/// A turn begins when the person last spoke: the moment of the newest record
/// that is not the model's, when it has one.
pub proof fn lemma_turn_begins_when_the_person_spoke(rs: Seq<Record>)
    ensures
        forall|i: int|
            0 <= i < rs.len() && !is_assistant_record(#[trigger] rs[i]) && (forall|j: int|
                i < j < rs.len() ==> is_assistant_record(#[trigger] rs[j])) && at_of(rs[i]) is Some ==> turn_began_at(rs)
                == at_of(rs[i]),
{
    lemma_last_spoken_bounds(rs, rs.len() as int);
    assert forall|i: int|
        0 <= i < rs.len() && !is_assistant_record(#[trigger] rs[i]) && (forall|j: int|
            i < j < rs.len() ==> is_assistant_record(#[trigger] rs[j])) && at_of(rs[i]) is Some implies turn_began_at(rs)
        == at_of(rs[i]) by {
        match last_spoken(rs, rs.len() as int) {
            Some(k) => {
                if k < i {
                    assert(is_assistant_record(rs[i]));
                } else if k > i {
                    assert(is_assistant_record(rs[k]));
                }
            },
            None => {
                assert(is_assistant_record(rs[i]));
            },
        }
    }
}

/// What an agent is doing right now, from its own records.
pub struct StatsRule;

impl StatsRule {
    /// The figures for the turn these records end in: `records` is the tail,
    /// oldest first, and `running` what the agent is doing. `None` when
    /// nothing in it came from the model, as a conversation whose newest
    /// records are all the person's has no turn in flight to report on, and
    /// when no moment can be told for the turn.
    pub fn of(records: &[Record], running: Option<String>, windows: &[ModelWindow]) -> (stats: Option<AgentStats>)
        ensures
            match stats {
                None => !from_model(records@, records@.len() as int) || turn_began_at(records@) is None,
                Some(s) => {
                    let newest = last_usage(records@, records@.len() as int);
                    let usage = match newest {
                        Some(i) => usage_of(records@[i]),
                        None => Usage { input_tokens: 0, output_tokens: 0, cache_written: 0, cache_read: 0 },
                    };
                    &&& from_model(records@, records@.len() as int)
                    &&& turn_began_at(records@) == Some(s.turn_started_at)
                    &&& s.tokens_in == usage.input_tokens
                    &&& s.tokens_out == usage.output_tokens
                    &&& s.tools == calls_since_spoken(records@)
                    &&& s.context_used == crate::transcript::usage::saturated(
                        crate::transcript::usage::saturated(usage.input_tokens as int, usage.cache_written as int),
                        usage.cache_read as int,
                    )
                    &&& s.model == (match newest {
                        Some(i) => match records@[i].message {
                            Some(m) => m.model,
                            None => None,
                        },
                        None => None,
                    })
                    &&& s.context_window == (match s.model {
                        Some(m) => window_in(m@, windows@, 0),
                        None => None,
                    })
                    &&& s.cost_micros is None
                    &&& s.activity == running
                },
            },
    {
        if !Self::any_from_model(records) {
            return None;
        }
        let began = match Self::turn_began(records) {
            Some(t) => t,
            None => {
                return None;
            },
        };
        let newest = Self::newest_usage(records);
        let (usage, model) = if let Some(i) = newest {
            let r = &records[i];
            let model = match &r.message {
                Some(m) => m.model.clone(),
                None => None,
            };
            (r.usage(), model)
        } else {
            (Usage { input_tokens: 0, output_tokens: 0, cache_written: 0, cache_read: 0 }, None)
        };
        let window = match &model {
            Some(m) => Self::window_of(m.as_str(), windows),
            None => None,
        };
        Some(AgentStats {
            turn_started_at: began,
            tokens_in: usage.input_tokens,
            tokens_out: usage.output_tokens,
            tools: Self::tool_calls_since_the_person_spoke(records),
            context_used: usage.context_used(),
            context_window: window,
            model,
            cost_micros: None,
            activity: running,
        })
    }

    /// Whether anything in `records` came from the model.
    fn any_from_model(records: &[Record]) -> (b: bool)
        ensures
            b == from_model(records@, records@.len() as int),
    {
        let mut i: usize = records.len();
        while i > 0
            invariant
                i <= records@.len(),
                from_model(records@, records@.len() as int) == from_model(records@, i as int),
            decreases i,
        {
            if records[i - 1].is_assistant() {
                return true;
            }
            i = i - 1;
        }
        false
    }

    /// Where the newest model record that carried usage is.
    fn newest_usage(records: &[Record]) -> (at: Option<usize>)
        ensures
            match at {
                Some(i) => last_usage(records@, records@.len() as int) == Some(i as int) && i < records@.len(),
                None => last_usage(records@, records@.len() as int) is None,
            },
    {
        let mut i: usize = records.len();
        while i > 0
            invariant
                i <= records@.len(),
                last_usage(records@, i as int) == last_usage(records@, records@.len() as int),
            decreases i,
        {
            let r = &records[i - 1];
            if r.is_assistant() && !r.usage().is_empty() {
                return Some(i - 1);
            }
            i = i - 1;
        }
        None
    }

    /// When the person last spoke, which is when this turn began: the
    /// elapsed figure counts from there rather than from the newest model
    /// response.
    pub fn turn_began(records: &[Record]) -> (began: Option<Timestamp>)
        ensures
            began == turn_began_at(records@),
    {
        let i = Self::last_spoken_at(records);
        let spoke = match i {
            Some(i) => records[i].at(),
            None => None,
        };
        match spoke {
            Some(t) => Some(t),
            None => if records.len() > 0 { records[0].at() } else { None },
        }
    }

    /// Where the person last spoke in `records`.
    fn last_spoken_at(records: &[Record]) -> (at: Option<usize>)
        ensures
            match at {
                Some(i) => last_spoken(records@, records@.len() as int) == Some(i as int) && i < records@.len(),
                None => last_spoken(records@, records@.len() as int) is None,
            },
    {
        let mut i: usize = records.len();
        while i > 0
            invariant
                i <= records@.len(),
                last_spoken(records@, i as int) == last_spoken(records@, records@.len() as int),
            decreases i,
        {
            if !records[i - 1].is_assistant() {
                return Some(i - 1);
            }
            i = i - 1;
        }
        None
    }

    /// The tool calls since the person last spoke.
    pub fn tool_calls_since_the_person_spoke(records: &[Record]) -> (n: u32)
        ensures
            n == calls_since_spoken(records@),
    {
        let total = records.len();
        let from: usize = match Self::last_spoken_at(records) {
            Some(i) => i + 1,
            None => 0,
        };
        let mut count: u32 = 0;
        let mut i: usize = from;
        while i < total
            invariant
                total == records@.len(),
                from <= i <= records@.len(),
                count == (if tool_calls(records@, from as int, i as int) > u32::MAX { u32::MAX as int } else { tool_calls(records@, from as int, i as int) }),
                tool_calls(records@, from as int, i as int) >= 0,
            decreases records@.len() - i,
        {
            let blocks = records[i].blocks();
            let mut k: usize = 0;
            let ghost base = tool_calls(records@, from as int, i as int);
            while k < blocks.len()
                invariant
                    k <= blocks@.len(),
                    blocks@ == record_blocks(records@[i as int]),
                    base >= 0,
                    tool_uses(blocks@.take(k as int)) >= 0,
                    count == (if base + tool_uses(blocks@.take(k as int)) > u32::MAX { u32::MAX as int } else { base + tool_uses(blocks@.take(k as int)) }),
                decreases blocks@.len() - k,
            {
                proof {
                    assert(blocks@.take(k + 1).drop_last() =~= blocks@.take(k as int));
                }
                match &blocks[k] {
                    ContentBlock::ToolUse { .. } => {
                        if count < u32::MAX {
                            count = count + 1;
                        }
                    },
                    _ => {},
                }
                k = k + 1;
            }
            proof {
                assert(blocks@.take(k as int) =~= blocks@);
            }
            i = i + 1;
        }
        count
    }

    /// The window a model id names, when it is in a family that has been
    /// checked.
    pub fn window_of(model: &str, windows: &[ModelWindow]) -> (window: Option<u64>)
        ensures
            window == window_in(model@, windows@, 0),
    {
        let m = chars_of(model);
        let mut i: usize = 0;
        while i < windows.len()
            invariant
                i <= windows@.len(),
                m@ == model@,
                window_in(model@, windows@, i as int) == window_in(model@, windows@, 0),
            decreases windows@.len() - i,
        {
            if starts_with(m.as_slice(), chars_of(windows[i].prefix.as_str()).as_slice()) {
                return Some(windows[i].window);
            }
            i = i + 1;
        }
        None
    }
}

} // verus!
