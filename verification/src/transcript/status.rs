//! What an agent is doing, decided in one place.
use vstd::prelude::*;
use crate::text::{chars_of, first_line_of, first_words, lines, string_of};
use crate::transcript::question::Question;
use crate::transcript::turn::{Part, ToolStatus, Turn};

verus! {

/// What an agent is doing.
#[derive(Debug, Clone, Copy, PartialEq, Eq, Structural)]
pub enum AgentStatus {
    /// Nothing is running: the conversation has no pane.
    Done,
    /// A person is being asked something.
    Blocked,
    /// A call is in flight and the records are growing.
    Working,
    /// A call is in flight and the records have stopped growing.
    Stalled,
    Idle,
}

/// The newest unanswered question among `parts[..n]`.
pub open spec fn last_unanswered(parts: Seq<Part>, n: int) -> Option<Question>
    decreases n,
{
    if n <= 0 {
        None
    } else {
        match parts[n - 1] {
            Part::Question { question, answered, .. } => if answered is None {
                Some(question)
            } else {
                last_unanswered(parts, n - 1)
            },
            _ => last_unanswered(parts, n - 1),
        }
    }
}

/// The set a person is being asked now: only in the newest turn, because
/// anything after a question means the conversation moved past it.
pub open spec fn pending_in(recent: Seq<Turn>) -> Option<Question> {
    if recent.len() == 0 {
        None
    } else {
        last_unanswered(recent.last().parts@, recent.last().parts@.len() as int)
    }
}

/// Whether the newest turn has a tool call still running.
pub open spec fn call_in_flight(recent: Seq<Turn>) -> bool {
    recent.len() > 0 && exists|i: int|
        0 <= i < recent.last().parts@.len() && (#[trigger] recent.last().parts@[i] matches Part::ToolUse { status, .. } && status == ToolStatus::Running)
}

/// What an agent is doing: a conversation with no pane is done whatever its
/// records say; one asking a person is blocked; one with a call in flight is
/// working while it grows and stalled when it does not; else idle.
pub open spec fn status_of(bound: bool, recent: Seq<Turn>, grew_recently: bool) -> AgentStatus {
    if !bound {
        AgentStatus::Done
    } else if pending_in(recent) is Some {
        AgentStatus::Blocked
    } else if call_in_flight(recent) {
        if grew_recently { AgentStatus::Working } else { AgentStatus::Stalled }
    } else {
        AgentStatus::Idle
    }
}

/// Whether a part asks a question nobody answered.
pub open spec fn unanswered_question(p: Part) -> bool {
    p matches Part::Question { answered, .. } && answered is None
}

/// Whether a part is a tool call still running.
pub open spec fn running_call(p: Part) -> bool {
    p matches Part::ToolUse { status, .. } && status == ToolStatus::Running
}

proof fn lemma_unanswered_search(parts: Seq<Part>, n: int)
    requires
        0 <= n <= parts.len(),
    ensures
        last_unanswered(parts, n) is Some <==> exists|i: int| 0 <= i < n && #[trigger] unanswered_question(parts[i]),
    decreases n,
{
    if n > 0 {
        lemma_unanswered_search(parts, n - 1);
        if unanswered_question(parts[n - 1]) {
            assert(last_unanswered(parts, n) is Some);
        } else {
            if exists|i: int| 0 <= i < n && #[trigger] unanswered_question(parts[i]) {
                let i = choose|i: int| 0 <= i < n && #[trigger] unanswered_question(parts[i]);
                assert(i < n - 1);
            }
        }
    }
}

/// What an agent is doing is read off the newest turn alone, whatever the
/// older ones hold: a conversation with no pane is done; one whose newest
/// turn asks a question nobody answered is blocked; else one whose newest
/// turn has a call still running is working while its records grow and
/// stalled when they do not; anything else is idle.
pub proof fn lemma_status_reads_the_newest_turn(bound: bool, recent: Seq<Turn>, grew_recently: bool)
    ensures
        !bound ==> status_of(bound, recent, grew_recently) == AgentStatus::Done,
        bound && recent.len() == 0 ==> status_of(bound, recent, grew_recently) == AgentStatus::Idle,
        bound && recent.len() > 0 ==> ({
            let parts = recent.last().parts@;
            let asking = exists|i: int| 0 <= i < parts.len() && #[trigger] unanswered_question(parts[i]);
            let running = exists|i: int| 0 <= i < parts.len() && #[trigger] running_call(parts[i]);
            status_of(bound, recent, grew_recently) == if asking {
                AgentStatus::Blocked
            } else if running {
                if grew_recently {
                    AgentStatus::Working
                } else {
                    AgentStatus::Stalled
                }
            } else {
                AgentStatus::Idle
            }
        }),
{
    if recent.len() > 0 {
        let parts = recent.last().parts@;
        lemma_unanswered_search(parts, parts.len() as int);
        if call_in_flight(recent) {
            let i = choose|i: int|
                0 <= i < recent.last().parts@.len() && (#[trigger] recent.last().parts@[i] matches Part::ToolUse {
                    status,
                    ..
                } && status == ToolStatus::Running);
            assert(running_call(parts[i]));
        }
        if exists|i: int| 0 <= i < parts.len() && #[trigger] running_call(parts[i]) {
            let i = choose|i: int| 0 <= i < parts.len() && #[trigger] running_call(parts[i]);
            assert(recent.last().parts@[i] == parts[i]);
            assert(call_in_flight(recent));
        }
    }
}

/// Every part of `recent`, oldest turn first.
pub open spec fn all_parts(recent: Seq<Turn>) -> Seq<Part>
    decreases recent.len(),
{
    if recent.len() == 0 {
        Seq::empty()
    } else {
        all_parts(recent.drop_last()) + recent.last().parts@
    }
}

/// The newest text among `parts[..n]`.
pub open spec fn last_text(parts: Seq<Part>, n: int) -> Option<Seq<char>>
    decreases n,
{
    if n <= 0 {
        None
    } else {
        match parts[n - 1] {
            Part::Text { text } => Some(text@),
            _ => last_text(parts, n - 1),
        }
    }
}

/// One line of the most recent meaningful text: the newest unanswered
/// question's prompt, else the first non-blank line of the newest text.
pub open spec fn preview_of(recent: Seq<Turn>) -> Option<Seq<char>> {
    let parts = all_parts(recent);
    match last_unanswered(parts, parts.len() as int) {
        Some(q) => Some(if q.asks@.len() > 0 { q.asks@[0].prompt@ } else { Seq::empty() }),
        None => match last_text(parts, parts.len() as int) {
            Some(t) => Some(first_words(lines(t))),
            None => None,
        },
    }
}

/// What an agent is doing, decided in one place: two callers need the
/// answer and a stored one would go stale between them.
pub struct StatusRule;

impl StatusRule {
    /// `recent` is the tail of the conversation, oldest first.
    pub fn decide(bound: bool, recent: &[Turn], grew_recently: bool) -> (status: AgentStatus)
        ensures
            status == status_of(bound, recent@, grew_recently),
    {
        if !bound {
            return AgentStatus::Done;
        }
        if Self::pending_question(recent).is_some() {
            return AgentStatus::Blocked;
        }
        if Self::has_a_call_in_flight(recent) {
            return if grew_recently { AgentStatus::Working } else { AgentStatus::Stalled };
        }
        AgentStatus::Idle
    }

    /// The set a person is being asked now, if there is one.
    pub fn pending_question(recent: &[Turn]) -> (q: Option<Question>)
        ensures
            match q {
                Some(x) => pending_in(recent@) matches Some(p) && x@ == p@,
                None => pending_in(recent@) is None,
            },
    {
        if recent.len() == 0 {
            return None;
        }
        let parts = &recent[recent.len() - 1].parts;
        let mut i: usize = parts.len();
        while i > 0
            invariant
                i <= parts@.len(),
                recent@.len() > 0,
                parts@ == recent@.last().parts@,
                last_unanswered(parts@, i as int) == last_unanswered(parts@, parts@.len() as int),
            decreases i,
        {
            match &parts[i - 1] {
                Part::Question { question, answered, .. } => {
                    if answered.is_none() {
                        return Some(question.copy());
                    }
                },
                _ => {},
            }
            i = i - 1;
        }
        None
    }

    /// Whether the newest turn has a tool call still running.
    pub fn has_a_call_in_flight(recent: &[Turn]) -> (b: bool)
        ensures
            b == call_in_flight(recent@),
    {
        if recent.len() == 0 {
            return false;
        }
        let parts = &recent[recent.len() - 1].parts;
        let mut i: usize = 0;
        while i < parts.len()
            invariant
                i <= parts@.len(),
                parts@ == recent@.last().parts@,
                recent@.len() > 0,
                forall|j: int| 0 <= j < i ==> !(#[trigger] parts@[j] matches Part::ToolUse { status, .. } && status == ToolStatus::Running),
            decreases parts@.len() - i,
        {
            match &parts[i] {
                Part::ToolUse { status, .. } => {
                    if *status == ToolStatus::Running {
                        return true;
                    }
                },
                _ => {},
            }
            i = i + 1;
        }
        false
    }

    /// One line of the most recent meaningful text: the pending question's
    /// prompt when one is asked, otherwise the agent's last words.
    pub fn preview(recent: &[Turn]) -> (line: Option<String>)
        ensures
            match line {
                Some(l) => preview_of(recent@) == Some(l@),
                None => preview_of(recent@) is None,
            },
    {
        let mut flat: Vec<&Part> = Vec::new();
        let mut t: usize = 0;
        while t < recent.len()
            invariant
                t <= recent@.len(),
                flat@.len() == all_parts(recent@.take(t as int)).len(),
                forall|k: int| 0 <= k < flat@.len() ==> *#[trigger] flat@[k] == all_parts(recent@.take(t as int))[k],
            decreases recent@.len() - t,
        {
            let parts = &recent[t].parts;
            let ghost before = all_parts(recent@.take(t as int));
            proof {
                assert(recent@.take(t + 1).drop_last() =~= recent@.take(t as int));
                assert(all_parts(recent@.take(t + 1)) == before + parts@);
            }
            let mut k: usize = 0;
            while k < parts.len()
                invariant
                    k <= parts@.len(),
                    flat@.len() == before.len() + k,
                    forall|j: int| 0 <= j < flat@.len() ==> *#[trigger] flat@[j] == (before + parts@)[j],
                decreases parts@.len() - k,
            {
                flat.push(&parts[k]);
                k = k + 1;
            }
            t = t + 1;
        }
        proof {
            assert(recent@.take(t as int) =~= recent@);
        }
        let ghost whole = all_parts(recent@);
        let mut i: usize = flat.len();
        while i > 0
            invariant
                i <= flat@.len(),
                flat@.len() == whole.len(),
                forall|k: int| 0 <= k < flat@.len() ==> *#[trigger] flat@[k] == whole[k],
                whole == all_parts(recent@),
                last_unanswered(whole, i as int) == last_unanswered(whole, whole.len() as int),
            decreases i,
        {
            match flat[i - 1] {
                Part::Question { question, answered, .. } => {
                    if answered.is_none() {
                        let p = question.prompt();
                        return Some(string_of(chars_of(p).as_slice()));
                    }
                },
                _ => {},
            }
            i = i - 1;
        }
        let mut i: usize = flat.len();
        while i > 0
            invariant
                i <= flat@.len(),
                flat@.len() == whole.len(),
                forall|k: int| 0 <= k < flat@.len() ==> *#[trigger] flat@[k] == whole[k],
                whole == all_parts(recent@),
                last_unanswered(whole, whole.len() as int) is None,
                last_text(whole, i as int) == last_text(whole, whole.len() as int),
            decreases i,
        {
            match flat[i - 1] {
                Part::Text { text } => {
                    return Some(Self::one_line(text.as_str()));
                },
                _ => {},
            }
            i = i - 1;
        }
        None
    }

    /// One line of the most recent meaningful text: its first line with
    /// anything but whitespace in it, trimmed.
    pub fn one_line(text: &str) -> (line: String)
        ensures
            line@ == first_words(lines(text@)),
    {
        let chars = chars_of(text);
        let line = first_line_of(chars.as_slice());
        string_of(line.as_slice())
    }
}

} // verus!
