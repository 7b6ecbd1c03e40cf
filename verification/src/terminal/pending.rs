//! A question, and what its rows were showing when it was read.
use vstd::prelude::*;
use crate::transcript::question::Question;

verus! {

/// A question, and what its rows were showing when it was read.
#[derive(Debug, Clone, PartialEq, Eq)]
pub struct PendingQuestion {
    pub question: Question,
    /// One entry per ask, aligned to that ask's options; `None` where the set
    /// did not come off a screen. The records cannot know what is ticked, and
    /// saying so is honest where reporting all-clear would be a guess.
    pub ticks: Option<Vec<Vec<bool>>>,
}

impl PendingQuestion {
    pub fn new(question: Question, ticks: Option<Vec<Vec<bool>>>) -> (p: PendingQuestion)
        ensures
            p.question == question,
            p.ticks == ticks,
    {
        PendingQuestion { question, ticks }
    }

    /// What the nth ask's rows were showing, where that is known at all.
    pub fn ticks_for(&self, ask: usize) -> (rows: Option<&[bool]>)
        ensures
            match rows {
                Some(r) => self.ticks matches Some(t) && ask < t@.len() && r@ == t@[ask as int]@,
                None => !(self.ticks matches Some(t) && ask < t@.len()),
            },
    {
        match &self.ticks {
            Some(t) => if ask < t.len() { Some(t[ask].as_slice()) } else { None },
            None => None,
        }
    }
}

} // verus!
