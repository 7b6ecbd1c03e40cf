use vstd::prelude::*;
use crate::transcript::span::RecordSpan;

verus! {

/// The records of one turn. A turn is a group, not a record: the harness
/// writes each content block of a model response separately.
#[derive(Debug, Clone, PartialEq, Eq)]
pub struct TurnSpan {
    /// The first record's offset, which is the turn's cursor.
    pub offset: u64,
    pub records: Vec<RecordSpan>,
}

impl TurnSpan {
    pub fn new(first: RecordSpan) -> (turn: Self)
        ensures
            turn.offset == first.offset,
            turn.records@ == seq![first],
    {
        TurnSpan { offset: first.offset, records: vec![first] }
    }
}

} // verus!
