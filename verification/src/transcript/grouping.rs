//! Which records belong to the same turn.
use vstd::prelude::*;
use crate::text::{chars_of, same_chars};
use crate::transcript::record::{is_assistant_record, Record};

verus! {

/// Whether `next` continues the turn `previous` started: two adjacent model
/// records of the same request. A record with no id is its own turn, and so
/// is one with an empty id: merging them on a shared absence would join
/// unrelated responses.
pub open spec fn joins_turn(previous: Record, next: Record) -> bool {
    &&& is_assistant_record(previous)
    &&& is_assistant_record(next)
    &&& previous.request_id matches Some(before)
    &&& next.request_id matches Some(after)
    &&& before@.len() > 0
    &&& before@ == after@
}

/// Which records belong to the same turn. The harness writes each content
/// block of a model response as its own record, so one record per turn would
/// render a single response as a text turn followed by a separate tool turn.
pub struct TurnGrouping;

impl TurnGrouping {
    /// Whether `next` continues the turn `previous` started. Adjacency is
    /// load-bearing: the same request id can appear again after others.
    pub fn joins(previous: &Record, next: &Record) -> (b: bool)
        ensures
            b == joins_turn(*previous, *next),
    {
        if !previous.is_assistant() || !next.is_assistant() {
            return false;
        }
        match (&previous.request_id, &next.request_id) {
            (Some(before), Some(after)) => {
                let b = chars_of(before.as_str());
                b.len() > 0 && same_chars(b.as_slice(), chars_of(after.as_str()).as_slice())
            },
            _ => false,
        }
    }
}

} // verus!
