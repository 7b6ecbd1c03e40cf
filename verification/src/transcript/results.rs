//! What one tool call answered.
use vstd::prelude::*;
use crate::transcript::json::{json_get, Json};
use crate::transcript::record::Timestamp;

verus! {

/// What one tool call answered, assembled from two places in the record that
/// answers it: the result block, which carries the text and the error flag,
/// and the record's own structured result, which carries what the block does
/// not (a patch, the answers to a set of questions, a list of files).
#[derive(Debug)]
pub struct ToolOutcome {
    pub text: Option<String>,
    pub is_error: bool,
    pub detail: Option<Json>,
    /// When the answer arrived.
    pub at: Option<Timestamp>,
}

/// The structured result's value under `name`, when it has one.
pub open spec fn outcome_field(o: ToolOutcome, name: Seq<char>) -> Option<Json> {
    match o.detail {
        Some(d) => json_get(d, name),
        None => None,
    }
}

impl ToolOutcome {
    /// The structured result's value under `name`, when it has one.
    pub fn field(&self, name: &str) -> (v: Option<&Json>)
        ensures
            match v {
                Some(found) => outcome_field(*self, name@) == Some(*found),
                None => outcome_field(*self, name@) is None,
            },
    {
        match &self.detail {
            Some(detail) => detail.get(name),
            None => None,
        }
    }
}

} // verus!
