use vstd::prelude::*;
use crate::text::{chars_of, same_chars};

verus! {

/// Who put a queued message in the queue: the person is not the only thing
/// that enqueues one.
#[derive(Debug, Clone)]
pub struct AttachmentOrigin {
    pub kind: Option<String>,
}

impl AttachmentOrigin {
    pub const HUMAN: &'static str = "human";

    /// Whether a person put the message there.
    pub fn is_person(&self) -> (person: bool)
        ensures
            person == (self.kind matches Some(k) && k@ == "human"@),
    {
        match &self.kind {
            Some(k) => same_chars(&chars_of(k.as_str()), &chars_of("human")),
            None => false,
        }
    }
}

} // verus!
