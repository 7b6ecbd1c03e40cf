//! Context the harness injected into a turn.
use vstd::prelude::*;
use crate::text::{chars_of, same_chars};
use crate::transcript::body::{joined_of, MessageBody};
use crate::transcript::origin::AttachmentOrigin;

verus! {

/// Context the harness injected into a turn.
///
/// Almost all of it is machine chatter, and the type is dropped wholesale for
/// that reason. One shape is not: a message the person typed while the agent
/// was still working is queued and recorded here rather than as a `user`
/// record.
#[derive(Debug, Default)]
pub struct Attachment {
    pub kind: String,
    pub prompt: MessageBody,
    pub origin: Option<AttachmentOrigin>,
}

/// The one attachment shape that is a person speaking: a queued command a
/// person put in the queue. An absent origin is not a claim of humanity.
pub open spec fn queued_by_a_person(a: Attachment) -> bool {
    &&& a.kind@ == "queued_command"@
    &&& a.origin matches Some(o) && o.kind matches Some(k) && k@ == "human"@
}

impl Attachment {
    /// Whether this is a message the person typed mid-turn.
    pub fn is_queued_by_a_person(&self) -> (b: bool)
        ensures
            b == queued_by_a_person(*self),
    {
        if !same_chars(chars_of(self.kind.as_str()).as_slice(), chars_of("queued_command").as_slice()) {
            return false;
        }
        match &self.origin {
            Some(origin) => origin.is_person(),
            None => false,
        }
    }

    pub fn text(&self) -> (t: Option<String>)
        ensures
            match t {
                Some(s) => joined_of(self.prompt) == Some(s@),
                None => joined_of(self.prompt) is None,
            },
    {
        self.prompt.joined()
    }
}

} // verus!
