//! One line of an agent's own record of a session.
use vstd::prelude::*;
use crate::text::{chars_of, same_chars, string_of, trim, trimmed};
use crate::transcript::attachment::{queued_by_a_person, Attachment};
use crate::transcript::body::{blocks_of, joined_of, MessageBody};
use crate::transcript::command::CommandTags;
use crate::transcript::content::ContentBlock;
use crate::transcript::json::Json;
use crate::transcript::message::Message;
use crate::transcript::usage::Usage;

verus! {

/// A moment as milliseconds since the epoch.
#[derive(Debug, Clone, Copy, PartialEq, Eq, Structural)]
pub struct Timestamp(pub i64);

/// Who a turn belongs to.
#[derive(Debug, Clone, Copy, PartialEq, Eq, Structural)]
pub enum Role {
    Agent,
    Operator,
}

/// The milliseconds since the epoch an RFC 3339 timestamp names, as
/// `chrono` reads it.
pub uninterp spec fn rfc3339_millis(text: Seq<char>) -> Option<i64>;

/// `DateTime::parse_from_rfc3339` and `timestamp_millis` from `chrono`: the
/// moment an RFC 3339 text names, or `None` when `chrono` cannot read it.
#[verifier::external_body]
fn parse_rfc3339_millis(text: &str) -> (ms: Option<i64>)
    ensures
        ms == rfc3339_millis(text@),
{
    chrono::DateTime::parse_from_rfc3339(text).ok().map(|moment| moment.timestamp_millis())
}

/// One line of an agent's own record of a session.
///
/// Only the fields a turn is built from are named; everything else on the
/// line is left unread, so a new field upstream is not a parse failure.
#[derive(Debug, Default)]
pub struct Record {
    pub kind: String,
    pub uuid: Option<String>,
    pub timestamp: Option<String>,
    pub cwd: Option<String>,
    pub session_id: Option<String>,
    pub message: Option<Message>,
    pub is_meta: bool,
    pub is_sidechain: bool,
    /// Groups the records of one model response: the harness writes each
    /// content block as its own record.
    pub request_id: Option<String>,
    /// The harness's own summary of a context it discarded.
    pub is_compact_summary: bool,
    /// `typed` and `queued` are a person; `system` is not.
    pub prompt_source: Option<String>,
    /// Present when the person stopped the agent.
    pub interrupted_message_id: Option<String>,
    /// The shape varies per tool, so only the mapper reads into it.
    pub tool_use_result: Option<Json>,
    /// A system record's body, which sits at the top level.
    pub content: Option<String>,
    pub ai_title: Option<String>,
    /// The name a person gave the session with the harness's rename command.
    pub custom_title: Option<String>,
    pub subtype: Option<String>,
    /// Injected context, dropped but for a message a person queued.
    pub attachment: Option<Attachment>,
}

/// The sentence the harness writes when it carries no field for an
/// interrupt.
pub open spec fn interrupt_text() -> Seq<char> {
    "[Request interrupted by user]"@
}

/// The record's content blocks, none without a message.
pub open spec fn record_blocks(r: Record) -> Seq<ContentBlock> {
    match r.message {
        Some(m) => blocks_of(m.content),
        None => Seq::empty(),
    }
}

/// The record's body when it is a bare string.
pub open spec fn record_plain(r: Record) -> Option<Seq<char>> {
    match r.message {
        Some(m) => match m.content {
            MessageBody::Text(t) => Some(t@),
            _ => None,
        },
        None => None,
    }
}

/// The first text block's text, from block `i` on.
pub open spec fn first_text(blocks: Seq<ContentBlock>, i: int) -> Option<Seq<char>>
    decreases blocks.len() - i,
{
    if i < 0 || i >= blocks.len() {
        None
    } else {
        match blocks[i] {
            ContentBlock::Text { text } => Some(text@),
            _ => first_text(blocks, i + 1),
        }
    }
}

/// The record's text, whichever of the two message shapes carried it.
pub open spec fn record_text(r: Record) -> Option<Seq<char>> {
    match record_plain(r) {
        Some(t) => Some(t),
        None => first_text(record_blocks(r), 0),
    }
}

pub open spec fn is_assistant_record(r: Record) -> bool {
    r.kind@ == "assistant"@
}

pub open spec fn is_user_record(r: Record) -> bool {
    r.kind@ == "user"@
}

/// A message the person typed while the agent was still working.
pub open spec fn is_queued_record(r: Record) -> bool {
    r.kind@ == "attachment"@ && (r.attachment matches Some(a) && queued_by_a_person(a))
}

/// The record the harness writes when a person runs a slash command, by the
/// harness's own table; none without one.
pub open spec fn is_command_record(r: Record, tags: Option<CommandTags>) -> bool {
    tags matches Some(t) && r.kind@ == t.record_kind@ && (r.subtype matches Some(s) && s@ == t.record_subtype@)
}

/// Whose turn a record is, or none for a record that is no one's.
pub open spec fn role_of(r: Record, tags: Option<CommandTags>) -> Option<Role> {
    if is_assistant_record(r) {
        Some(Role::Agent)
    } else if is_user_record(r) || is_queued_record(r) || is_command_record(r, tags) {
        Some(Role::Operator)
    } else {
        None
    }
}

/// Whether the person stopped the agent: by the field naming the message
/// stopped, or by the sentence alone.
pub open spec fn interrupted_record(r: Record) -> bool {
    r.interrupted_message_id is Some || (record_text(r) matches Some(t) && trim(t) == interrupt_text())
}

/// The call ids a record's tool results answer, first first.
pub open spec fn answered_ids(blocks: Seq<ContentBlock>) -> Seq<Seq<char>>
    decreases blocks.len(),
{
    if blocks.len() == 0 {
        Seq::empty()
    } else {
        let before = answered_ids(blocks.drop_last());
        match blocks.last() {
            ContentBlock::ToolResult { tool_use_id, .. } => before.push(tool_use_id@),
            _ => before,
        }
    }
}

/// Whether any block is a tool result.
pub open spec fn has_tool_result(blocks: Seq<ContentBlock>) -> bool {
    exists|i: int| 0 <= i < blocks.len() && #[trigger] blocks[i] is ToolResult
}

fn text_is(s: &String, word: &str) -> (b: bool)
    ensures
        b == (s@ == word@),
{
    same_chars(chars_of(s.as_str()).as_slice(), chars_of(word).as_slice())
}

impl Record {
    pub const ASSISTANT: &'static str = "assistant";
    pub const USER: &'static str = "user";
    pub const ATTACHMENT: &'static str = "attachment";
    pub const INTERRUPT_TEXT: &'static str = "[Request interrupted by user]";

    /// What the model was sent and produced for this record; empty rather
    /// than absent when it carried none.
    pub fn usage(&self) -> (u: Usage)
        ensures
            u == (match self.message {
                Some(m) => match m.usage {
                    Some(x) => x,
                    None => Usage { input_tokens: 0, output_tokens: 0, cache_written: 0, cache_read: 0 },
                },
                None => Usage { input_tokens: 0, output_tokens: 0, cache_written: 0, cache_read: 0 },
            }),
    {
        match &self.message {
            Some(m) => match m.usage {
                Some(x) => x,
                None => Usage { input_tokens: 0, output_tokens: 0, cache_written: 0, cache_read: 0 },
            },
            None => Usage { input_tokens: 0, output_tokens: 0, cache_written: 0, cache_read: 0 },
        }
    }

    /// Which model produced this record.
    pub fn model(&self) -> (m: Option<String>)
        ensures
            match m {
                Some(x) => self.message matches Some(msg) && msg.model matches Some(y) && y@ == x@,
                None => !(self.message matches Some(msg) && msg.model is Some),
            },
    {
        match &self.message {
            Some(msg) => match &msg.model {
                Some(y) => Some(string_of(chars_of(y.as_str()).as_slice())),
                None => None,
            },
            None => None,
        }
    }

    pub fn is_assistant(&self) -> (b: bool)
        ensures
            b == is_assistant_record(*self),
    {
        text_is(&self.kind, "assistant")
    }

    pub fn is_user(&self) -> (b: bool)
        ensures
            b == is_user_record(*self),
    {
        text_is(&self.kind, "user")
    }

    /// Whether this record could become a turn at all: attachments, system
    /// records and the bookkeeping types are excluded here, because they are
    /// the bulk of the file.
    pub fn is_turn_candidate(&self, tags: Option<&CommandTags>) -> (b: bool)
        ensures
            b == (is_assistant_record(*self) || is_user_record(*self) || is_queued_record(*self)
                || is_command_record(*self, match tags { Some(t) => Some(*t), None => None })),
    {
        self.is_assistant() || self.is_user() || self.is_queued_prompt() || self.is_local_command(tags)
    }

    /// The record the harness writes when a person runs a slash command.
    pub fn is_local_command(&self, tags: Option<&CommandTags>) -> (b: bool)
        ensures
            b == is_command_record(*self, match tags { Some(t) => Some(*t), None => None }),
    {
        match tags {
            Some(t) => {
                if !same_chars(chars_of(self.kind.as_str()).as_slice(), chars_of(t.record_kind.as_str()).as_slice()) {
                    return false;
                }
                match &self.subtype {
                    Some(s) => same_chars(chars_of(s.as_str()).as_slice(), chars_of(t.record_subtype.as_str()).as_slice()),
                    None => false,
                }
            },
            None => false,
        }
    }

    /// A message the person typed while the agent was still working.
    pub fn is_queued_prompt(&self) -> (b: bool)
        ensures
            b == is_queued_record(*self),
    {
        if !text_is(&self.kind, "attachment") {
            return false;
        }
        match &self.attachment {
            Some(a) => a.is_queued_by_a_person(),
            None => false,
        }
    }

    /// The prompt a queued attachment carries.
    pub fn queued_text(&self) -> (t: Option<String>)
        ensures
            match t {
                Some(s) => self.attachment matches Some(a) && queued_by_a_person(a) && joined_of(a.prompt) == Some(s@),
                None => !(self.attachment matches Some(a) && queued_by_a_person(a) && joined_of(a.prompt) is Some),
            },
    {
        match &self.attachment {
            Some(a) => if a.is_queued_by_a_person() { a.text() } else { None },
            None => None,
        }
    }

    /// Whether the person stopped the agent.
    pub fn interrupted(&self) -> (b: bool)
        ensures
            b == interrupted_record(*self),
    {
        if self.interrupted_message_id.is_some() {
            return true;
        }
        match self.text_of_record() {
            Some(text) => {
                let t = trimmed(chars_of(text).as_slice());
                same_chars(t.as_slice(), chars_of("[Request interrupted by user]").as_slice())
            },
            None => false,
        }
    }

    /// The record's text, whichever of the two message shapes carried it.
    pub fn text_of_record(&self) -> (t: Option<&str>)
        ensures
            match t {
                Some(s) => record_text(*self) == Some(s@),
                None => record_text(*self) is None,
            },
    {
        match self.plain_text() {
            Some(text) => {
                return Some(text);
            },
            None => {},
        }
        let blocks = self.blocks();
        let mut i: usize = 0;
        while i < blocks.len()
            invariant
                i <= blocks@.len(),
                blocks@ == record_blocks(*self),
                record_plain(*self) is None,
                first_text(blocks@, i as int) == first_text(blocks@, 0),
            decreases blocks@.len() - i,
        {
            match &blocks[i] {
                ContentBlock::Text { text } => {
                    return Some(text.as_str());
                },
                _ => {},
            }
            i = i + 1;
        }
        None
    }

    /// Whose turn this record is.
    pub fn role(&self, tags: Option<&CommandTags>) -> (r: Option<Role>)
        ensures
            r == role_of(*self, match tags { Some(t) => Some(*t), None => None }),
    {
        if self.is_assistant() {
            Some(Role::Agent)
        } else if self.is_user() || self.is_queued_prompt() || self.is_local_command(tags) {
            Some(Role::Operator)
        } else {
            None
        }
    }

    /// The record's own timestamp as epoch milliseconds.
    pub fn at(&self) -> (t: Option<Timestamp>)
        ensures
            t == (match self.timestamp {
                Some(raw) => match rfc3339_millis(raw@) {
                    Some(ms) => Some(Timestamp(ms)),
                    None => None,
                },
                None => None,
            }),
    {
        match &self.timestamp {
            Some(raw) => match parse_rfc3339_millis(raw.as_str()) {
                Some(ms) => Some(Timestamp(ms)),
                None => None,
            },
            None => None,
        }
    }

    pub fn blocks(&self) -> (b: &[ContentBlock])
        ensures
            b@ == record_blocks(*self),
    {
        match &self.message {
            Some(m) => m.content.blocks(),
            None => &[],
        }
    }

    pub fn plain_text(&self) -> (t: Option<&str>)
        ensures
            match t {
                Some(s) => record_plain(*self) == Some(s@),
                None => record_plain(*self) is None,
            },
    {
        match &self.message {
            Some(m) => m.content.text(),
            None => None,
        }
    }

    /// Whether this record carries a tool's answer rather than a person's.
    pub fn carries_tool_results(&self) -> (b: bool)
        ensures
            b == (self.tool_use_result is Some || has_tool_result(record_blocks(*self))),
    {
        if self.tool_use_result.is_some() {
            return true;
        }
        let blocks = self.blocks();
        let mut i: usize = 0;
        while i < blocks.len()
            invariant
                i <= blocks@.len(),
                blocks@ == record_blocks(*self),
                forall|j: int| 0 <= j < i ==> !(#[trigger] blocks@[j] is ToolResult),
            decreases blocks@.len() - i,
        {
            match &blocks[i] {
                ContentBlock::ToolResult { .. } => {
                    proof {
                        assert(blocks@[i as int] is ToolResult);
                    }
                    return true;
                },
                _ => {},
            }
            i = i + 1;
        }
        false
    }

    /// The tool call ids this record answers.
    pub fn answered_tool_ids(&self) -> (ids: Vec<String>)
        ensures
            ids@.map_values(|s: String| s@) == answered_ids(record_blocks(*self)),
    {
        let blocks = self.blocks();
        let mut ids: Vec<String> = Vec::new();
        let mut i: usize = 0;
        while i < blocks.len()
            invariant
                i <= blocks@.len(),
                ids@.map_values(|s: String| s@) == answered_ids(blocks@.take(i as int)),
            decreases blocks@.len() - i,
        {
            proof {
                assert(blocks@.take(i + 1).drop_last() =~= blocks@.take(i as int));
            }
            match &blocks[i] {
                ContentBlock::ToolResult { tool_use_id, .. } => {
                    let ghost before = ids@.map_values(|s: String| s@);
                    let id = string_of(chars_of(tool_use_id.as_str()).as_slice());
                    ids.push(id);
                    proof {
                        assert(ids@.map_values(|s: String| s@) =~= before.push(tool_use_id@));
                    }
                },
                _ => {},
            }
            i = i + 1;
        }
        proof {
            assert(blocks@.take(i as int) =~= blocks@);
        }
        ids
    }
}

} // verus!
