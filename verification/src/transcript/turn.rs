//! A turn of a conversation, as far as deciding what an agent is doing
//! reads it.
use vstd::prelude::*;
use crate::transcript::assets::AssetId;
use crate::transcript::question::{Answer, Question};
use crate::transcript::record::{Role, Timestamp};

verus! {

/// Where a tool call has got to.
#[derive(Debug, Clone, Copy, PartialEq, Eq, Structural)]
pub enum ToolStatus {
    Running,
    Succeeded,
    Failed,
}

/// The answers a set of questions was given, one per ask in order, and
/// when they arrived. A question never answered leaves a hole rather than
/// shifting every later answer onto the wrong question.
#[derive(Debug, Clone, PartialEq, Eq)]
pub struct AnswerRecord {
    pub answers: Vec<Option<Answer>>,
    pub at: Timestamp,
}

/// Where an item of an agent's plan has got to.
#[derive(Debug, Clone, Copy, PartialEq, Eq, Structural)]
pub enum TodoStatus {
    Pending,
    InProgress,
    Done,
}

/// One item of an agent's plan.
#[derive(Debug, Clone, PartialEq, Eq)]
pub struct TodoItem {
    pub text: String,
    pub status: TodoStatus,
}

/// One piece of a turn. Every variant but plain text carries the text a
/// peer that cannot draw it is shown instead.
#[derive(Debug, Clone, PartialEq, Eq)]
pub enum Part {
    Text { text: String },
    /// A tool call: its name, its input as JSON text, and what it answered.
    ToolUse { name: String, input: String, result: Option<String>, status: ToolStatus, fallback_text: String },
    /// A table found in an agent's prose.
    Table { columns: Vec<String>, rows: Vec<Vec<String>>, fallback_text: String },
    /// A file handed to a person, by the id that opens it.
    File { asset: AssetId, name: String, mime: Option<String>, size: Option<u64>, fallback_text: String },
    /// A set of questions, and the answers once there are any.
    Question { question: Question, answered: Option<AnswerRecord>, fallback_text: String },
    /// A change to a file as a unified diff, with its line counts.
    Diff { path: String, unified: String, added: Option<u32>, removed: Option<u32>, fallback_text: String },
    /// An agent's plan.
    Todo { items: Vec<TodoItem>, fallback_text: String },
    /// Something said about the conversation rather than in it.
    Status { label: String, detail: Option<String>, fallback_text: String },
    /// A block no rule renders, by its kind.
    Unknown { kind: String, fallback_text: String },
}

/// One turn: who spoke, when, and what.
#[derive(Debug, Clone, PartialEq, Eq)]
pub struct Turn {
    pub role: Role,
    pub at: Option<Timestamp>,
    pub parts: Vec<Part>,
}

/// The name of a part's kind, as a notice lists what it dropped.
pub open spec fn kind_of_part(p: Part) -> Seq<char> {
    match p {
        Part::Text { .. } => "text"@,
        Part::ToolUse { .. } => "tool_use"@,
        Part::Table { .. } => "table"@,
        Part::File { .. } => "file"@,
        Part::Question { .. } => "question"@,
        Part::Diff { .. } => "diff"@,
        Part::Todo { .. } => "todo"@,
        Part::Status { .. } => "status"@,
        Part::Unknown { .. } => "unknown"@,
    }
}

/// The text a peer that cannot draw a part is shown: a text part's own words.
pub open spec fn fallback_of_part(p: Part) -> Seq<char> {
    match p {
        Part::Text { text } => text@,
        Part::ToolUse { fallback_text, .. } => fallback_text@,
        Part::Table { fallback_text, .. } => fallback_text@,
        Part::File { fallback_text, .. } => fallback_text@,
        Part::Question { fallback_text, .. } => fallback_text@,
        Part::Diff { fallback_text, .. } => fallback_text@,
        Part::Todo { fallback_text, .. } => fallback_text@,
        Part::Status { fallback_text, .. } => fallback_text@,
        Part::Unknown { fallback_text, .. } => fallback_text@,
    }
}

impl Part {
    /// The name of this part's kind.
    pub fn kind(&self) -> (k: &'static str)
        ensures
            k@ == kind_of_part(*self),
    {
        match self {
            Part::Text { .. } => "text",
            Part::ToolUse { .. } => "tool_use",
            Part::Table { .. } => "table",
            Part::File { .. } => "file",
            Part::Question { .. } => "question",
            Part::Diff { .. } => "diff",
            Part::Todo { .. } => "todo",
            Part::Status { .. } => "status",
            Part::Unknown { .. } => "unknown",
        }
    }

    /// The text a peer that cannot draw this part is shown.
    pub fn fallback_text(&self) -> (t: &str)
        ensures
            t@ == fallback_of_part(*self),
    {
        match self {
            Part::Text { text } => text.as_str(),
            Part::ToolUse { fallback_text, .. } => fallback_text.as_str(),
            Part::Table { fallback_text, .. } => fallback_text.as_str(),
            Part::File { fallback_text, .. } => fallback_text.as_str(),
            Part::Question { fallback_text, .. } => fallback_text.as_str(),
            Part::Diff { fallback_text, .. } => fallback_text.as_str(),
            Part::Todo { fallback_text, .. } => fallback_text.as_str(),
            Part::Status { fallback_text, .. } => fallback_text.as_str(),
            Part::Unknown { fallback_text, .. } => fallback_text.as_str(),
        }
    }
}

} // verus!
