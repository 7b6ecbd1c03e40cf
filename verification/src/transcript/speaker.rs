//! Which records count toward a turn. The index counts by the same rule a
//! page is built by, so the two never disagree on how many turns there are.
use vstd::prelude::*;
use crate::text::{chars_of, same_chars, trim, trimmed};
use crate::transcript::attachment::queued_by_a_person;
use crate::transcript::body::joined_of;
use crate::transcript::command::{spoken_command, CommandTags, SlashCommand};
use crate::transcript::content::ContentBlock;
use crate::transcript::mapper::TurnMapper;
use crate::transcript::record::{
    has_tool_result, interrupted_record, is_assistant_record, is_command_record, is_queued_record,
    is_user_record, record_blocks, record_plain, Record,
};

verus! {

/// Whether a block of a model's record shows as anything: words that are not
/// all blank, a tool call, or an image.
pub open spec fn agent_block_shows(b: ContentBlock) -> bool {
    match b {
        ContentBlock::Text { text } => trim(text@).len() > 0,
        ContentBlock::ToolUse { .. } => true,
        ContentBlock::Image { .. } => true,
        _ => false,
    }
}

/// Whether a block of a person's record shows as anything: words that are
/// not the harness's noise, or an image.
pub open spec fn person_block_shows(b: ContentBlock, noise: spec_fn(Seq<char>) -> bool) -> bool {
    match b {
        ContentBlock::Text { text } => !noise(text@),
        ContentBlock::Image { .. } => true,
        _ => false,
    }
}

/// The text a person queued while the agent was working, if the record is
/// one.
pub open spec fn queued_text_of(r: Record) -> Option<Seq<char>> {
    match r.attachment {
        Some(a) => if queued_by_a_person(a) {
            joined_of(a.prompt)
        } else {
            None
        },
        None => None,
    }
}

/// `promptSource` when the harness spoke rather than the person.
pub open spec fn injected_source() -> Seq<char> {
    "system"@
}

/// Whether a record in the person's role is the person and not the harness
/// wearing their role.
///
/// A command they ran counts when its line reads back; a record carrying tool
/// results, or marked as the harness's own, does not. Words queued while the
/// agent worked count unless they are noise. The seam where the harness
/// replaced its context, and an interruption, count. Otherwise a record the
/// harness injected does not, and one that remains counts when its words are
/// not noise, or when any block of it shows.
pub open spec fn person_spoke(r: Record, tags: Option<CommandTags>, noise: spec_fn(Seq<char>) -> bool) -> bool {
    if is_command_record(r, tags) {
        r.content matches Some(c) && spoken_command(tags->0, c@) is Some
    } else if r.tool_use_result is Some || has_tool_result(record_blocks(r)) || r.is_meta {
        false
    } else if queued_text_of(r) is Some {
        !noise(queued_text_of(r)->0)
    } else if r.is_compact_summary || interrupted_record(r) {
        true
    } else if r.prompt_source matches Some(p) && p@ == injected_source() {
        false
    } else if record_plain(r) is Some {
        !noise(record_plain(r)->0)
    } else {
        exists|i: int| 0 <= i < record_blocks(r).len() && person_block_shows(#[trigger] record_blocks(r)[i], noise)
    }
}

/// Whether a record contributes anything to a turn: it is somebody's, it is
/// not a subagent's conversation, and it is a model's record with a block
/// that shows or the person speaking.
pub open spec fn yields_a_turn(r: Record, tags: Option<CommandTags>, noise: spec_fn(Seq<char>) -> bool) -> bool {
    &&& is_assistant_record(r) || is_user_record(r) || is_queued_record(r) || is_command_record(r, tags)
    &&& !r.is_sidechain
    &&& if is_assistant_record(r) {
        exists|i: int| 0 <= i < record_blocks(r).len() && agent_block_shows(#[trigger] record_blocks(r)[i])
    } else {
        person_spoke(r, tags, noise)
    }
}

/// Whether `is_noise` answers as `noise` says: the agent's table of what the
/// harness writes in the person's role, read as a function of the text alone.
pub open spec fn judges_as<F: Fn(&str) -> bool>(is_noise: F, noise: spec_fn(Seq<char>) -> bool) -> bool {
    forall|t: &str, v: bool| #[trigger] is_noise.ensures((t,), v) ==> v == noise(t@)
}

pub open spec fn tags_view(tags: Option<&CommandTags>) -> Option<CommandTags> {
    match tags {
        Some(t) => Some(*t),
        None => None,
    }
}

impl TurnMapper {
    fn agent_shows(blocks: &[ContentBlock]) -> (b: bool)
        ensures
            b == exists|i: int| 0 <= i < blocks@.len() && agent_block_shows(#[trigger] blocks@[i]),
    {
        let mut i: usize = 0;
        while i < blocks.len()
            invariant
                i <= blocks@.len(),
                forall|j: int| 0 <= j < i ==> !agent_block_shows(#[trigger] blocks@[j]),
            decreases blocks@.len() - i,
        {
            let shows = match &blocks[i] {
                ContentBlock::Text { text } => trimmed(chars_of(text.as_str()).as_slice()).len() > 0,
                ContentBlock::ToolUse { .. } => true,
                ContentBlock::Image { .. } => true,
                _ => false,
            };
            if shows {
                assert(agent_block_shows(blocks@[i as int]));
                return true;
            }
            i = i + 1;
        }
        false
    }

    fn person_shows<F: Fn(&str) -> bool>(blocks: &[ContentBlock], is_noise: &F) -> (b: bool)
        requires
            forall|t: &str| is_noise.requires((t,)),
        ensures
            forall|noise: spec_fn(Seq<char>) -> bool| judges_as(*is_noise, noise) ==>
                (b == exists|i: int| 0 <= i < blocks@.len() && person_block_shows(#[trigger] blocks@[i], noise)),
    {
        let mut i: usize = 0;
        while i < blocks.len()
            invariant
                i <= blocks@.len(),
                forall|t: &str| is_noise.requires((t,)),
                forall|noise: spec_fn(Seq<char>) -> bool| judges_as(*is_noise, noise) ==>
                    forall|j: int| 0 <= j < i ==> !person_block_shows(#[trigger] blocks@[j], noise),
            decreases blocks@.len() - i,
        {
            match &blocks[i] {
                ContentBlock::Text { text } => {
                    let t = text.as_str();
                    let v = is_noise(t);
                    if !v {
                        assert forall|noise: spec_fn(Seq<char>) -> bool| judges_as(*is_noise, noise) implies
                            person_block_shows(blocks@[i as int], noise) by {
                            assert(is_noise.ensures((t,), v));
                        }
                        return true;
                    }
                    assert forall|noise: spec_fn(Seq<char>) -> bool| judges_as(*is_noise, noise) implies
                        !person_block_shows(blocks@[i as int], noise) by {
                        assert(is_noise.ensures((t,), v));
                    }
                },
                ContentBlock::Image { .. } => {
                    return true;
                },
                _ => {},
            }
            i = i + 1;
        }
        false
    }

    /// Whether a record in the person's role is the person and not the
    /// harness wearing their role.
    pub fn person_spoke<F: Fn(&str) -> bool>(record: &Record, tags: Option<&CommandTags>, is_noise: &F) -> (b: bool)
        requires
            forall|t: &str| is_noise.requires((t,)),
        ensures
            forall|noise: spec_fn(Seq<char>) -> bool| judges_as(*is_noise, noise) ==>
                b == person_spoke(*record, tags_view(tags), noise),
    {
        if record.is_local_command(tags) {
            let t = match tags {
                Some(t) => t,
                None => return false,
            };
            return match &record.content {
                Some(text) => SlashCommand::spoken(t, text.as_str()).is_some(),
                None => false,
            };
        }
        if record.carries_tool_results() || record.is_meta {
            return false;
        }
        match record.queued_text() {
            Some(queued) => {
                let q = queued.as_str();
                let v = is_noise(q);
                assert forall|noise: spec_fn(Seq<char>) -> bool| judges_as(*is_noise, noise) implies
                    !v == person_spoke(*record, tags_view(tags), noise) by {
                    assert(is_noise.ensures((q,), v));
                }
                return !v;
            },
            None => {},
        }
        if record.is_compact_summary || record.interrupted() {
            return true;
        }
        let injected = match &record.prompt_source {
            Some(p) => same_chars(chars_of(p.as_str()).as_slice(), chars_of("system").as_slice()),
            None => false,
        };
        proof {
            reveal_strlit("system");
        }
        if injected {
            return false;
        }
        match record.plain_text() {
            Some(text) => {
                let v = is_noise(text);
                assert forall|noise: spec_fn(Seq<char>) -> bool| judges_as(*is_noise, noise) implies
                    !v == person_spoke(*record, tags_view(tags), noise) by {
                    assert(is_noise.ensures((text,), v));
                }
                !v
            },
            None => Self::person_shows(record.blocks(), is_noise),
        }
    }

    /// Whether a record contributes anything to a turn. The index counts by
    /// this, so that what it counts and what a page returns are the same set.
    pub fn yields_turn<F: Fn(&str) -> bool>(record: &Record, tags: Option<&CommandTags>, is_noise: &F) -> (b: bool)
        requires
            forall|t: &str| is_noise.requires((t,)),
        ensures
            forall|noise: spec_fn(Seq<char>) -> bool| judges_as(*is_noise, noise) ==>
                b == yields_a_turn(*record, tags_view(tags), noise),
    {
        if !record.is_turn_candidate(tags) {
            return false;
        }
        if record.is_sidechain {
            return false;
        }
        if record.is_assistant() {
            return Self::agent_shows(record.blocks());
        }
        Self::person_spoke(record, tags, is_noise)
    }
}

} // verus!
