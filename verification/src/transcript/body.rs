//! A message's content: a bare string for a typed prompt, a list of blocks
//! for everything else.
use vstd::prelude::*;
use crate::text::{chars_of, join, join_parts, string_of};
use crate::transcript::content::ContentBlock;
use crate::transcript::json::Json;

verus! {

/// A message's content. `Unreadable` is neither shape: a record whose
/// content this build cannot read still has a timestamp and a role worth
/// keeping.
#[derive(Debug)]
pub enum MessageBody {
    Blocks(Vec<ContentBlock>),
    Text(String),
    Unreadable(Json),
}

/// The texts of the text blocks, first first.
pub open spec fn text_blocks(blocks: Seq<ContentBlock>) -> Seq<Seq<char>>
    decreases blocks.len(),
{
    if blocks.len() == 0 {
        Seq::empty()
    } else {
        let before = text_blocks(blocks.drop_last());
        match blocks.last() {
            ContentBlock::Text { text } => before.push(text@),
            _ => before,
        }
    }
}

/// The blocks of a body, none for a bare string.
pub open spec fn blocks_of(body: MessageBody) -> Seq<ContentBlock> {
    match body {
        MessageBody::Blocks(b) => b@,
        _ => Seq::empty(),
    }
}

/// The body as one text: a bare string as it is, the text blocks on lines of
/// their own, nothing when there are none.
pub open spec fn joined_of(body: MessageBody) -> Option<Seq<char>> {
    match body {
        MessageBody::Text(t) => Some(t@),
        MessageBody::Blocks(b) => {
            let texts = text_blocks(b@);
            if texts.len() == 0 { None } else { Some(join(texts, seq!['\n'])) }
        },
        MessageBody::Unreadable(_) => None,
    }
}

impl Default for MessageBody {
    fn default() -> (b: MessageBody)
        ensures
            b matches MessageBody::Blocks(v) && v@.len() == 0,
    {
        MessageBody::Blocks(Vec::new())
    }
}

impl MessageBody {
    pub fn blocks(&self) -> (b: &[ContentBlock])
        ensures
            b@ == blocks_of(*self),
    {
        match self {
            MessageBody::Blocks(blocks) => blocks.as_slice(),
            _ => &[],
        }
    }

    pub fn text(&self) -> (t: Option<&str>)
        ensures
            match t {
                Some(s) => *self matches MessageBody::Text(x) && x@ == s@,
                None => !(*self is Text),
            },
    {
        match self {
            MessageBody::Text(text) => Some(text.as_str()),
            _ => None,
        }
    }

    /// The body as one string, whichever shape carried it: a queued prompt is
    /// a bare string most of the time and a list of blocks the rest, and both
    /// are the person typing.
    pub fn joined(&self) -> (text: Option<String>)
        ensures
            match text {
                Some(t) => joined_of(*self) == Some(t@),
                None => joined_of(*self) is None,
            },
    {
        match self {
            MessageBody::Text(text) => Some(string_of(chars_of(text.as_str()).as_slice())),
            MessageBody::Blocks(blocks) => {
                let mut texts: Vec<Vec<char>> = Vec::new();
                let mut i: usize = 0;
                while i < blocks.len()
                    invariant
                        i <= blocks@.len(),
                        texts.deep_view() == text_blocks(blocks@.take(i as int)),
                    decreases blocks@.len() - i,
                {
                    proof {
                        assert(blocks@.take(i + 1).drop_last() =~= blocks@.take(i as int));
                    }
                    match &blocks[i] {
                        ContentBlock::Text { text } => {
                            let ghost before = texts.deep_view();
                            let chars = chars_of(text.as_str());
                            texts.push(chars);
                            proof {
                                assert(texts[texts.len() - 1].deep_view() =~= text@);
                                assert(texts.deep_view() =~= before.push(text@));
                            }
                        },
                        _ => {},
                    }
                    i = i + 1;
                }
                proof {
                    assert(blocks@.take(i as int) =~= blocks@);
                }
                if texts.len() == 0 {
                    return None;
                }
                let joined = join_parts(&texts, &['\n']);
                proof {
                    assert(['\n']@ =~= seq!['\n']);
                }
                Some(string_of(joined.as_slice()))
            },
            MessageBody::Unreadable(_) => None,
        }
    }
}

} // verus!
