//! One block inside an agent record's message content.
use vstd::prelude::*;
use crate::text::{chars_of, join, join_parts, string_of};
use crate::transcript::json::{str_field, Json};

verus! {

/// One block inside an agent record's message content. `Other` is a block of
/// a type added upstream since: an unknown block becoming nothing is right,
/// an unknown block failing the whole page is not.
#[derive(Debug)]
pub enum ContentBlock {
    Text { text: String },
    Thinking { thinking: String },
    ToolUse { id: String, name: String, input: Json },
    ToolResult { tool_use_id: String, content: Json, is_error: bool },
    Image { source: Json },
    Other,
}

/// A block's own name.
pub open spec fn kind_of(block: ContentBlock) -> Seq<char> {
    match block {
        ContentBlock::Text { .. } => "text"@,
        ContentBlock::Thinking { .. } => "thinking"@,
        ContentBlock::ToolUse { .. } => "tool_use"@,
        ContentBlock::ToolResult { .. } => "tool_result"@,
        ContentBlock::Image { .. } => "image"@,
        ContentBlock::Other => "other"@,
    }
}

/// The `text` of each element that has one, first first.
pub open spec fn block_texts(blocks: Seq<Json>) -> Seq<Seq<char>>
    decreases blocks.len(),
{
    if blocks.len() == 0 {
        Seq::empty()
    } else {
        let before = block_texts(blocks.drop_last());
        match str_field(blocks.last(), "text"@) {
            Some(t) => before.push(t),
            None => before,
        }
    }
}

/// The text of a tool result: a string as it is, or a list's texts on lines
/// of their own; nothing for a list without any, or any other shape.
pub open spec fn result_text_of(content: Json) -> Option<Seq<char>> {
    match content {
        Json::String(t) => Some(t@),
        Json::Array(blocks) => {
            let texts = block_texts(blocks@);
            if texts.len() == 0 { None } else { Some(join(texts, seq!['\n'])) }
        },
        _ => None,
    }
}

impl ContentBlock {
    /// The block's own name, which is what an unmappable block carries.
    pub fn kind(&self) -> (k: &'static str)
        ensures
            k@ == kind_of(*self),
    {
        match self {
            ContentBlock::Text { .. } => "text",
            ContentBlock::Thinking { .. } => "thinking",
            ContentBlock::ToolUse { .. } => "tool_use",
            ContentBlock::ToolResult { .. } => "tool_result",
            ContentBlock::Image { .. } => "image",
            ContentBlock::Other => "other",
        }
    }

    /// The text of a tool result, whichever of the two shapes it arrived in:
    /// a string most of the time and a list of text blocks the rest.
    pub fn result_text(content: &Json) -> (text: Option<String>)
        ensures
            match text {
                Some(t) => result_text_of(*content) == Some(t@),
                None => result_text_of(*content) is None,
            },
    {
        match content {
            Json::String(t) => Some(string_of(chars_of(t.as_str()).as_slice())),
            Json::Array(blocks) => {
                let mut texts: Vec<Vec<char>> = Vec::new();
                let mut i: usize = 0;
                while i < blocks.len()
                    invariant
                        i <= blocks@.len(),
                        texts.deep_view() == block_texts(blocks@.take(i as int)),
                    decreases blocks@.len() - i,
                {
                    proof {
                        assert(blocks@.take(i + 1).drop_last() =~= blocks@.take(i as int));
                    }
                    match blocks[i].get("text") {
                        Some(v) => match v.as_str() {
                            Some(t) => {
                                let ghost before = texts.deep_view();
                                let chars = chars_of(t);
                                texts.push(chars);
                                proof {
                                    assert(texts[texts.len() - 1].deep_view() =~= t@);
                                    assert(texts.deep_view() =~= before.push(t@));
                                }
                            },
                            None => {},
                        },
                        None => {},
                    }
                    i = i + 1;
                }
                proof {
                    assert(blocks@.take(i as int) =~= blocks@);
                }
                if texts.len() == 0 {
                    return None;
                }
                let joined = join_parts(&texts, &['\n']);
                proof {
                    assert(['\n']@ =~= seq!['\n']);
                }
                Some(string_of(joined.as_slice()))
            },
            _ => None,
        }
    }
}

} // verus!
