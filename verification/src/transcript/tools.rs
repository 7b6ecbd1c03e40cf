//! A tool call as parts: the rendering the agent's tables name for the tool,
//! when the call carries what that rendering needs, and a plain row otherwise.
use vstd::prelude::*;
use crate::text::{chars_of, join, same_chars, string_of, trim, trimmed};
use crate::transcript::content::ContentBlock;
use crate::transcript::tables::table_segments;
use crate::transcript::assets::{mime_of, AssetNaming};
use crate::transcript::json::{json_array, json_get, json_str, json_u64, str_field, Json};
use crate::transcript::mapper::{
    answers_in, answers_recorded, answers_view, any_answered, asks_in, capped, diff_path, fallback_of,
    held, hunks_counting, items_view, kept_segments, patch_of, segment_part_is, text_at, todo_lines, todos_in, unified_of, TurnMapper,
};
use crate::transcript::operator::{card_part_is, spells_as, uploads_view};
use crate::transcript::question::text_of;
use crate::transcript::record::{record_blocks, Record, Timestamp};
use crate::transcript::results::{outcome_field, ToolOutcome};
use crate::transcript::turn::{Part, ToolStatus};

verus! {

/// The tools an agent's harness gives each special rendering, by name: those
/// that ask the person questions, hand files over, edit files, and keep a
/// plan.
#[derive(Debug, Clone, PartialEq, Eq)]
pub struct ToolTables {
    pub question: Vec<String>,
    pub file_push: Vec<String>,
    pub diff: Vec<String>,
    pub todo: Vec<String>,
}

/// Whether `table` names the tool `name`.
pub open spec fn names_tool(table: Seq<String>, name: Seq<char>) -> bool {
    exists|i: int| 0 <= i < table.len() && (#[trigger] table[i])@ == name
}

/// The files an outcome's attachments name, each with its media type and
/// size when given; an attachment without a path is skipped.
pub open spec fn attachment_cards(items: Seq<Json>) -> Seq<(Seq<char>, Option<Seq<char>>, Option<u64>)>
    decreases items.len(),
{
    if items.len() == 0 {
        Seq::empty()
    } else {
        let before = attachment_cards(items.drop_last());
        match str_field(items.last(), "path"@) {
            Some(p) => before.push(
                (
                    p,
                    str_field(items.last(), "media_type"@),
                    match json_get(items.last(), "size"@) {
                        Some(v) => json_u64(v),
                        None => None,
                    },
                ),
            ),
            None => before,
        }
    }
}

/// The paths a call's input lists, anything not text skipped.
pub open spec fn listed_files(items: Seq<Json>) -> Seq<(Seq<char>, Option<Seq<char>>, Option<u64>)>
    decreases items.len(),
{
    if items.len() == 0 {
        Seq::empty()
    } else {
        let before = listed_files(items.drop_last());
        match json_str(items.last()) {
            Some(p) => before.push((p, None, None)),
            None => before,
        }
    }
}

/// The files a hand-over shows as cards: those its result attaches, which
/// carry sizes and media types, or else those its input lists.
pub open spec fn file_cards(input: Json, outcome: Option<ToolOutcome>) -> Seq<(Seq<char>, Option<Seq<char>>, Option<u64>)> {
    let attached = match outcome {
        Some(o) => match outcome_field(o, "attachments"@) {
            Some(a) => match json_array(a) {
                Some(items) => attachment_cards(items),
                None => Seq::empty(),
            },
            None => Seq::empty(),
        },
        None => Seq::empty(),
    };
    if attached.len() > 0 {
        attached
    } else {
        match json_get(input, "files"@) {
            Some(f) => match json_array(f) {
                Some(items) => listed_files(items),
                None => Seq::empty(),
            },
            None => Seq::empty(),
        }
    }
}

/// A tool call's structured result, when it has one.
pub open spec fn outcome_detail(outcome: Option<ToolOutcome>) -> Option<Json> {
    match outcome {
        Some(o) => o.detail,
        None => None,
    }
}

/// How a tool call shows.
pub enum Rendering {
    Question,
    Files,
    Diff,
    Todo,
    Row,
}

/// The rendering a call gets: the first the tables name the tool for whose
/// needs the call meets, each declining when it would show nothing, and the
/// plain row when none applies, so a call is never dropped.
pub open spec fn rendering(tables: ToolTables, name: Seq<char>, input: Json, outcome: Option<ToolOutcome>) -> Rendering {
    if names_tool(tables.question@, name) && asks_in(input).len() > 0 {
        Rendering::Question
    } else if names_tool(tables.file_push@, name) && file_cards(input, outcome).len() > 0 {
        Rendering::Files
    } else if names_tool(tables.diff@, name) && patch_of(outcome_detail(outcome)) is Some {
        Rendering::Diff
    } else if names_tool(tables.todo@, name) && todos_in(input) is Some && todos_in(input).unwrap().len() > 0 {
        Rendering::Todo
    } else {
        Rendering::Row
    }
}

/// Whether `p` is the question part for a call with `input` and `outcome`.
pub open spec fn question_part_is(p: Part, id: Seq<char>, fingerprint: Seq<char>, input: Json, outcome: Option<ToolOutcome>) -> bool {
    match p {
        Part::Question { question, answered, fallback_text } => {
            let recorded = match outcome_detail(outcome) {
                Some(d) => json_get(d, "answers"@),
                None => None,
            };
            let answers = answers_in(asks_in(input), recorded);
            &&& question@.id == id
            &&& question@.fingerprint == fingerprint
            &&& question@.asks == asks_in(input)
            &&& fallback_text@ == fallback_of(asks_in(input))
            &&& (answered is Some <==> any_answered(answers))
            &&& (answered matches Some(r) ==> answers_view(r.answers@) == answers && r.at == match outcome {
                Some(o) => match o.at {
                    Some(t) => t,
                    None => Timestamp(0),
                },
                None => Timestamp(0),
            })
        },
        _ => false,
    }
}

/// Whether `p` is the diff part for an edit's `input` and `outcome`.
pub open spec fn diff_part_is(p: Part, input: Json, outcome: Option<ToolOutcome>) -> bool {
    let hunks = patch_of(outcome_detail(outcome))->0;
    match p {
        Part::Diff { path, unified, added, removed, fallback_text } => {
            &&& path@ == diff_path(input, outcome_detail(outcome))
            &&& unified@ == unified_of(path@, hunks)
            &&& added == Some(capped(hunks_counting(hunks, '+') as int))
            &&& removed == Some(capped(hunks_counting(hunks, '-') as int))
            &&& fallback_text@ == unified@
        },
        _ => false,
    }
}

/// Whether `p` is the plan a call lists.
pub open spec fn todo_part_is(p: Part, input: Json) -> bool {
    p matches Part::Todo { items, fallback_text } && items_view(items@) == todos_in(input).unwrap()
        && fallback_text@ == join(todo_lines(todos_in(input).unwrap()), seq!['\n'])
}

/// Whether `p` is the plain row for a call named `name` whose input encodes
/// as `encoded`.
pub open spec fn row_part_is(p: Part, name: Seq<char>, encoded: Seq<char>, outcome: Option<ToolOutcome>) -> bool {
    p matches Part::ToolUse { name: n, input, result, status, fallback_text } && n@ == name && input@ == encoded
        && text_of(result) == match outcome {
        Some(o) => text_of(o.text),
        None => None,
    } && status == match outcome {
        None => ToolStatus::Running,
        Some(o) => if o.is_error {
            ToolStatus::Failed
        } else {
            ToolStatus::Succeeded
        },
    } && fallback_text@ == name + seq!['\n'] + encoded + match text_of(result) {
        Some(t) => seq!['\n'] + t,
        None => Seq::empty(),
    }
}

/// Whether `parts` is what a tool call shows as.
pub open spec fn tool_parts_are(
    parts: Seq<Part>,
    tables: ToolTables,
    id: Seq<char>,
    fingerprint: Seq<char>,
    name: Seq<char>,
    input: Json,
    encoded: Seq<char>,
    outcome: Option<ToolOutcome>,
    uploads: Option<Seq<char>>,
    canon: spec_fn(Seq<char>) -> Seq<char>,
) -> bool {
    match rendering(tables, name, input, outcome) {
        Rendering::Question => parts.len() == 1 && question_part_is(parts[0], id, fingerprint, input, outcome),
        Rendering::Files => {
            let cards = file_cards(input, outcome);
            &&& parts.len() == cards.len()
            &&& forall|i: int| 0 <= i < cards.len() ==> card_part_is(
                #[trigger] parts[i],
                cards[i].0,
                uploads,
                cards[i].1,
                cards[i].2,
                canon(cards[i].0),
            )
        },
        Rendering::Diff => parts.len() == 1 && diff_part_is(parts[0], input, outcome),
        Rendering::Todo => parts.len() == 1 && todo_part_is(parts[0], input),
        Rendering::Row => parts.len() == 1 && row_part_is(parts[0], name, encoded, outcome),
    }
}

impl ToolTables {
    fn names(table: &Vec<String>, name: &str) -> (b: bool)
        ensures
            b == names_tool(table@, name@),
    {
        let want = chars_of(name);
        let mut i: usize = 0;
        while i < table.len()
            invariant
                i <= table@.len(),
                want@ == name@,
                forall|j: int| 0 <= j < i ==> (#[trigger] table@[j])@ != name@,
            decreases table@.len() - i,
        {
            if same_chars(chars_of(table[i].as_str()).as_slice(), want.as_slice()) {
                return true;
            }
            i = i + 1;
        }
        false
    }
}


/// Cards as their views.
pub open spec fn cards_view(v: Seq<(String, Option<String>, Option<u64>)>) -> Seq<(Seq<char>, Option<Seq<char>>, Option<u64>)> {
    v.map_values(|c: (String, Option<String>, Option<u64>)| (c.0@, text_of(c.1), c.2))
}

fn attachments_of(items: &Vec<Json>) -> (cards: Vec<(String, Option<String>, Option<u64>)>)
    ensures
        cards_view(cards@) == attachment_cards(items@),
{
    let mut cards: Vec<(String, Option<String>, Option<u64>)> = Vec::new();
    let mut i: usize = 0;
    while i < items.len()
        invariant
            i <= items@.len(),
            cards_view(cards@) == attachment_cards(items@.take(i as int)),
        decreases items@.len() - i,
    {
        proof {
            assert(items@.take(i + 1).drop_last() =~= items@.take(i as int));
            assert(items@.take(i + 1).last() == items@[i as int]);
        }
        let item = &items[i];
        match text_at(item, "path") {
            Some(path) => {
                let mime = text_at(item, "media_type");
                let size = match item.get("size") {
                    Some(v) => v.as_u64(),
                    None => None,
                };
                let ghost before = cards@;
                cards.push((path, mime, size));
                proof {
                    assert(cards_view(cards@) =~= cards_view(before).push((path@, text_of(mime), size)));
                }
            },
            None => {},
        }
        i = i + 1;
    }
    proof {
        assert(items@.take(items@.len() as int) =~= items@);
    }
    cards
}

fn listed_of(items: &Vec<Json>) -> (cards: Vec<(String, Option<String>, Option<u64>)>)
    ensures
        cards_view(cards@) == listed_files(items@),
{
    let mut cards: Vec<(String, Option<String>, Option<u64>)> = Vec::new();
    let mut i: usize = 0;
    while i < items.len()
        invariant
            i <= items@.len(),
            cards_view(cards@) == listed_files(items@.take(i as int)),
        decreases items@.len() - i,
    {
        proof {
            assert(items@.take(i + 1).drop_last() =~= items@.take(i as int));
            assert(items@.take(i + 1).last() == items@[i as int]);
        }
        match items[i].as_str() {
            Some(p) => {
                let path = string_of(chars_of(p).as_slice());
                let ghost before = cards@;
                cards.push((path, None, None));
                proof {
                    assert(cards_view(cards@) =~= cards_view(before).push((p@, None, None)));
                }
            },
            None => {},
        }
        i = i + 1;
    }
    proof {
        assert(items@.take(items@.len() as int) =~= items@);
    }
    cards
}

fn cards_of(input: &Json, outcome: Option<&ToolOutcome>) -> (cards: Vec<(String, Option<String>, Option<u64>)>)
    ensures
        cards_view(cards@) == file_cards(*input, match outcome {
            Some(o) => Some(*o),
            None => None,
        }),
{
    let attached = match outcome {
        Some(o) => match o.field("attachments") {
            Some(a) => match a.as_array() {
                Some(items) => attachments_of(items),
                None => Vec::new(),
            },
            None => Vec::new(),
        },
        None => Vec::new(),
    };
    proof {
        assert(cards_view(Seq::<(String, Option<String>, Option<u64>)>::empty()) =~= Seq::empty());
    }
    if attached.len() > 0 {
        return attached;
    }
    match input.get("files") {
        Some(f) => match f.as_array() {
            Some(items) => listed_of(items),
            None => Vec::new(),
        },
        None => Vec::new(),
    }
}

pub open spec fn outcome_view(outcome: Option<&ToolOutcome>) -> Option<ToolOutcome> {
    match outcome {
        Some(o) => Some(*o),
        None => None,
    }
}


/// Whether `describe` answers as `d` says: for a tool call's id and input,
/// the question set's id and fingerprint and the input as JSON text.
pub open spec fn describes_as<D: Fn(&str, &Json) -> (String, String, String)>(
    describe: D,
    d: spec_fn(Seq<char>, Json) -> (Seq<char>, Seq<char>, Seq<char>),
) -> bool {
    forall|id: &str, input: &Json, r: (String, String, String)| #[trigger] describe.ensures((id, input), r) ==> (
    r.0@,
    r.1@,
    r.2@,
    ) == d(id@, *input)
}

/// The outcome recorded for a tool call: the last one read for its id.
pub open spec fn outcome_for(outcomes: Seq<(String, ToolOutcome)>, id: Seq<char>) -> Option<ToolOutcome>
    decreases outcomes.len(),
{
    if outcomes.len() == 0 {
        None
    } else if outcomes.last().0@ == id {
        Some(outcomes.last().1)
    } else {
        outcome_for(outcomes.drop_last(), id)
    }
}

/// Whether `p` is an image shown by its media type alone.
pub open spec fn image_part_is(p: Part, source: Json) -> bool {
    p matches Part::Unknown { kind, fallback_text } && kind@ == "image"@ && fallback_text@ == seq!['['] + match str_field(
        source,
        "media_type"@,
    ) {
        Some(m) => m,
        None => "image"@,
    } + seq![']']
}

/// Whether `group` is what one block of a model's record shows as: words
/// that are not blank as prose, with any table in them as a table; a tool
/// call as its rendering; an image by its media type; anything else as
/// nothing.
pub open spec fn block_parts_are(
    group: Seq<Part>,
    b: ContentBlock,
    tables: ToolTables,
    outcomes: Seq<(String, ToolOutcome)>,
    uploads: Option<Seq<char>>,
    canon: spec_fn(Seq<char>) -> Seq<char>,
    d: spec_fn(Seq<char>, Json) -> (Seq<char>, Seq<char>, Seq<char>),
) -> bool {
    match b {
        ContentBlock::Text { text } => if trim(text@).len() > 0 {
            let kept = kept_segments(table_segments(text@));
            &&& group.len() == kept.len()
            &&& forall|i: int| 0 <= i < kept.len() ==> segment_part_is(#[trigger] group[i], kept[i])
        } else {
            group.len() == 0
        },
        ContentBlock::ToolUse { id, name, input } => {
            let described = d(id@, input);
            tool_parts_are(
                group,
                tables,
                described.0,
                described.1,
                name@,
                input,
                described.2,
                outcome_for(outcomes, id@),
                uploads,
                canon,
            )
        },
        ContentBlock::Image { source } => group.len() == 1 && image_part_is(group[0], source),
        _ => group.len() == 0,
    }
}

/// Whether `parts` is `before` followed by what each of `blocks` shows as,
/// in order, the block `i` showing as the parts from `bounds[i]` up to
/// `bounds[i + 1]`.
pub open spec fn split_by_blocks(
    before: Seq<Part>,
    parts: Seq<Part>,
    bounds: Seq<int>,
    blocks: Seq<ContentBlock>,
    tables: ToolTables,
    outcomes: Seq<(String, ToolOutcome)>,
    uploads: Option<Seq<char>>,
    canon: spec_fn(Seq<char>) -> Seq<char>,
    d: spec_fn(Seq<char>, Json) -> (Seq<char>, Seq<char>, Seq<char>),
) -> bool {
    &&& bounds.len() == blocks.len() + 1
    &&& bounds[0] == before.len()
    &&& bounds.last() == parts.len()
    &&& parts.take(before.len() as int) == before
    &&& forall|i: int| 0 <= i < blocks.len() ==> bounds[i] <= #[trigger] bounds[i + 1]
    &&& forall|i: int| 0 <= i < blocks.len() ==> block_parts_are(
        parts.subrange(bounds[i], bounds[i + 1]),
        #[trigger] blocks[i],
        tables,
        outcomes,
        uploads,
        canon,
        d,
    )
}

proof fn lemma_split_push(
    before: Seq<Part>,
    was: Seq<Part>,
    after: Seq<Part>,
    bounds: Seq<int>,
    blocks: Seq<ContentBlock>,
    b: ContentBlock,
    tables: ToolTables,
    outcomes: Seq<(String, ToolOutcome)>,
    uploads: Option<Seq<char>>,
    canon: spec_fn(Seq<char>) -> Seq<char>,
    d: spec_fn(Seq<char>, Json) -> (Seq<char>, Seq<char>, Seq<char>),
)
    requires
        split_by_blocks(before, was, bounds, blocks, tables, outcomes, uploads, canon, d),
        was.len() <= after.len(),
        after.take(was.len() as int) == was,
        block_parts_are(after.subrange(was.len() as int, after.len() as int), b, tables, outcomes, uploads, canon, d),
    ensures
        split_by_blocks(before, after, bounds.push(after.len() as int), blocks.push(b), tables, outcomes, uploads, canon, d),
{
    let nb = bounds.push(after.len() as int);
    let nbl = blocks.push(b);
    lemma_bounds_ascend(bounds, blocks.len() as int, 0, blocks.len() as int);
    assert(before.len() <= was.len());
    assert(after.take(before.len() as int) =~= before) by {
        assert forall|k: int| 0 <= k < before.len() implies after.take(before.len() as int)[k] == before[k] by {
            assert(after.take(was.len() as int)[k] == was[k]);
            assert(was.take(before.len() as int)[k] == before[k]);
        }
    }
    assert forall|i: int| 0 <= i < nbl.len() implies nb[i] <= #[trigger] nb[i + 1] by {
        if i < blocks.len() {
            assert(bounds[i] <= bounds[i + 1]);
        }
    }
    assert forall|i: int| 0 <= i < nbl.len() implies block_parts_are(
        after.subrange(nb[i], nb[i + 1]),
        #[trigger] nbl[i],
        tables,
        outcomes,
        uploads,
        canon,
        d,
    ) by {
        if i < blocks.len() {
            assert(bounds[i] <= bounds[i + 1]);
            assert(bounds[i + 1] <= bounds.last()) by {
                assert forall|k: int| i + 1 <= k < bounds.len() implies bounds[i + 1] <= #[trigger] bounds[k] by {
                    lemma_bounds_ascend(bounds, blocks.len() as int, i + 1, k);
                }
            }
            lemma_bounds_ascend(bounds, blocks.len() as int, 0, i);
            assert(nb[i] == bounds[i] && nb[i + 1] == bounds[i + 1]);
            assert forall|k: int| 0 <= k < was.len() implies after[k] == was[k] by {
                assert(after.take(was.len() as int)[k] == was[k]);
            }
            assert(after.subrange(nb[i], nb[i + 1]) =~= was.subrange(bounds[i], bounds[i + 1]));
            assert(block_parts_are(was.subrange(bounds[i], bounds[i + 1]), blocks[i], tables, outcomes, uploads, canon, d));
        } else {
            assert(nb[i] == was.len());
        }
    }
}

proof fn lemma_bounds_ascend(bounds: Seq<int>, n: int, a: int, b: int)
    requires
        bounds.len() == n + 1,
        forall|i: int| 0 <= i < n ==> bounds[i] <= #[trigger] bounds[i + 1],
        0 <= a <= b <= n,
    ensures
        bounds[a] <= bounds[b],
    decreases b - a,
{
    if a < b {
        lemma_bounds_ascend(bounds, n, a + 1, b);
        assert(bounds[a] <= bounds[a + 1]);
    }
}

pub open spec fn outcomes_view(outcomes: &Vec<(String, ToolOutcome)>) -> Seq<(String, ToolOutcome)> {
    outcomes@
}

fn outcome_of<'a>(outcomes: &'a Vec<(String, ToolOutcome)>, id: &str) -> (o: Option<&'a ToolOutcome>)
    ensures
        outcome_view(o) == outcome_for(outcomes@, id@),
{
    let want = chars_of(id);
    let mut i: usize = outcomes.len();
    proof {
        assert(outcomes@.take(i as int) =~= outcomes@);
    }
    while i > 0
        invariant
            i <= outcomes@.len(),
            want@ == id@,
            outcome_for(outcomes@.take(i as int), id@) == outcome_for(outcomes@, id@),
        decreases i,
    {
        proof {
            assert(outcomes@.take(i as int).drop_last() =~= outcomes@.take(i - 1));
        }
        if same_chars(chars_of(outcomes[i - 1].0.as_str()).as_slice(), want.as_slice()) {
            return Some(&outcomes[i - 1].1);
        }
        i = i - 1;
    }
    proof {
        assert(outcomes@.take(0) =~= Seq::<(String, ToolOutcome)>::empty());
    }
    None
}

impl TurnMapper {
    /// The cards for the files a hand-over names: those its result attaches,
    /// or else those its input lists. `canonical` spells each path the way it
    /// is found again.
    pub fn file_parts<G: Fn(&str) -> String>(
        input: &Json,
        outcome: Option<&ToolOutcome>,
        uploads: Option<&str>,
        canonical: &G,
    ) -> (parts: Vec<Part>)
        requires
            forall|t: &str| canonical.requires((t,)),
        ensures
            parts@.len() == file_cards(*input, outcome_view(outcome)).len(),
            forall|canon: spec_fn(Seq<char>) -> Seq<char>| spells_as(*canonical, canon) ==> {
                let cards = file_cards(*input, outcome_view(outcome));
                &&& parts@.len() == cards.len()
                &&& forall|i: int| 0 <= i < cards.len() ==> card_part_is(
                    #[trigger] parts@[i],
                    cards[i].0,
                    uploads_view(uploads),
                    cards[i].1,
                    cards[i].2,
                    canon(cards[i].0),
                )
            },
    {
        let cards = cards_of(input, outcome);
        let ghost cv = cards_view(cards@);
        assert(cv.len() == cards@.len());
        let mut parts: Vec<Part> = Vec::new();
        let mut i: usize = 0;
        while i < cards.len()
            invariant
                i <= cards@.len(),
                cv == cards_view(cards@),
                parts@.len() == i,
                forall|t: &str| canonical.requires((t,)),
                forall|canon: spec_fn(Seq<char>) -> Seq<char>| spells_as(*canonical, canon) ==>
                    forall|j: int| 0 <= j < i ==> card_part_is(
                        #[trigger] parts@[j],
                        cv[j].0,
                        uploads_view(uploads),
                        cv[j].1,
                        cv[j].2,
                        canon(cv[j].0),
                    ),
            decreases cards@.len() - i,
        {
            let path = cards[i].0.as_str();
            let c = canonical(path);
            let mime = match &cards[i].1 {
                Some(m) => Some(string_of(chars_of(m.as_str()).as_slice())),
                None => None,
            };
            let part = Self::file_part(path, mime, cards[i].2, uploads, c.as_str());
            let ghost was = parts@;
            parts.push(part);
            proof {
                assert forall|canon: spec_fn(Seq<char>) -> Seq<char>| spells_as(*canonical, canon) implies
                    forall|j: int| 0 <= j <= i ==> card_part_is(
                        #[trigger] parts@[j],
                        cv[j].0,
                        uploads_view(uploads),
                        cv[j].1,
                        cv[j].2,
                        canon(cv[j].0),
                    ) by {
                    assert(canonical.ensures((path,), c));
                    assert(c@ == canon(path@));
                    assert forall|j: int| 0 <= j <= i implies card_part_is(
                        #[trigger] parts@[j],
                        cv[j].0,
                        uploads_view(uploads),
                        cv[j].1,
                        cv[j].2,
                        canon(cv[j].0),
                    ) by {
                        if j < i {
                            assert(parts@[j] == was[j]);
                        }
                    }
                }
            }
            i = i + 1;
        }
        parts
    }

    /// A tool call as parts: the questions it asks, the files it hands over,
    /// the edit it made or the plan it keeps, when the agent's tables name the
    /// tool for that and the call carries what it needs; each rendering that
    /// would show nothing declines to the next, down to the plain row, so a
    /// call is never dropped. `id` and `fingerprint` are the question set's,
    /// `encoded` the input as JSON text, and `canonical` spells a handed-over
    /// file's path the way it is found again.
    pub fn tool_parts<G: Fn(&str) -> String>(
        tables: &ToolTables,
        id: String,
        fingerprint: String,
        name: &str,
        input: &Json,
        encoded: String,
        outcome: Option<&ToolOutcome>,
        uploads: Option<&str>,
        canonical: &G,
    ) -> (parts: Vec<Part>)
        requires
            forall|t: &str| canonical.requires((t,)),
        ensures
            forall|canon: spec_fn(Seq<char>) -> Seq<char>| spells_as(*canonical, canon) ==> tool_parts_are(
                parts@,
                *tables,
                id@,
                fingerprint@,
                name@,
                *input,
                encoded@,
                outcome_view(outcome),
                uploads_view(uploads),
                canon,
            ),
    {
        let ghost (idv, fpv) = (id@, fingerprint@);
        let detail = match outcome {
            Some(o) => match &o.detail {
                Some(d) => Some(d),
                None => None,
            },
            None => None,
        };
        let at = match outcome {
            Some(o) => o.at,
            None => None,
        };
        assert(held(detail) == outcome_detail(outcome_view(outcome)));
        if ToolTables::names(&tables.question, name) {
            let parts = Self::question_parts(id, fingerprint, input, detail, at);
            if parts.len() > 0 {
                return parts;
            }
        }
        if ToolTables::names(&tables.file_push, name) {
            let parts = Self::file_parts(input, outcome, uploads, canonical);
            if parts.len() > 0 {
                return parts;
            }
        }
        if ToolTables::names(&tables.diff, name) {
            let parts = Self::diff_parts(input, detail);
            if parts.len() > 0 {
                return parts;
            }
        }
        if ToolTables::names(&tables.todo, name) {
            match Self::todo_part(input) {
                Some(p) => {
                    let mut parts: Vec<Part> = Vec::new();
                    parts.push(p);
                    return parts;
                },
                None => {},
            }
        }
        let mut parts: Vec<Part> = Vec::new();
        parts.push(Self::tool_use_part(name, encoded, outcome));
        parts
    }

    /// What a model's record shows as, appended to `parts`: each block in
    /// order, words as prose with any table in them as a table, a tool call
    /// as its rendering with the outcome recorded for it, an image by its
    /// media type; reasoning and anything else as nothing. `describe` gives a
    /// call's question id, fingerprint and input as JSON text; `canonical`
    /// spells a handed-over file's path the way it is found again.
    pub fn agent_parts<G: Fn(&str) -> String, D: Fn(&str, &Json) -> (String, String, String)>(
        record: &Record,
        tables: &ToolTables,
        outcomes: &Vec<(String, ToolOutcome)>,
        uploads: Option<&str>,
        canonical: &G,
        describe: &D,
        parts: &mut Vec<Part>,
    )
        requires
            forall|t: &str| canonical.requires((t,)),
            forall|id: &str, input: &Json| describe.requires((id, input)),
        ensures
            forall|canon: spec_fn(Seq<char>) -> Seq<char>, d: spec_fn(Seq<char>, Json) -> (Seq<char>, Seq<char>, Seq<char>)|
                spells_as(*canonical, canon) && describes_as(*describe, d) ==> exists|bounds: Seq<int>|
                    #[trigger] split_by_blocks(
                        old(parts)@,
                        final(parts)@,
                        bounds,
                        record_blocks(*record),
                        *tables,
                        outcomes@,
                        uploads_view(uploads),
                        canon,
                        d,
                    ),
    {
        let blocks = record.blocks();
        let ghost before = parts@;
        let ghost up = uploads_view(uploads);
        let ghost mut bounds: Seq<int> = seq![before.len() as int];
        proof {
            assert forall|canon: spec_fn(Seq<char>) -> Seq<char>, d: spec_fn(Seq<char>, Json) -> (Seq<char>, Seq<char>, Seq<char>)|
                spells_as(*canonical, canon) && describes_as(*describe, d) implies split_by_blocks(
                before,
                parts@,
                bounds,
                blocks@.take(0),
                *tables,
                outcomes@,
                up,
                canon,
                d,
            ) by {
                assert(parts@.take(before.len() as int) =~= before);
            }
        }
        let mut i: usize = 0;
        while i < blocks.len()
            invariant
                i <= blocks@.len(),
                blocks@ == record_blocks(*record),
                up == uploads_view(uploads),
                forall|t: &str| canonical.requires((t,)),
                forall|id: &str, input: &Json| describe.requires((id, input)),
                forall|canon: spec_fn(Seq<char>) -> Seq<char>, d: spec_fn(Seq<char>, Json) -> (Seq<char>, Seq<char>, Seq<char>)|
                    spells_as(*canonical, canon) && describes_as(*describe, d) ==> split_by_blocks(
                        before,
                        parts@,
                        bounds,
                        blocks@.take(i as int),
                        *tables,
                        outcomes@,
                        up,
                        canon,
                        d,
                    ),
            decreases blocks@.len() - i,
        {
            let ghost was = parts@;
            proof {
                assert(blocks@.take(i + 1) =~= blocks@.take(i as int).push(blocks@[i as int]));
            }
            match &blocks[i] {
                ContentBlock::Text { text } => {
                    if trimmed(chars_of(text.as_str()).as_slice()).len() > 0 {
                        Self::prose_parts(text.as_str(), parts);
                    }
                },
                ContentBlock::ToolUse { id, name, input } => {
                    let ids = id.as_str();
                    let described = describe(ids, input);
                    let ghost dr = described;
                    let (qid, fingerprint, encoded) = described;
                    let outcome = outcome_of(outcomes, id.as_str());
                    let mut group = Self::tool_parts(
                        tables,
                        qid,
                        fingerprint,
                        name.as_str(),
                        input,
                        encoded,
                        outcome,
                        uploads,
                        canonical,
                    );
                    let ghost g = group@;
                    parts.append(&mut group);
                    proof {
                        assert forall|canon: spec_fn(Seq<char>) -> Seq<char>, d: spec_fn(Seq<char>, Json) -> (Seq<char>, Seq<char>, Seq<char>)|
                            spells_as(*canonical, canon) && describes_as(*describe, d) implies tool_parts_are(
                            g,
                            *tables,
                            d(id@, *input).0,
                            d(id@, *input).1,
                            name@,
                            *input,
                            d(id@, *input).2,
                            outcome_for(outcomes@, id@),
                            up,
                            canon,
                        ) by {
                            assert(describe.ensures((ids, input), dr));
                        }
                        assert(parts@.subrange(was.len() as int, parts@.len() as int) =~= g);
                    }
                },
                ContentBlock::Image { source } => {
                    parts.push(Self::image_part(source));
                },
                _ => {},
            }
            proof {
                assert(parts@.take(was.len() as int) =~= was);
                assert forall|canon: spec_fn(Seq<char>) -> Seq<char>, d: spec_fn(Seq<char>, Json) -> (Seq<char>, Seq<char>, Seq<char>)|
                    spells_as(*canonical, canon) && describes_as(*describe, d) implies split_by_blocks(
                    before,
                    parts@,
                    bounds.push(parts@.len() as int),
                    blocks@.take(i + 1),
                    *tables,
                    outcomes@,
                    up,
                    canon,
                    d,
                ) by {
                    let group = parts@.subrange(was.len() as int, parts@.len() as int);
                    match blocks@[i as int] {
                        ContentBlock::Text { text } => {
                            if trim(text@).len() > 0 {
                                assert forall|k: int| 0 <= k < group.len() implies group[k] == parts@[was.len() + k] by {}
                            }
                        },
                        ContentBlock::Image { source } => {
                            assert(group[0] == parts@.last());
                        },
                        _ => {},
                    }
                    assert(block_parts_are(group, blocks@[i as int], *tables, outcomes@, up, canon, d));
                    lemma_split_push(before, was, parts@, bounds, blocks@.take(i as int), blocks@[i as int],
                        *tables, outcomes@, up, canon, d);
                }
                bounds = bounds.push(parts@.len() as int);
            }
            i = i + 1;
        }
        proof {
            assert(blocks@.take(blocks@.len() as int) =~= blocks@);
            assert forall|canon: spec_fn(Seq<char>) -> Seq<char>, d: spec_fn(Seq<char>, Json) -> (Seq<char>, Seq<char>, Seq<char>)|
                spells_as(*canonical, canon) && describes_as(*describe, d) implies exists|b: Seq<int>|
                #[trigger] split_by_blocks(before, parts@, b, blocks@, *tables, outcomes@, up, canon, d) by {
                assert(split_by_blocks(before, parts@, bounds, blocks@, *tables, outcomes@, up, canon, d));
            }
        }
    }
}

} // verus!
