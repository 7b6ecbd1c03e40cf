//! What a tool call's input and recorded outcome say, as the parts a turn
//! renders: the questions a picker asked and how they were answered, the
//! change a file edit made, and an agent's plan.
use vstd::prelude::*;
use crate::text::{chars_of, decimal_text, join, join_parts, push_decimal, same_chars, string_of, strs, trim, trimmed};
use crate::transcript::command::{command_output, spoken_command, CommandTags, SlashCommand};
use crate::transcript::tables::{segments_view, table_segments, MarkdownTables, Segment, SegmentView};
use crate::transcript::json::{json_array, json_bool, json_get, json_str, json_u64, str_field, Json};
use crate::transcript::question::{Answer, AnswerView, Ask, AskView, OptionView, Question, QuestionOption, text_of};
use crate::transcript::record::Timestamp;
use crate::transcript::results::ToolOutcome;
use crate::transcript::turn::{AnswerRecord, Part, TodoItem, TodoStatus, ToolStatus};

verus! {

/// The option a raw entry describes: one with a label.
pub open spec fn option_from(o: Json) -> Option<OptionView> {
    match str_field(o, "label"@) {
        Some(label) => Some(OptionView { label, description: str_field(o, "description"@) }),
        None => None,
    }
}

/// The options among raw entries, first first.
pub open spec fn options_from(items: Seq<Json>) -> Seq<OptionView>
    decreases items.len(),
{
    if items.len() == 0 {
        Seq::empty()
    } else {
        let before = options_from(items.drop_last());
        match option_from(items.last()) {
            Some(o) => before.push(o),
            None => before,
        }
    }
}

/// The options a raw question lists.
pub open spec fn options_in(raw: Json) -> Seq<OptionView> {
    match json_get(raw, "options"@) {
        Some(v) => match json_array(v) {
            Some(items) => options_from(items),
            None => Seq::empty(),
        },
        None => Seq::empty(),
    }
}

/// The question a raw entry asks: one with a prompt. The harness always
/// offers a free-text answer, and nothing in the call says so.
pub open spec fn ask_from(raw: Json) -> Option<AskView> {
    match str_field(raw, "question"@) {
        Some(prompt) => Some(AskView {
            header: str_field(raw, "header"@),
            prompt,
            options: options_in(raw),
            multi_select: match json_get(raw, "multiSelect"@) {
                Some(v) => match json_bool(v) {
                    Some(b) => b,
                    None => false,
                },
                None => false,
            },
            allows_free_text: true,
        }),
        None => None,
    }
}

/// The questions among raw entries, first first.
pub open spec fn asks_from(items: Seq<Json>) -> Seq<AskView>
    decreases items.len(),
{
    if items.len() == 0 {
        Seq::empty()
    } else {
        let before = asks_from(items.drop_last());
        match ask_from(items.last()) {
            Some(a) => before.push(a),
            None => before,
        }
    }
}

/// The questions a picker call asks.
pub open spec fn asks_in(input: Json) -> Seq<AskView> {
    match json_get(input, "questions"@) {
        Some(v) => match json_array(v) {
            Some(items) => asks_from(items),
            None => Seq::empty(),
        },
        None => Seq::empty(),
    }
}

/// Where the option labelled `label` is, from `i` on.
pub open spec fn label_position(options: Seq<OptionView>, label: Seq<char>, i: int) -> Option<int>
    decreases options.len() - i,
{
    if i < 0 || i >= options.len() {
        None
    } else if options[i].label == label {
        Some(i)
    } else {
        label_position(options, label, i + 1)
    }
}

/// The texts among raw values, first first.
pub open spec fn texts_from(items: Seq<Json>) -> Seq<Seq<char>>
    decreases items.len(),
{
    if items.len() == 0 {
        Seq::empty()
    } else {
        let before = texts_from(items.drop_last());
        match json_str(items.last()) {
            Some(t) => before.push(t),
            None => before,
        }
    }
}

/// The positions of the labels that are options, first first.
pub open spec fn positions_of(labels: Seq<Seq<char>>, options: Seq<OptionView>) -> Seq<u16>
    decreases labels.len(),
{
    if labels.len() == 0 {
        Seq::empty()
    } else {
        let before = positions_of(labels.drop_last(), options);
        match label_position(options, labels.last(), 0) {
            Some(i) => before.push(i as u16),
            None => before,
        }
    }
}

/// The recorded answer as an index into the options, or as free text.
///
/// The harness records what was chosen by its label, so a label that is no
/// longer among the options is a free-text answer rather than a lost one;
/// and several labels are several choices only when every one of them is
/// an option.
pub open spec fn answer_from(chosen: Json, options: Seq<OptionView>) -> Option<AnswerView> {
    match chosen {
        Json::String(label) => Some(match label_position(options, label@, 0) {
            Some(i) => AnswerView::Choice(i as u16),
            None => AnswerView::Text(label@),
        }),
        Json::Array(items) => {
            let texts = texts_from(items@);
            if texts.len() == 0 {
                None
            } else {
                let found = positions_of(texts, options);
                if found.len() == texts.len() {
                    Some(AnswerView::Multi(found))
                } else {
                    Some(AnswerView::Text(join(texts, seq![',', ' '])))
                }
            }
        },
        _ => None,
    }
}

/// The answer recorded for `ask`, looked up by its prompt.
pub open spec fn recorded_answer(ask: AskView, recorded: Option<Json>) -> Option<AnswerView> {
    match recorded {
        Some(r) => match json_get(r, ask.prompt) {
            Some(chosen) => answer_from(chosen, ask.options),
            None => None,
        },
        None => None,
    }
}

/// An answer as values, or none.
pub open spec fn answer_view(a: Option<Answer>) -> Option<AnswerView> {
    match a {
        Some(x) => Some(x@),
        None => None,
    }
}

/// The lines an ask's options read as, each `- label`, with ` - description`
/// when it has one.
pub open spec fn option_lines(options: Seq<OptionView>) -> Seq<char>
    decreases options.len(),
{
    if options.len() == 0 {
        Seq::empty()
    } else {
        let o = options.last();
        option_lines(options.drop_last()) + "\n- "@ + o.label + match o.description {
            Some(d) => " - "@ + d,
            None => Seq::empty(),
        }
    }
}

/// A set of questions as plain text: each prompt and its options, a blank
/// line between questions.
pub open spec fn fallback_of(asks: Seq<AskView>) -> Seq<char>
    decreases asks.len(),
{
    if asks.len() == 0 {
        Seq::empty()
    } else {
        let before = fallback_of(asks.drop_last());
        let gap = if before.len() > 0 { before + "\n\n"@ } else { before };
        gap + asks.last().prompt + option_lines(asks.last().options)
    }
}

/// The items of a plan, first first: each with text, by its status.
pub open spec fn todo_from(items: Seq<Json>) -> Seq<(Seq<char>, TodoStatus)>
    decreases items.len(),
{
    if items.len() == 0 {
        Seq::empty()
    } else {
        let before = todo_from(items.drop_last());
        match str_field(items.last(), "content"@) {
            Some(text) => before.push((text, status_named(str_field(items.last(), "status"@)))),
            None => before,
        }
    }
}

/// A plan item's status by its recorded name.
pub open spec fn status_named(name: Option<Seq<char>>) -> TodoStatus {
    match name {
        Some(n) => if n == "in_progress"@ {
            TodoStatus::InProgress
        } else if n == "completed"@ || n == "done"@ {
            TodoStatus::Done
        } else {
            TodoStatus::Pending
        },
        None => TodoStatus::Pending,
    }
}

/// A plan item as a checklist line.
pub open spec fn todo_line(item: (Seq<char>, TodoStatus)) -> Seq<char> {
    let mark = match item.1 {
        TodoStatus::Pending => ' ',
        TodoStatus::InProgress => '~',
        TodoStatus::Done => 'x',
    };
    seq!['[', mark, ']', ' '] + item.0
}

/// A whole count, or zero.
pub open spec fn count_or_zero(v: Option<Json>) -> nat {
    match v {
        Some(j) => match json_u64(j) {
            Some(n) => n as nat,
            None => 0,
        },
        None => 0,
    }
}

/// The text lines of a hunk.
pub open spec fn hunk_lines(hunk: Json) -> Seq<Seq<char>> {
    match json_get(hunk, "lines"@) {
        Some(v) => match json_array(v) {
            Some(items) => texts_from(items),
            None => Seq::empty(),
        },
        None => Seq::empty(),
    }
}

/// Lines, each followed by a newline.
pub open spec fn with_newlines(lines: Seq<Seq<char>>) -> Seq<char>
    decreases lines.len(),
{
    if lines.len() == 0 {
        Seq::empty()
    } else {
        with_newlines(lines.drop_last()) + lines.last() + seq!['\n']
    }
}

/// A hunk as unified diff text: its range header, then its lines.
pub open spec fn hunk_text(hunk: Json) -> Seq<char> {
    "@@ -"@ + decimal_text(count_or_zero(json_get(hunk, "oldStart"@))) + seq![',']
        + decimal_text(count_or_zero(json_get(hunk, "oldLines"@))) + " +"@
        + decimal_text(count_or_zero(json_get(hunk, "newStart"@))) + seq![',']
        + decimal_text(count_or_zero(json_get(hunk, "newLines"@))) + " @@\n"@
        + with_newlines(hunk_lines(hunk))
}

/// The hunks as unified diff text.
pub open spec fn hunks_text(hunks: Seq<Json>) -> Seq<char>
    decreases hunks.len(),
{
    if hunks.len() == 0 {
        Seq::empty()
    } else {
        hunks_text(hunks.drop_last()) + hunk_text(hunks.last())
    }
}

/// How many of `lines` start with `c`.
pub open spec fn starting_with(lines: Seq<Seq<char>>, c: char) -> nat
    decreases lines.len(),
{
    if lines.len() == 0 {
        0
    } else {
        starting_with(lines.drop_last(), c) + if lines.last().len() > 0 && lines.last()[0] == c { 1nat } else { 0nat }
    }
}

/// How many lines of the hunks start with `c`.
pub open spec fn hunks_counting(hunks: Seq<Json>, c: char) -> nat
    decreases hunks.len(),
{
    if hunks.len() == 0 {
        0
    } else {
        hunks_counting(hunks.drop_last(), c) + starting_with(hunk_lines(hunks.last()), c)
    }
}

/// A count held at `u32::MAX`.
pub open spec fn capped(n: int) -> u32 {
    if n > u32::MAX { u32::MAX } else { n as u32 }
}

/// The file a change names: the outcome's path, else the call's, else none.
pub open spec fn diff_path(input: Json, detail: Option<Json>) -> Seq<char> {
    let recorded = match detail {
        Some(d) => str_field(d, "filePath"@),
        None => None,
    };
    match recorded {
        Some(p) => p,
        None => match str_field(input, "file_path"@) {
            Some(p) => p,
            None => Seq::empty(),
        },
    }
}

/// The hunks an outcome records, when there are any.
pub open spec fn patch_of(detail: Option<Json>) -> Option<Seq<Json>> {
    match detail {
        Some(d) => match json_get(d, "structuredPatch"@) {
            Some(v) => match json_array(v) {
                Some(h) => if h.len() > 0 { Some(h) } else { None },
                None => None,
            },
            None => None,
        },
        None => None,
    }
}

/// The unified diff of a file change.
pub open spec fn unified_of(path: Seq<char>, hunks: Seq<Json>) -> Seq<char> {
    "--- "@ + path + "\n+++ "@ + path + seq!['\n'] + hunks_text(hunks)
}

/// Options as values.
pub open spec fn options_view(v: Seq<QuestionOption>) -> Seq<OptionView> {
    Seq::new(v.len(), |i: int| v[i]@)
}

/// Questions as values.
pub open spec fn asks_view(v: Seq<Ask>) -> Seq<AskView> {
    Seq::new(v.len(), |i: int| v[i]@)
}

/// Answers as values.
pub open spec fn answers_view(v: Seq<Option<Answer>>) -> Seq<Option<AnswerView>> {
    Seq::new(v.len(), |i: int| answer_view(v[i]))
}

/// The value a reference holds, if any.
pub open spec fn held(o: Option<&Json>) -> Option<Json> {
    match o {
        Some(j) => Some(*j),
        None => None,
    }
}

/// What an outcome recorded as the answers, keyed by each question's text.
pub open spec fn answers_recorded(detail: Option<&Json>) -> Option<Json> {
    match detail {
        Some(d) => json_get(*d, "answers"@),
        None => None,
    }
}

/// The answer to each question in turn, a hole where there is none.
pub open spec fn answers_in(asks: Seq<AskView>, recorded: Option<Json>) -> Seq<Option<AnswerView>> {
    Seq::new(asks.len(), |i: int| recorded_answer(asks[i], recorded))
}

/// Whether any question has an answer.
pub open spec fn any_answered(answers: Seq<Option<AnswerView>>) -> bool {
    exists|i: int| 0 <= i < answers.len() && (#[trigger] answers[i]) is Some
}

/// The items of the plan a call lists, when it lists one.
pub open spec fn todos_in(input: Json) -> Option<Seq<(Seq<char>, TodoStatus)>> {
    match json_get(input, "todos"@) {
        Some(v) => match json_array(v) {
            Some(items) => Some(todo_from(items)),
            None => None,
        },
        None => None,
    }
}

/// Plan items as values.
pub open spec fn items_view(v: Seq<TodoItem>) -> Seq<(Seq<char>, TodoStatus)> {
    Seq::new(v.len(), |i: int| (v[i].text@, v[i].status))
}

/// A plan as checklist lines, one per item.
pub open spec fn todo_lines(items: Seq<(Seq<char>, TodoStatus)>) -> Seq<Seq<char>> {
    Seq::new(items.len(), |i: int| todo_line(items[i]))
}

/// Whether `p` is plain text reading `t`.
pub open spec fn text_part_is(p: Part, t: Seq<char>) -> bool {
    p matches Part::Text { text } && text@ == t
}

/// Whether `p` is a command's printed output as a finished tool row named
/// `name`: no input, the output as both its result and its fallback.
pub open spec fn output_part_is(p: Part, name: Seq<char>, printed: Seq<char>) -> bool {
    p matches Part::ToolUse { name: n, input, result, status, fallback_text }
        && n@ == name && input@.len() == 0 && status == ToolStatus::Succeeded
        && fallback_text@ == printed && (result matches Some(r) && r@ == printed)
}

/// Whether `p` is a status line reading `label`, with no detail.
pub open spec fn status_part_is(p: Part, label: Seq<char>) -> bool {
    p matches Part::Status { label: l, detail, fallback_text } && l@ == label && detail is None
        && fallback_text@ == label
}

/// The segments of prose a turn keeps: every table, and every run of prose
/// that is not blank.
pub open spec fn kept_segments(segs: Seq<SegmentView>) -> Seq<SegmentView>
    decreases segs.len(),
{
    if segs.len() == 0 {
        Seq::empty()
    } else {
        let before = kept_segments(segs.drop_last());
        match segs.last() {
            SegmentView::Prose(t) => if trim(t).len() == 0 { before } else { before.push(segs.last()) },
            _ => before.push(segs.last()),
        }
    }
}

/// Whether `p` is the part a kept segment becomes: prose as text, a table as
/// a table whose fallback is the markdown it came from.
pub open spec fn segment_part_is(p: Part, seg: SegmentView) -> bool {
    match seg {
        SegmentView::Prose(t) => text_part_is(p, t),
        SegmentView::Table { columns, rows, source } => p matches Part::Table { columns: c, rows: r, fallback_text }
            && strs(c@) == columns && Seq::new(r@.len(), |i: int| strs(r@[i]@)) == rows
            && fallback_text@ == source,
    }
}

/// A copy of some strings, each the same text.
fn copy_strings(v: &Vec<String>) -> (out: Vec<String>)
    ensures
        strs(out@) == strs(v@),
{
    let mut out: Vec<String> = Vec::new();
    let mut i: usize = 0;
    while i < v.len()
        invariant
            i <= v@.len(),
            out@.len() == i,
            strs(out@) == strs(v@.take(i as int)),
        decreases v@.len() - i,
    {
        let ghost before = out@;
        let c = v[i].clone();
        out.push(c);
        proof {
            assert forall|k: int| 0 <= k < i + 1 implies #[trigger] strs(out@)[k] == strs(v@.take(i + 1))[k] by {
                if k < i {
                    assert(out@[k] == before[k]);
                    assert(strs(before)[k] == strs(v@.take(i as int))[k]);
                }
            }
            assert(strs(out@) =~= strs(v@.take(i + 1)));
        }
        i = i + 1;
    }
    proof {
        assert(v@.take(v@.len() as int) =~= v@);
    }
    out
}

/// A copy of a table's rows, each cell the same text.
fn copy_rows(v: &Vec<Vec<String>>) -> (out: Vec<Vec<String>>)
    ensures
        Seq::new(out@.len(), |i: int| strs(out@[i]@)) == Seq::new(v@.len(), |i: int| strs(v@[i]@)),
{
    let mut out: Vec<Vec<String>> = Vec::new();
    let mut i: usize = 0;
    while i < v.len()
        invariant
            i <= v@.len(),
            out@.len() == i,
            forall|j: int| 0 <= j < i ==> strs(#[trigger] out@[j]@) == strs(v@[j]@),
        decreases v@.len() - i,
    {
        out.push(copy_strings(&v[i]));
        i = i + 1;
    }
    proof {
        assert(Seq::new(out@.len(), |i: int| strs(out@[i]@)) =~= Seq::new(v@.len(), |i: int| strs(v@[i]@)));
    }
    out
}

/// Turns a call's input and outcome into parts.
pub struct TurnMapper;

/// Appends the characters of `s`.
pub(crate) fn push_text(out: &mut Vec<char>, s: &str)
    ensures
        final(out)@ == old(out)@ + s@,
{
    let mut c = chars_of(s);
    out.append(&mut c);
}

/// The whole count under `key`, or zero.
fn count_at(hunk: &Json, key: &str) -> (n: u64)
    ensures
        n as nat == count_or_zero(json_get(*hunk, key@)),
{
    match hunk.get(key) {
        Some(v) => match v.as_u64() {
            Some(n) => n,
            None => 0,
        },
        None => 0,
    }
}

/// One more, held at `u32::MAX`.
fn bumped(n: u32) -> (m: u32)
    ensures
        m == capped(n + 1),
{
    if n < u32::MAX {
        n + 1
    } else {
        n
    }
}

/// Appends a hunk as unified diff text, and counts its added and removed
/// lines on from the counts so far.
fn push_hunk(out: &mut Vec<char>, hunk: &Json, added: u32, removed: u32) -> (counts: (u32, u32))
    ensures
        final(out)@ == old(out)@ + hunk_text(*hunk),
        counts.0 == capped(added + starting_with(hunk_lines(*hunk), '+')),
        counts.1 == capped(removed + starting_with(hunk_lines(*hunk), '-')),
{
    push_text(out, "@@ -");
    push_decimal(out, count_at(hunk, "oldStart"));
    out.push(',');
    push_decimal(out, count_at(hunk, "oldLines"));
    push_text(out, " +");
    push_decimal(out, count_at(hunk, "newStart"));
    out.push(',');
    push_decimal(out, count_at(hunk, "newLines"));
    push_text(out, " @@\n");
    let ghost head = out@;
    let mut plus = added;
    let mut minus = removed;
    if let Some(v) = hunk.get("lines") {
        if let Some(items) = v.as_array() {
            let mut k: usize = 0;
            while k < items.len()
                invariant
                    k <= items@.len(),
                    out@ == head + with_newlines(texts_from(items@.take(k as int))),
                    plus == capped(added + starting_with(texts_from(items@.take(k as int)), '+')),
                    minus == capped(removed + starting_with(texts_from(items@.take(k as int)), '-')),
                decreases items@.len() - k,
            {
                proof {
                    assert(items@.take(k + 1).drop_last() =~= items@.take(k as int));
                }
                if let Some(t) = items[k].as_str() {
                    let line = chars_of(t);
                    if line.len() > 0 {
                        if line[0] == '+' {
                            plus = bumped(plus);
                        } else if line[0] == '-' {
                            minus = bumped(minus);
                        }
                    }
                    let mut body = line;
                    out.append(&mut body);
                    out.push('\n');
                    proof {
                        let ts = texts_from(items@.take(k as int));
                        assert(texts_from(items@.take(k + 1)) == ts.push(t@));
                        assert(ts.push(t@).drop_last() =~= ts);
                        assert(out@ =~= head + with_newlines(ts.push(t@)));
                    }
                }
                k = k + 1;
            }
            proof {
                assert(items@.take(items@.len() as int) =~= items@);
            }
        }
    }
    proof {
        assert(out@ =~= old(out)@ + hunk_text(*hunk));
    }
    (plus, minus)
}

/// The file a change names, by its outcome or else by its call.
fn diff_path_of(input: &Json, detail: Option<&Json>) -> (path: String)
    ensures
        path@ == diff_path(*input, held(detail)),
{
    let recorded = match detail {
        Some(d) => text_at(d, "filePath"),
        None => None,
    };
    match recorded {
        Some(p) => p,
        None => match text_at(input, "file_path") {
            Some(p) => p,
            None => {
                let p = String::new();
                p
            },
        },
    }
}

/// The text under `key`, as a string of its own.
pub(crate) fn text_at(j: &Json, key: &str) -> (t: Option<String>)
    ensures
        text_of(t) == str_field(*j, key@),
{
    match j.get(key) {
        Some(v) => match v.as_str() {
            Some(s) => Some(s.to_owned()),
            None => None,
        },
        None => None,
    }
}

fn option_at(o: &Json) -> (r: Option<QuestionOption>)
    ensures
        match r {
            Some(x) => option_from(*o) == Some(x@),
            None => option_from(*o) is None,
        },
{
    match text_at(o, "label") {
        Some(label) => Some(QuestionOption { label, description: text_at(o, "description") }),
        None => None,
    }
}

fn ask_at(raw: &Json) -> (r: Option<Ask>)
    ensures
        match r {
            Some(x) => ask_from(*raw) == Some(x@),
            None => ask_from(*raw) is None,
        },
{
    match text_at(raw, "question") {
        Some(prompt) => {
            let options = TurnMapper::options_of(raw);
            let multi_select = match raw.get("multiSelect") {
                Some(v) => match v.as_bool() {
                    Some(b) => b,
                    None => false,
                },
                None => false,
            };
            let a = Ask { header: text_at(raw, "header"), prompt, options, multi_select, allows_free_text: true };
            proof {
                assert(a@.options =~= options_in(*raw));
            }
            Some(a)
        },
        None => None,
    }
}

/// Where the option labelled `label` is.
fn position_of(options: &Vec<QuestionOption>, label: &str) -> (p: Option<usize>)
    ensures
        match p {
            Some(i) => label_position(options_view(options@), label@, 0) == Some(i as int),
            None => label_position(options_view(options@), label@, 0) is None,
        },
{
    let wanted = chars_of(label);
    let ghost ov = options_view(options@);
    let mut i: usize = 0;
    while i < options.len()
        invariant
            i <= options@.len(),
            ov == options_view(options@),
            wanted@ == label@,
            label_position(ov, label@, i as int) == label_position(ov, label@, 0),
        decreases options@.len() - i,
    {
        let name = chars_of(options[i].label.as_str());
        if same_chars(name.as_slice(), wanted.as_slice()) {
            return Some(i);
        }
        i = i + 1;
    }
    None
}

impl TurnMapper {
    /// The options a raw question lists, each with a label.
    pub fn options_of(raw: &Json) -> (out: Vec<QuestionOption>)
        ensures
            options_view(out@) == options_in(*raw),
    {
        let mut out: Vec<QuestionOption> = Vec::new();
        if let Some(v) = raw.get("options") {
            if let Some(items) = v.as_array() {
                let mut i: usize = 0;
                while i < items.len()
                    invariant
                        i <= items@.len(),
                        options_view(out@) == options_from(items@.take(i as int)),
                    decreases items@.len() - i,
                {
                    proof {
                        assert(items@.take(i + 1).drop_last() =~= items@.take(i as int));
                    }
                    let ghost before = out@;
                    if let Some(o) = option_at(&items[i]) {
                        out.push(o);
                        proof {
                            assert(options_view(out@) =~= options_view(before).push(o@));
                        }
                    }
                    i = i + 1;
                }
                proof {
                    assert(items@.take(items@.len() as int) =~= items@);
                }
            }
        }
        out
    }

    /// The recorded answer as an index into the options, or as free text.
    ///
    /// A label no longer among the options is a free-text answer rather than
    /// a lost one.
    pub fn answer_of(chosen: &Json, options: &Vec<QuestionOption>) -> (a: Option<Answer>)
        ensures
            answer_view(a) == answer_from(*chosen, options_view(options@)),
    {
        match chosen {
            Json::String(label) => match position_of(options, label.as_str()) {
                Some(i) => Some(Answer::Choice(#[verifier::truncate] (i as u16))),
                None => Some(Answer::Text(label.clone())),
            },
            Json::Array(items) => {
                let ghost ov = options_view(options@);
                let mut texts: Vec<Vec<char>> = Vec::new();
                let mut found: Vec<u16> = Vec::new();
                let mut i: usize = 0;
                while i < items.len()
                    invariant
                        i <= items@.len(),
                        ov == options_view(options@),
                        texts.deep_view() == texts_from(items@.take(i as int)),
                        found@ == positions_of(texts.deep_view(), ov),
                    decreases items@.len() - i,
                {
                    proof {
                        assert(items@.take(i + 1).drop_last() =~= items@.take(i as int));
                    }
                    if let Some(t) = items[i].as_str() {
                        let ghost before = texts.deep_view();
                        let c = chars_of(t);
                        texts.push(c);
                        proof {
                            assert(texts.deep_view()[before.len() as int] =~= t@);
                            assert(texts.deep_view() =~= before.push(t@));
                            assert(texts.deep_view().drop_last() =~= before);
                        }
                        if let Some(p) = position_of(options, t) {
                            found.push(#[verifier::truncate] (p as u16));
                        }
                    }
                    i = i + 1;
                }
                proof {
                    assert(items@.take(items@.len() as int) =~= items@);
                }
                if texts.len() == 0 {
                    return None;
                }
                if found.len() == texts.len() {
                    Some(Answer::Multi(found))
                } else {
                    let mut sep: Vec<char> = Vec::new();
                    sep.push(',');
                    sep.push(' ');
                    proof {
                        assert(sep@ =~= seq![',', ' ']);
                    }
                    let joined = join_parts(&texts, sep.as_slice());
                    Some(Answer::Text(string_of(joined.as_slice())))
                }
            },
            _ => None,
        }
    }

    /// The answer to each question in turn, looked up by its text in what
    /// was recorded, a hole where a question was never answered.
    pub fn answers_for(asks: &Vec<Ask>, recorded: Option<&Json>) -> (out: Vec<Option<Answer>>)
        ensures
            answers_view(out@) == answers_in(asks_view(asks@), held(recorded)),
    {
        let mut out: Vec<Option<Answer>> = Vec::new();
        let mut i: usize = 0;
        while i < asks.len()
            invariant
                i <= asks@.len(),
                answers_view(out@) == answers_in(asks_view(asks@), held(recorded)).take(i as int),
            decreases asks@.len() - i,
        {
            let ask = &asks[i];
            let a = match recorded {
                Some(r) => match r.get(ask.prompt.as_str()) {
                    Some(chosen) => Self::answer_of(chosen, &ask.options),
                    None => None,
                },
                None => None,
            };
            proof {
                assert(options_view(ask.options@) =~= ask@.options);
                assert(asks_view(asks@)[i as int] == ask@);
            }
            let ghost before = out@;
            out.push(a);
            proof {
                assert(answers_view(out@) =~= answers_view(before).push(answer_view(a)));
                assert(answers_in(asks_view(asks@), held(recorded)).take(i + 1) =~= answers_in(
                    asks_view(asks@),
                    held(recorded),
                ).take(i as int).push(answer_view(a)));
            }
            i = i + 1;
        }
        proof {
            assert(answers_in(asks_view(asks@), held(recorded)).take(asks@.len() as int) =~= answers_in(
                asks_view(asks@),
                held(recorded),
            ));
        }
        out
    }

    /// A set of questions as plain text: each prompt and its options, a blank
    /// line between questions.
    pub fn question_fallback(question: &Question) -> (text: String)
        ensures
            text@ == fallback_of(asks_view(question.asks@)),
    {
        let asks = &question.asks;
        let mut text = String::new();
        let mut i: usize = 0;
        while i < asks.len()
            invariant
                i <= asks@.len(),
                text@ == fallback_of(asks_view(asks@).take(i as int)),
            decreases asks@.len() - i,
        {
            let ghost taken = asks_view(asks@).take(i + 1);
            proof {
                assert(taken.drop_last() =~= asks_view(asks@).take(i as int));
                assert(taken.last() == asks@[i as int]@);
            }
            if !text.as_str().is_empty() {
                text.append("\n\n");
            }
            proof {
                reveal_strlit("\n\n");
            }
            let ask = &asks[i];
            text.append(ask.prompt.as_str());
            let ghost head = text@;
            let mut k: usize = 0;
            while k < ask.options.len()
                invariant
                    k <= ask.options@.len(),
                    text@ == head + option_lines(options_view(ask.options@).take(k as int)),
                decreases ask.options@.len() - k,
            {
                let o = &ask.options[k];
                let ghost taken_o = options_view(ask.options@).take(k + 1);
                proof {
                    assert(taken_o.drop_last() =~= options_view(ask.options@).take(k as int));
                    assert(taken_o.last() == o@);
                    reveal_strlit("\n- ");
                    reveal_strlit(" - ");
                }
                text.append("\n- ");
                text.append(o.label.as_str());
                match &o.description {
                    Some(d) => {
                        text.append(" - ");
                        text.append(d.as_str());
                    },
                    None => {},
                }
                proof {
                    assert(text@ =~= head + option_lines(taken_o));
                }
                k = k + 1;
            }
            proof {
                assert(options_view(ask.options@).take(ask.options@.len() as int) =~= ask@.options);
                assert(text@ =~= fallback_of(taken));
            }
            i = i + 1;
        }
        proof {
            assert(asks_view(asks@).take(asks@.len() as int) =~= asks_view(asks@));
        }
        text
    }

    /// A picker call as one part: the set of questions it asks, the answers
    /// recorded for them, and the set as plain text; nothing when it asks
    /// no question.
    ///
    /// The identity and fingerprint are minted by the caller from the call.
    pub fn question_parts(
        id: String,
        fingerprint: String,
        input: &Json,
        detail: Option<&Json>,
        at: Option<Timestamp>,
    ) -> (parts: Vec<Part>)
        ensures
            asks_in(*input).len() == 0 ==> parts@.len() == 0,
            asks_in(*input).len() > 0 ==> parts@.len() == 1 && match parts@[0] {
                Part::Question { question, answered, fallback_text } => {
                    let answers = answers_in(asks_in(*input), answers_recorded(detail));
                    &&& question@.id == id@
                    &&& question@.fingerprint == fingerprint@
                    &&& question@.asks == asks_in(*input)
                    &&& fallback_text@ == fallback_of(asks_in(*input))
                    &&& (answered is Some <==> any_answered(answers))
                    &&& (answered matches Some(r) ==> answers_view(r.answers@) == answers
                        && r.at == match at {
                        Some(t) => t,
                        None => Timestamp(0),
                    })
                },
                _ => false,
            },
    {
        let asks = Self::asks_of(input);
        if asks.len() == 0 {
            return Vec::new();
        }
        let recorded = match detail {
            Some(d) => d.get("answers"),
            None => None,
        };
        let answers = Self::answers_for(&asks, recorded);
        proof {
            assert(held(recorded) == answers_recorded(detail));
        }
        let mut any = false;
        let mut i: usize = 0;
        while i < answers.len()
            invariant
                i <= answers@.len(),
                any <==> exists|k: int| 0 <= k < i && (#[trigger] answers@[k]) is Some,
            decreases answers@.len() - i,
        {
            if answers[i].is_some() {
                any = true;
            }
            i = i + 1;
        }
        let ghost viewed = answers_view(answers@);
        proof {
            if any {
                let k = choose|k: int| 0 <= k < answers@.len() && (#[trigger] answers@[k]) is Some;
                assert(viewed[k] is Some);
            }
            if any_answered(viewed) {
                let k = choose|k: int| 0 <= k < viewed.len() && (#[trigger] viewed[k]) is Some;
                assert(answers@[k] is Some);
            }
        }
        let question = Question { id, fingerprint, asks };
        let fallback_text = Self::question_fallback(&question);
        let answered = if any {
            let when = match at {
                Some(t) => t,
                None => Timestamp(0),
            };
            Some(AnswerRecord { answers, at: when })
        } else {
            None
        };
        let mut parts: Vec<Part> = Vec::new();
        parts.push(Part::Question { question, answered, fallback_text });
        parts
    }

    /// An agent's plan as a checklist part: each item with text, marked by
    /// its status, one line each; nothing when the call lists no item.
    pub fn todo_part(input: &Json) -> (part: Option<Part>)
        ensures
            part is Some <==> (todos_in(*input) is Some && todos_in(*input).unwrap().len() > 0),
            part matches Some(p) ==> (p matches Part::Todo { items, fallback_text }
                && items_view(items@) == todos_in(*input).unwrap()
                && fallback_text@ == join(todo_lines(todos_in(*input).unwrap()), seq!['\n'])),
    {
        let listed = match input.get("todos") {
            Some(v) => match v.as_array() {
                Some(items) => items,
                None => return None,
            },
            None => return None,
        };
        let mut items: Vec<TodoItem> = Vec::new();
        let mut lines: Vec<Vec<char>> = Vec::new();
        let mut i: usize = 0;
        while i < listed.len()
            invariant
                i <= listed@.len(),
                items_view(items@) == todo_from(listed@.take(i as int)),
                lines.deep_view() == todo_lines(items_view(items@)),
            decreases listed@.len() - i,
        {
            proof {
                assert(listed@.take(i + 1).drop_last() =~= listed@.take(i as int));
            }
            let todo = &listed[i];
            if let Some(text) = text_at(todo, "content") {
                let status = Self::status_named(todo);
                let mark = match status {
                    TodoStatus::Pending => ' ',
                    TodoStatus::InProgress => '~',
                    TodoStatus::Done => 'x',
                };
                let mut line: Vec<char> = Vec::new();
                line.push('[');
                line.push(mark);
                line.push(']');
                line.push(' ');
                let mut body = chars_of(text.as_str());
                line.append(&mut body);
                let ghost before_items = items_view(items@);
                let ghost before_lines = lines.deep_view();
                let ghost entry = (text@, status);
                items.push(TodoItem { text, status });
                lines.push(line);
                proof {
                    assert(line@ =~= todo_line(entry));
                    assert(items_view(items@) =~= before_items.push(entry));
                    assert(lines.deep_view()[before_lines.len() as int] =~= todo_line(entry));
                    assert(lines.deep_view() =~= before_lines.push(todo_line(entry)));
                    assert(todo_lines(before_items.push(entry)) =~= todo_lines(before_items).push(todo_line(entry)));
                    assert(lines.deep_view() =~= todo_lines(items_view(items@)));
                }
            }
            i = i + 1;
        }
        proof {
            assert(listed@.take(listed@.len() as int) =~= listed@);
        }
        if items.len() == 0 {
            return None;
        }
        let mut sep: Vec<char> = Vec::new();
        sep.push('\n');
        proof {
            assert(sep@ =~= seq!['\n']);
        }
        let joined = join_parts(&lines, sep.as_slice());
        Some(Part::Todo { items, fallback_text: string_of(joined.as_slice()) })
    }

    /// A plan item's status by the name it records.
    fn status_named(todo: &Json) -> (s: TodoStatus)
        ensures
            s == status_named(str_field(*todo, "status"@)),
    {
        match todo.get("status") {
            Some(v) => match v.as_str() {
                Some(name) => {
                    let n = chars_of(name);
                    let progress = chars_of("in_progress");
                    let completed = chars_of("completed");
                    let done = chars_of("done");
                    if same_chars(n.as_slice(), progress.as_slice()) {
                        TodoStatus::InProgress
                    } else if same_chars(n.as_slice(), completed.as_slice()) || same_chars(
                        n.as_slice(),
                        done.as_slice(),
                    ) {
                        TodoStatus::Done
                    } else {
                        TodoStatus::Pending
                    }
                },
                None => TodoStatus::Pending,
            },
            None => TodoStatus::Pending,
        }
    }

    /// A file edit as a diff part: the unified diff of the hunks its outcome
    /// records, and how many lines each side gained and lost; nothing when
    /// there is no hunk, as for a file created rather than changed.
    pub fn diff_parts(input: &Json, detail: Option<&Json>) -> (parts: Vec<Part>)
        ensures
            patch_of(held(detail)) is None ==> parts@.len() == 0,
            patch_of(held(detail)) matches Some(hunks) ==> parts@.len() == 1 && match parts@[0] {
                Part::Diff { path, unified, added, removed, fallback_text } => {
                    &&& path@ == diff_path(*input, held(detail))
                    &&& unified@ == unified_of(path@, hunks)
                    &&& added == Some(capped(hunks_counting(hunks, '+') as int))
                    &&& removed == Some(capped(hunks_counting(hunks, '-') as int))
                    &&& fallback_text@ == unified@
                },
                _ => false,
            },
    {
        let hunks = match detail {
            Some(d) => match d.get("structuredPatch") {
                Some(v) => match v.as_array() {
                    Some(h) => h,
                    None => return Vec::new(),
                },
                None => return Vec::new(),
            },
            None => return Vec::new(),
        };
        if hunks.len() == 0 {
            return Vec::new();
        }
        let path = diff_path_of(input, detail);
        let mut text: Vec<char> = Vec::new();
        push_text(&mut text, "--- ");
        push_text(&mut text, path.as_str());
        push_text(&mut text, "\n+++ ");
        push_text(&mut text, path.as_str());
        text.push('\n');
        let ghost head = text@;
        let mut added: u32 = 0;
        let mut removed: u32 = 0;
        let mut h: usize = 0;
        while h < hunks.len()
            invariant
                h <= hunks@.len(),
                text@ == head + hunks_text(hunks@.take(h as int)),
                added == capped(hunks_counting(hunks@.take(h as int), '+') as int),
                removed == capped(hunks_counting(hunks@.take(h as int), '-') as int),
            decreases hunks@.len() - h,
        {
            let ghost taken = hunks@.take(h + 1);
            proof {
                assert(taken.drop_last() =~= hunks@.take(h as int));
                assert(taken.last() == hunks@[h as int]);
            }
            let counts = push_hunk(&mut text, &hunks[h], added, removed);
            added = counts.0;
            removed = counts.1;
            proof {
                assert(text@ =~= head + hunks_text(taken));
            }
            h = h + 1;
        }
        proof {
            assert(hunks@.take(hunks@.len() as int) =~= hunks@);
            assert(text@ =~= unified_of(path@, hunks@));
        }
        let unified = string_of(text.as_slice());
        let fallback_text = string_of(text.as_slice());
        let mut parts: Vec<Part> = Vec::new();
        parts.push(Part::Diff { path, unified, added: Some(added), removed: Some(removed), fallback_text });
        parts
    }

    /// A line said about the conversation rather than in it.
    pub fn status_part(label: &str) -> (p: Part)
        ensures
            status_part_is(p, label@),
    {
        Part::Status { label: label.to_owned(), detail: None, fallback_text: label.to_owned() }
    }

    /// An image a person pasted, by its media type alone: the data itself is
    /// not carried, as a part set has no image and a data URI would not fit
    /// a frame anyway.
    pub fn image_part(source: &Json) -> (p: Part)
        ensures
            p matches Part::Unknown { kind, fallback_text } && kind@ == "image"@
                && fallback_text@ == seq!['['] + match str_field(*source, "media_type"@) {
                Some(m) => m,
                None => "image"@,
            } + seq![']'],
    {
        let media = match text_at(source, "media_type") {
            Some(m) => m,
            None => "image".to_owned(),
        };
        let mut text: Vec<char> = Vec::new();
        text.push('[');
        push_text(&mut text, media.as_str());
        text.push(']');
        Part::Unknown { kind: "image".to_owned(), fallback_text: string_of(text.as_slice()) }
    }

    /// What a command printed, as a finished tool row: a fold rather than
    /// more prose, since a command can print a page.
    pub fn command_output(name: &str, printed: String) -> (p: Part)
        ensures
            output_part_is(p, name@, printed@),
    {
        let result = printed.clone();
        Part::ToolUse {
            name: name.to_owned(),
            input: String::new(),
            fallback_text: printed,
            result: Some(result),
            status: ToolStatus::Succeeded,
        }
    }

    /// A slash command as the person's own line, then what it printed; or
    /// the printed output alone, under a generic name, when the line names
    /// no command.
    pub fn command_parts(tags: &CommandTags, text: &str, parts: &mut Vec<Part>)
        ensures
            final(parts)@.take(old(parts)@.len() as int) == old(parts)@,
            match spoken_command(*tags, text@) {
                Some(c) => match command_output(*tags, text@) {
                    Some(o) => final(parts)@.len() == old(parts)@.len() + 2
                        && text_part_is(final(parts)@[old(parts)@.len() as int], c)
                        && output_part_is(final(parts)@[old(parts)@.len() + 1int], c, o),
                    None => final(parts)@.len() == old(parts)@.len() + 1
                        && text_part_is(final(parts)@[old(parts)@.len() as int], c),
                },
                None => match command_output(*tags, text@) {
                    Some(o) => final(parts)@.len() == old(parts)@.len() + 1
                        && output_part_is(final(parts)@[old(parts)@.len() as int], "command output"@, o),
                    None => final(parts)@ == old(parts)@,
                },
            },
    {
        let ghost before = parts@;
        if let Some(spoken) = SlashCommand::spoken(tags, text) {
            let said = spoken.clone();
            parts.push(Part::Text { text: said });
            if let Some(printed) = SlashCommand::output(tags, text) {
                parts.push(Self::command_output(spoken.as_str(), printed));
            }
            proof {
                assert(parts@.take(before.len() as int) =~= before);
            }
            return;
        }
        if let Some(printed) = SlashCommand::output(tags, text) {
            parts.push(Self::command_output("command output", printed));
        }
        proof {
            assert(parts@.take(before.len() as int) =~= before);
        }
    }

    /// An agent's prose as parts: each table found in it as a table, the
    /// prose around them as text, blank prose dropped.
    pub fn prose_parts(text: &str, parts: &mut Vec<Part>)
        ensures
            final(parts)@.take(old(parts)@.len() as int) == old(parts)@,
            final(parts)@.len() == old(parts)@.len() + kept_segments(table_segments(text@)).len(),
            forall|i: int|
                0 <= i < kept_segments(table_segments(text@)).len() ==> segment_part_is(
                    #[trigger] final(parts)@[old(parts)@.len() + i],
                    kept_segments(table_segments(text@))[i],
                ),
    {
        let ghost before = parts@;
        let segments = MarkdownTables::split(text);
        let ghost segs = segments_view(segments@);
        let mut k: usize = 0;
        while k < segments.len()
            invariant
                k <= segments@.len(),
                segs == segments_view(segments@),
                segs == table_segments(text@),
                parts@.take(before.len() as int) == before,
                parts@.len() == before.len() + kept_segments(segs.take(k as int)).len(),
                forall|i: int|
                    0 <= i < kept_segments(segs.take(k as int)).len() ==> segment_part_is(
                        #[trigger] parts@[before.len() + i],
                        kept_segments(segs.take(k as int))[i],
                    ),
            decreases segments@.len() - k,
        {
            let ghost taken = segs.take(k + 1);
            proof {
                assert(taken.drop_last() =~= segs.take(k as int));
                assert(taken.last() == segments@[k as int]@);
            }
            let ghost was = parts@;
            match &segments[k] {
                Segment::Prose(prose) => {
                    let chars = chars_of(prose.as_str());
                    let t = trimmed(chars.as_slice());
                    if t.len() > 0 {
                        parts.push(Part::Text { text: prose.clone() });
                    }
                },
                Segment::Table { columns, rows, source } => {
                    let c = copy_strings(columns);
                    let r = copy_rows(rows);
                    parts.push(Part::Table { columns: c, rows: r, fallback_text: source.clone() });
                },
            }
            proof {
                assert(parts@.take(before.len() as int) =~= before);
            }
            k = k + 1;
        }
        proof {
            assert(segs.take(segments@.len() as int) =~= segs);
        }
    }

    /// A tool call as a plain row: its name, its input as JSON text, and
    /// what it answered. Running is a real answer rather than a placeholder:
    /// the last call of a live conversation has no result yet.
    pub fn tool_use_part(name: &str, encoded: String, outcome: Option<&ToolOutcome>) -> (p: Part)
        ensures
            p matches Part::ToolUse { name: n, input, result, status, fallback_text } && n@ == name@
                && input@ == encoded@
                && text_of(result) == match outcome {
                Some(o) => text_of(o.text),
                None => None,
            } && status == match outcome {
                None => ToolStatus::Running,
                Some(o) => if o.is_error { ToolStatus::Failed } else { ToolStatus::Succeeded },
            } && fallback_text@ == name@ + seq!['\n'] + encoded@ + match text_of(result) {
                Some(t) => seq!['\n'] + t,
                None => Seq::empty(),
            },
    {
        let result = match outcome {
            Some(o) => match &o.text {
                Some(t) => Some(t.clone()),
                None => None,
            },
            None => None,
        };
        let status = match outcome {
            None => ToolStatus::Running,
            Some(o) => if o.is_error {
                ToolStatus::Failed
            } else {
                ToolStatus::Succeeded
            },
        };
        let mut fallback: Vec<char> = Vec::new();
        push_text(&mut fallback, name);
        fallback.push('\n');
        push_text(&mut fallback, encoded.as_str());
        match &result {
            Some(t) => {
                fallback.push('\n');
                push_text(&mut fallback, t.as_str());
            },
            None => {},
        }
        Part::ToolUse { name: name.to_owned(), input: encoded, result, status, fallback_text: string_of(fallback.as_slice()) }
    }

    /// The questions a picker call asks, each with a prompt.
    pub fn asks_of(input: &Json) -> (out: Vec<Ask>)
        ensures
            asks_view(out@) == asks_in(*input),
    {
        let mut out: Vec<Ask> = Vec::new();
        if let Some(v) = input.get("questions") {
            if let Some(items) = v.as_array() {
                let mut i: usize = 0;
                while i < items.len()
                    invariant
                        i <= items@.len(),
                        asks_view(out@) == asks_from(items@.take(i as int)),
                    decreases items@.len() - i,
                {
                    proof {
                        assert(items@.take(i + 1).drop_last() =~= items@.take(i as int));
                    }
                    let ghost before = out@;
                    if let Some(a) = ask_at(&items[i]) {
                        out.push(a);
                        proof {
                            assert(asks_view(out@) =~= asks_view(before).push(a@));
                        }
                    }
                    i = i + 1;
                }
                proof {
                    assert(items@.take(items@.len() as int) =~= items@);
                }
            }
        }
        out
    }
}

} // verus!
