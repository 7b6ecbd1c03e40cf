//! Answering an agent's question picker, as key presses.
//!
//! A choice is made by moving to its row and pressing Enter, never by its
//! number, because one of the two pickers ignores numbers. A multi-select
//! toggles rows by number and moves on with `Right`. The free-text row sits
//! after the options and takes the text and a `Return`.
use vstd::prelude::*;
use crate::terminal::keys::{InputView, Key, Mods, TerminalInput, inputs_view};
use crate::transcript::question::{Answer, AnswerView, Ask, AskView};
use crate::text::{chars_of, trim, trimmed};

verus! {

/// What one harness draws around a question, as somebody measured it.
#[derive(Debug, Clone, PartialEq, Eq)]
pub struct ScreenChrome {
    /// The text a review screen shows.
    pub review_marker: String,
    /// The key that sends a completed review.
    pub submit: char,
    /// The affordance only the side-by-side picker draws.
    pub preview_hint: String,
    /// The glyph marking the row the cursor is on.
    pub cursor: char,
    /// The character a rule is drawn with.
    pub rule: char,
}

/// Why a set of answers cannot be pressed into a picker.
#[derive(Debug, Clone, PartialEq, Eq)]
pub enum PickerError {
    /// The set is answered at once, and the counts differ.
    Parts { asks: usize, answers: usize },
    /// Several choices for a question that takes one.
    TakesOne { prompt: String, given: usize },
    /// Free text for a question that takes none.
    NoFreeText { prompt: String },
    /// Free text that is only whitespace.
    Empty { prompt: String },
    /// An option index past the question's options.
    NoSuchOption { prompt: String, options: usize, chosen: u16 },
    /// A row beyond the ninth, which has no number key.
    NoNumberKey { row: usize },
}

pub enum PickerErrorView {
    Parts { asks: nat, answers: nat },
    TakesOne { prompt: Seq<char>, given: nat },
    NoFreeText { prompt: Seq<char> },
    Empty { prompt: Seq<char> },
    NoSuchOption { prompt: Seq<char>, options: nat, chosen: u16 },
    NoNumberKey { row: nat },
}

impl View for PickerError {
    type V = PickerErrorView;

    open spec fn view(&self) -> PickerErrorView {
        match self {
            PickerError::Parts { asks, answers } => PickerErrorView::Parts {
                asks: *asks as nat,
                answers: *answers as nat,
            },
            PickerError::TakesOne { prompt, given } => PickerErrorView::TakesOne {
                prompt: prompt@,
                given: *given as nat,
            },
            PickerError::NoFreeText { prompt } => PickerErrorView::NoFreeText { prompt: prompt@ },
            PickerError::Empty { prompt } => PickerErrorView::Empty { prompt: prompt@ },
            PickerError::NoSuchOption { prompt, options, chosen } => PickerErrorView::NoSuchOption {
                prompt: prompt@,
                options: *options as nat,
                chosen: *chosen,
            },
            PickerError::NoNumberKey { row } => PickerErrorView::NoNumberKey { row: *row as nat },
        }
    }
}

pub type Presses = Result<Seq<InputView>, PickerErrorView>;

pub open spec fn plain(key: Key) -> InputView {
    InputView::Key { key, mods: Mods { shift: false, alt: false, ctrl: false } }
}

/// `front`, then whatever `rest` presses, unless `rest` failed.
pub open spec fn then(front: Seq<InputView>, rest: Presses) -> Presses {
    match rest {
        Ok(r) => Ok(front + r),
        Err(e) => Err(e),
    }
}

/// From the first row to the `row`th, then taking it.
pub open spec fn walk_to(row: nat) -> Seq<InputView> {
    Seq::new(
        (if row >= 1 {
            row - 1
        } else {
            0
        }) as nat,
        |i: int| plain(Key::Down),
    ).push(plain(Key::Enter))
}

/// The 1-based row an option index sits on.
pub open spec fn option_row(ask: AskView, index: u16) -> Result<nat, PickerErrorView> {
    if index >= ask.options.len() {
        Err(
            PickerErrorView::NoSuchOption {
                prompt: ask.prompt,
                options: ask.options.len(),
                chosen: index,
            },
        )
    } else {
        Ok(index as nat + 1)
    }
}

pub open spec fn digits() -> Seq<char> {
    seq!['0', '1', '2', '3', '4', '5', '6', '7', '8', '9']
}

/// The number key that toggles a row, for rows one to nine.
pub open spec fn number_key(row: nat) -> Result<InputView, PickerErrorView> {
    if row > 9 {
        Err(PickerErrorView::NoNumberKey { row })
    } else {
        Ok(plain(Key::Char(digits()[row as int])))
    }
}

/// Whether the screen showed the row at `i` ticked.
pub open spec fn ticked_at(ticked: Option<Seq<bool>>, i: int) -> bool {
    ticked matches Some(rows) && 0 <= i < rows.len() && rows[i]
}

/// The presses that toggle the chosen options from the `i`th on, skipping a
/// row already ticked so the chosen row is not cleared.
pub open spec fn presses_from(ask: AskView, indices: Seq<u16>, ticked: Option<Seq<bool>>, i: int) -> Presses
    decreases indices.len() - i,
{
    if i < 0 || i >= indices.len() {
        Ok(Seq::empty())
    } else {
        match option_row(ask, indices[i]) {
            Err(e) => Err(e),
            Ok(row) => if ticked_at(ticked, row - 1) {
                presses_from(ask, indices, ticked, i + 1)
            } else {
                match number_key(row) {
                    Err(e) => Err(e),
                    Ok(k) => then(seq![k], presses_from(ask, indices, ticked, i + 1)),
                }
            },
        }
    }
}

pub open spec fn chosen(indices: Seq<u16>, position: int) -> bool {
    exists|j: int| 0 <= j < indices.len() && indices[j] as int == position
}

/// The presses that clear rows left ticked that nobody chose, from the
/// `p`th on.
pub open spec fn clears_from(rows: Seq<bool>, indices: Seq<u16>, p: int) -> Presses
    decreases rows.len() - p,
{
    if p < 0 || p >= rows.len() {
        Ok(Seq::empty())
    } else if rows[p] && !chosen(indices, p) {
        match number_key((p + 1) as nat) {
            Err(e) => Err(e),
            Ok(k) => then(seq![k], clears_from(rows, indices, p + 1)),
        }
    } else {
        clears_from(rows, indices, p + 1)
    }
}

/// The presses that answer one question.
pub open spec fn answer_presses(ask: AskView, answer: AnswerView, ticked: Option<Seq<bool>>) -> Presses {
    match answer {
        AnswerView::Choice(index) => match option_row(ask, index) {
            Ok(row) => Ok(walk_to(row)),
            Err(e) => Err(e),
        },
        AnswerView::Multi(indices) => if !ask.multi_select {
            Err(PickerErrorView::TakesOne { prompt: ask.prompt, given: indices.len() })
        } else {
            match presses_from(ask, indices, ticked, 0) {
                Err(e) => Err(e),
                Ok(toggles) => {
                    let cleared = match ticked {
                        Some(rows) => clears_from(rows, indices, 0),
                        None => Ok(Seq::empty()),
                    };
                    match cleared {
                        Err(e) => Err(e),
                        Ok(c) => Ok(toggles + c + seq![plain(Key::Right)]),
                    }
                },
            }
        },
        AnswerView::Text(text) => if !ask.allows_free_text {
            Err(PickerErrorView::NoFreeText { prompt: ask.prompt })
        } else if trim(text).len() == 0 {
            Err(PickerErrorView::Empty { prompt: ask.prompt })
        } else {
            Ok(walk_to(ask.options.len() + 1) + seq![InputView::Text(text), plain(Key::Enter)])
        },
    }
}

/// A key pressed with no modifier.
pub open spec fn bare(key: Key) -> InputView {
    InputView::Key { key, mods: Mods { shift: false, alt: false, ctrl: false } }
}

/// Picking a listed option walks down from the first row to it, one Down per
/// option above it, and takes it with Enter.
pub proof fn lemma_choice_walks_to_its_row(ask: AskView, index: u16, ticked: Option<Seq<bool>>)
    requires
        (index as int) < ask.options.len(),
    ensures
        answer_presses(ask, AnswerView::Choice(index), ticked) is Ok,
        ({
            let p = answer_presses(ask, AnswerView::Choice(index), ticked)->Ok_0;
            &&& p.len() == index + 1
            &&& p[index as int] == bare(Key::Enter)
            &&& forall|i: int| 0 <= i < index ==> #[trigger] p[i] == bare(Key::Down)
        }),
{
}

/// A free-text answer walks past every listed option to the free-text row
/// below them, one Down per option, takes that row with Enter, types the text
/// and sends it with Enter: the first Enter never takes a listed option.
pub proof fn lemma_free_text_walks_past_every_option(ask: AskView, text: Seq<char>, ticked: Option<Seq<bool>>)
    requires
        ask.allows_free_text,
        trim(text).len() > 0,
    ensures
        answer_presses(ask, AnswerView::Text(text), ticked) is Ok,
        ({
            let p = answer_presses(ask, AnswerView::Text(text), ticked)->Ok_0;
            let n = ask.options.len() as int;
            &&& p.len() == n + 3
            &&& forall|i: int| 0 <= i < n ==> #[trigger] p[i] == bare(Key::Down)
            &&& p[n] == bare(Key::Enter)
            &&& p[n + 1] == InputView::Text(text)
            &&& p[n + 2] == bare(Key::Enter)
        }),
{
}

/// The number key that toggles row `row`: the digit itself.
pub open spec fn digit_key(row: int) -> InputView {
    bare(Key::Char((0x30 + row) as char))
}

proof fn lemma_digits_are_ascii(row: nat)
    requires
        row <= 9,
    ensures
        digits()[row as int] == (0x30 + row) as char,
{
    assert(digits()[0] == '0' && digits()[1] == '1' && digits()[2] == '2' && digits()[3] == '3' && digits()[4] == '4'
        && digits()[5] == '5' && digits()[6] == '6' && digits()[7] == '7' && digits()[8] == '8' && digits()[9] == '9');
}

proof fn lemma_toggles_untouched(ask: AskView, indices: Seq<u16>, i: int)
    requires
        0 <= i <= indices.len(),
        forall|j: int| 0 <= j < indices.len() ==> (#[trigger] indices[j] as int) < ask.options.len() && indices[j] < 9,
    ensures
        presses_from(ask, indices, None, i) == Ok::<Seq<InputView>, PickerErrorView>(
            Seq::new((indices.len() - i) as nat, |k: int| digit_key(indices[i + k] + 1)),
        ),
    decreases indices.len() - i,
{
    if i < indices.len() {
        lemma_toggles_untouched(ask, indices, i + 1);
        let row = indices[i] as nat + 1;
        lemma_digits_are_ascii(row);
        assert(seq![digit_key(indices[i] + 1)] + Seq::new((indices.len() - i - 1) as nat, |k: int| digit_key(indices[i + 1 + k] + 1))
            =~= Seq::new((indices.len() - i) as nat, |k: int| digit_key(indices[i + k] + 1)));
    } else {
        assert(Seq::<InputView>::empty() =~= Seq::new((indices.len() - i) as nat, |k: int| digit_key(indices[i + k] + 1)));
    }
}

/// On a question that takes several answers, with nothing ticked yet, each
/// chosen option is toggled by its row's number key, in the order chosen,
/// and Right moves on.
pub proof fn lemma_multi_toggles_each_choice(ask: AskView, indices: Seq<u16>)
    requires
        ask.multi_select,
        forall|j: int| 0 <= j < indices.len() ==> (#[trigger] indices[j] as int) < ask.options.len() && indices[j] < 9,
    ensures
        answer_presses(ask, AnswerView::Multi(indices), None) is Ok,
        ({
            let p = answer_presses(ask, AnswerView::Multi(indices), None)->Ok_0;
            &&& p.len() == indices.len() + 1
            &&& forall|j: int| 0 <= j < indices.len() ==> #[trigger] p[j] == digit_key(indices[j] + 1)
            &&& p[indices.len() as int] == bare(Key::Right)
        }),
{
    lemma_toggles_untouched(ask, indices, 0);
}

/// What cannot be answered is refused, not guessed at: an option the
/// question does not list, several answers to a question that takes one,
/// and text where the question takes none.
pub proof fn lemma_unanswerable_is_refused(ask: AskView, answer: AnswerView, ticked: Option<Seq<bool>>)
    ensures
        answer matches AnswerView::Choice(index) ==> ((index as int) >= ask.options.len() <==> answer_presses(
            ask,
            answer,
            ticked,
        ) is Err),
        answer is Multi && !ask.multi_select ==> answer_presses(ask, answer, ticked) is Err,
        answer is Text && !ask.allows_free_text ==> answer_presses(ask, answer, ticked) is Err,
{
}

/// The ticks shown for the `i`th question, where they are known.
pub open spec fn ticks_for(ticks: Option<Seq<Seq<bool>>>, i: int) -> Option<Seq<bool>> {
    match ticks {
        Some(rows) => if 0 <= i < rows.len() {
            Some(rows[i])
        } else {
            None
        },
        None => None,
    }
}

/// The presses that answer the questions from the `i`th on.
pub open spec fn set_presses_from(
    asks: Seq<AskView>,
    answers: Seq<AnswerView>,
    ticks: Option<Seq<Seq<bool>>>,
    i: int,
) -> Presses
    decreases asks.len() - i,
{
    if i < 0 || i >= asks.len() {
        Ok(Seq::empty())
    } else {
        match answer_presses(asks[i], answers[i], ticks_for(ticks, i)) {
            Err(e) => Err(e),
            Ok(s) => then(s, set_presses_from(asks, answers, ticks, i + 1)),
        }
    }
}

/// The presses that answer a whole set, or why it cannot be answered.
pub open spec fn set_presses(asks: Seq<AskView>, answers: Seq<AnswerView>, ticks: Option<Seq<Seq<bool>>>) -> Presses {
    if answers.len() != asks.len() {
        Err(PickerErrorView::Parts { asks: asks.len(), answers: answers.len() })
    } else {
        set_presses_from(asks, answers, ticks, 0)
    }
}

pub open spec fn asks_view(v: Seq<Ask>) -> Seq<AskView> {
    Seq::new(v.len(), |i: int| v[i]@)
}

pub open spec fn answers_view(v: Seq<Answer>) -> Seq<AnswerView> {
    Seq::new(v.len(), |i: int| v[i]@)
}

pub open spec fn ticks_view(t: Option<&[Vec<bool>]>) -> Option<Seq<Seq<bool>>> {
    match t {
        Some(rows) => Some(Seq::new(rows@.len(), |i: int| rows@[i]@)),
        None => None,
    }
}

/// The presses a result stands for.
pub open spec fn outcome(r: Result<Vec<TerminalInput>, PickerError>) -> Presses {
    match r {
        Ok(v) => Ok(inputs_view(v@)),
        Err(e) => Err(e@),
    }
}

/// Answering an agent's question picker, as key presses.
pub struct Picker {
    chrome: ScreenChrome,
}

impl Picker {
    /// The highest row a number key can reach.
    const LAST_NUMBERED_ROW: usize = 9;

    /// A driver for the harness these measurements describe.
    pub fn new(chrome: ScreenChrome) -> (picker: Self)
        ensures
            picker.chrome() == chrome,
    {
        Picker { chrome }
    }

    pub closed spec fn chrome(&self) -> ScreenChrome {
        self.chrome
    }

    /// What the review screen says, which is how a review is recognised.
    pub fn review_marker(&self) -> (marker: &str)
        ensures
            marker@ == self.chrome().review_marker@,
    {
        self.chrome.review_marker.as_str()
    }

    /// The key that sends a completed review.
    pub fn submit(&self) -> (key: Key)
        ensures
            key == Key::Char(self.chrome().submit),
    {
        Key::Char(self.chrome.submit)
    }

    /// The presses that answer a whole set, in order, built before anything
    /// is sent so a set that cannot be expressed leaves the picker untouched.
    pub fn steps(&self, asks: &[Ask], answers: &[Answer], ticks: Option<&[Vec<bool>]>) -> (steps:
        Result<Vec<TerminalInput>, PickerError>)
        ensures
            outcome(steps) == set_presses(asks_view(asks@), answers_view(answers@), ticks_view(ticks)),
    {
        if answers.len() != asks.len() {
            return Err(PickerError::Parts { asks: asks.len(), answers: answers.len() });
        }
        let ghost a = asks_view(asks@);
        let ghost b = answers_view(answers@);
        let ghost t = ticks_view(ticks);
        let mut steps: Vec<TerminalInput> = Vec::new();
        let mut index: usize = 0;
        assert(inputs_view(steps@) =~= Seq::<InputView>::empty());
        assert(then(inputs_view(steps@), set_presses_from(a, b, t, 0)) =~= set_presses_from(a, b, t, 0)) by {
            match set_presses_from(a, b, t, 0) {
                Ok(r) => assert(Seq::<InputView>::empty() + r =~= r),
                Err(e) => {},
            }
        }
        while index < asks.len()
            invariant
                index <= asks.len(),
                asks.len() == answers.len(),
                a == asks_view(asks@),
                b == answers_view(answers@),
                t == ticks_view(ticks),
                then(inputs_view(steps@), set_presses_from(a, b, t, index as int)) == set_presses_from(a, b, t, 0),
            decreases asks.len() - index,
        {
            let ticked: Option<&[bool]> = match ticks {
                Some(rows) => if index < rows.len() {
                    Some(rows[index].as_slice())
                } else {
                    None
                },
                None => None,
            };
            proof {
                assert(ticks_for(t, index as int) == match ticked {
                    Some(r) => Some(r@),
                    None => None::<Seq<bool>>,
                });
            }
            let one = Self::one(&asks[index], &answers[index], ticked);
            match one {
                Err(e) => {
                    proof {
                        assert(set_presses_from(a, b, t, index as int) == Err::<Seq<InputView>, PickerErrorView>(e@));
                    }
                    return Err(e);
                },
                Ok(presses) => {
                    let ghost before = inputs_view(steps@);
                    let ghost mine = inputs_view(presses@);
                    let mut presses = presses;
                    steps.append(&mut presses);
                    proof {
                        assert(inputs_view(steps@) =~= before + mine);
                        match set_presses_from(a, b, t, index + 1) {
                            Ok(r) => assert(before + mine + r =~= before + (mine + r)),
                            Err(e) => {},
                        }
                    }
                },
            }
            index += 1;
        }
        proof {
            assert(inputs_view(steps@) + Seq::<InputView>::empty() =~= inputs_view(steps@));
        }
        Ok(steps)
    }

    /// One question's presses.
    fn one(ask: &Ask, answer: &Answer, ticked: Option<&[bool]>) -> (presses: Result<Vec<TerminalInput>, PickerError>)
        ensures
            outcome(presses) == answer_presses(ask@, answer@, match ticked {
                Some(r) => Some(r@),
                None => None,
            }),
    {
        let ghost tv = match ticked {
            Some(r) => Some(r@),
            None => None::<Seq<bool>>,
        };
        match answer {
            Answer::Choice(index) => {
                let row = Self::option_row(ask, *index)?;
                Ok(Self::walk(row - 1))
            },
            Answer::Multi(indices) => {
                if !ask.multi_select {
                    return Err(PickerError::TakesOne { prompt: ask.prompt.clone(), given: indices.len() });
                }
                let mut steps: Vec<TerminalInput> = Vec::new();
                let mut i: usize = 0;
                let ghost av = ask@;
                let ghost iv = indices@;
                assert(inputs_view(steps@) =~= Seq::<InputView>::empty());
                assert(then(inputs_view(steps@), presses_from(av, iv, tv, 0)) =~= presses_from(av, iv, tv, 0)) by {
                    match presses_from(av, iv, tv, 0) {
                        Ok(r) => assert(Seq::<InputView>::empty() + r =~= r),
                        Err(e) => {},
                    }
                }
                while i < indices.len()
                    invariant
                        i <= indices.len(),
                        av == ask@,
                        iv == indices@,
                        tv == (match ticked {
                            Some(r) => Some(r@),
                            None => None::<Seq<bool>>,
                        }),
                        then(inputs_view(steps@), presses_from(av, iv, tv, i as int)) == presses_from(av, iv, tv, 0),
                        answer@ == AnswerView::Multi(iv),
                        ask.multi_select,
                    decreases indices.len() - i,
                {
                    let row = match Self::option_row(ask, indices[i]) {
                        Ok(row) => row,
                        Err(e) => {
                            proof {
                                assert(presses_from(av, iv, tv, i as int) == Err::<Seq<InputView>, PickerErrorView>(e@));
                                assert(presses_from(av, iv, tv, 0) == Err::<Seq<InputView>, PickerErrorView>(e@));
                                assert(answer@ == AnswerView::Multi(iv));
                            }
                            return Err(e);
                        },
                    };
                    let already = match ticked {
                        Some(rows) => row - 1 < rows.len() && rows[row - 1],
                        None => false,
                    };
                    proof {
                        assert(already == ticked_at(tv, row - 1));
                    }
                    if !already {
                        let key = match Self::row(row) {
                            Ok(key) => key,
                            Err(e) => {
                                proof {
                                    assert(presses_from(av, iv, tv, i as int) == Err::<Seq<InputView>, PickerErrorView>(e@));
                                    assert(presses_from(av, iv, tv, 0) == Err::<Seq<InputView>, PickerErrorView>(e@));
                                    assert(answer@ == AnswerView::Multi(iv));
                                }
                                return Err(e);
                            },
                        };
                        let ghost before = inputs_view(steps@);
                        steps.push(key);
                        proof {
                            assert(inputs_view(steps@) =~= before + seq![key@]);
                            match presses_from(av, iv, tv, i + 1) {
                                Ok(r) => assert(before + seq![key@] + r =~= before + (seq![key@] + r)),
                                Err(e) => {},
                            }
                        }
                    }
                    i += 1;
                }
                let ghost toggles = inputs_view(steps@);
                proof {
                    assert(presses_from(av, iv, tv, 0) == Ok::<Seq<InputView>, PickerErrorView>(toggles)) by {
                        assert(toggles + Seq::<InputView>::empty() =~= toggles);
                    }
                }
                if let Some(rows) = ticked {
                    let mut p: usize = 0;
                    let ghost rv = rows@;
                    assert(then(Seq::empty(), clears_from(rv, iv, 0)) =~= clears_from(rv, iv, 0)) by {
                        match clears_from(rv, iv, 0) {
                            Ok(r) => assert(Seq::<InputView>::empty() + r =~= r),
                            Err(e) => {},
                        }
                    }
                    while p < rows.len()
                        invariant
                            p <= rows.len(),
                            rv == rows@,
                            iv == indices@,
                            inputs_view(steps@).len() >= toggles.len(),
                            inputs_view(steps@).take(toggles.len() as int) == toggles,
                            then(inputs_view(steps@).skip(toggles.len() as int), clears_from(rv, iv, p as int))
                                == clears_from(rv, iv, 0),
                            answer@ == AnswerView::Multi(iv),
                            ask.multi_select,
                            tv == Some(rv),
                            tv == (match ticked {
                                Some(r) => Some(r@),
                                None => None::<Seq<bool>>,
                            }),
                            av == ask@,
                            presses_from(av, iv, tv, 0) == Ok::<Seq<InputView>, PickerErrorView>(toggles),
                        decreases rows.len() - p,
                    {
                        if rows[p] {
                            let mut picked = false;
                            let mut j: usize = 0;
                            while j < indices.len()
                                invariant
                                    j <= indices.len(),
                                    iv == indices@,
                                    picked == exists|q: int| 0 <= q < j && iv[q] as int == p as int,
                                decreases indices.len() - j,
                            {
                                if indices[j] as usize == p {
                                    picked = true;
                                }
                                j += 1;
                            }
                            proof {
                                assert(picked == chosen(iv, p as int));
                            }
                            if !picked {
                                let key = match Self::row(p + 1) {
                                    Ok(key) => key,
                                    Err(e) => {
                                        proof {
                                            assert(clears_from(rv, iv, p as int) == Err::<Seq<InputView>, PickerErrorView>(e@));
                                            assert(clears_from(rv, iv, 0) == Err::<Seq<InputView>, PickerErrorView>(e@));
                                            assert(answer@ == AnswerView::Multi(iv));
                                            assert(tv == Some(rv));
                                        }
                                        return Err(e);
                                    },
                                };
                                let ghost before = inputs_view(steps@);
                                steps.push(key);
                                proof {
                                    assert(inputs_view(steps@) =~= before.push(key@));
                                    assert(inputs_view(steps@).take(toggles.len() as int) =~= before.take(toggles.len() as int));
                                    assert(inputs_view(steps@).skip(toggles.len() as int) =~= before.skip(toggles.len() as int) + seq![key@]);
                                    match clears_from(rv, iv, p + 1) {
                                        Ok(r) => assert(before.skip(toggles.len() as int) + seq![key@] + r
                                            =~= before.skip(toggles.len() as int) + (seq![key@] + r)),
                                        Err(e) => {},
                                    }
                                }
                            }
                        }
                        p += 1;
                    }
                    proof {
                        let c = inputs_view(steps@).skip(toggles.len() as int);
                        assert(c + Seq::<InputView>::empty() =~= c);
                        assert(inputs_view(steps@) =~= toggles + c);
                    }
                } else {
                    assert(inputs_view(steps@) =~= toggles + Seq::<InputView>::empty());
                }
                let ghost before = inputs_view(steps@);
                steps.push(TerminalInput::Key { key: Key::Right, mods: Mods::none() });
                assert(inputs_view(steps@) =~= before + seq![plain(Key::Right)]);
                Ok(steps)
            },
            Answer::Text(text) => {
                if !ask.allows_free_text {
                    return Err(PickerError::NoFreeText { prompt: ask.prompt.clone() });
                }
                if trimmed(&chars_of(text.as_str())).len() == 0 {
                    return Err(PickerError::Empty { prompt: ask.prompt.clone() });
                }
                assert(ask@.options.len() == ask.options.len());
                let mut steps = Self::walk(ask.options.len());
                let ghost before = inputs_view(steps@);
                steps.push(TerminalInput::Text(text.clone()));
                steps.push(TerminalInput::Key { key: Key::Enter, mods: Mods::none() });
                assert(inputs_view(steps@) =~= before + seq![InputView::Text(text@), plain(Key::Enter)]);
                Ok(steps)
            },
        }
    }

    /// Walking the cursor down `downs` rows from the first, then taking the
    /// row it lands on.
    fn walk(downs: usize) -> (steps: Vec<TerminalInput>)
        ensures
            inputs_view(steps@) == walk_to(downs as nat + 1),
    {
        let mut steps: Vec<TerminalInput> = Vec::new();
        let mut i: usize = 0;
        while i < downs
            invariant
                i <= downs,
                steps.len() == i,
                forall|j: int| 0 <= j < steps.len() ==> #[trigger] steps@[j]@ == plain(Key::Down),
            decreases downs - i,
        {
            steps.push(TerminalInput::Key { key: Key::Down, mods: Mods::none() });
            i += 1;
        }
        steps.push(TerminalInput::Key { key: Key::Enter, mods: Mods::none() });
        proof {
            let w = walk_to(downs as nat + 1);
            assert(w.len() == downs + 1);
            assert forall|j: int| 0 <= j < w.len() implies inputs_view(steps@)[j] == w[j] by {
                if j < downs {
                    assert(steps@[j]@ == plain(Key::Down));
                }
            }
            assert(inputs_view(steps@) =~= w);
        }
        steps
    }

    /// The 1-based row an option index sits on.
    fn option_row(ask: &Ask, index: u16) -> (row: Result<usize, PickerError>)
        ensures
            match row {
                Ok(r) => option_row(ask@, index) == Ok::<nat, PickerErrorView>(r as nat),
                Err(e) => option_row(ask@, index) == Err::<nat, PickerErrorView>(e@),
            },
    {
        if index as usize >= ask.options.len() {
            return Err(
                PickerError::NoSuchOption {
                    prompt: ask.prompt.clone(),
                    options: ask.options.len(),
                    chosen: index,
                },
            );
        }
        Ok(index as usize + 1)
    }

    /// The number key for a row, refused past the ninth.
    fn row(row: usize) -> (key: Result<TerminalInput, PickerError>)
        ensures
            match key {
                Ok(k) => number_key(row as nat) == Ok::<InputView, PickerErrorView>(k@),
                Err(e) => number_key(row as nat) == Err::<InputView, PickerErrorView>(e@),
            },
    {
        if row > Self::LAST_NUMBERED_ROW {
            return Err(PickerError::NoNumberKey { row });
        }
        let table: [char; 10] = ['0', '1', '2', '3', '4', '5', '6', '7', '8', '9'];
        assert(table@ =~= digits());
        Ok(TerminalInput::Key { key: Key::Char(table[row]), mods: Mods::none() })
    }
}

} // verus!
