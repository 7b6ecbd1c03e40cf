//! What an agent asks a person, and what the person answers.
use vstd::prelude::*;

verus! {

/// One row a person can choose.
#[derive(Debug, Clone, PartialEq, Eq)]
pub struct QuestionOption {
    pub label: String,
    pub description: Option<String>,
}

/// One question of a set, with its options.
#[derive(Debug, Clone, PartialEq, Eq)]
pub struct Ask {
    pub header: Option<String>,
    pub prompt: String,
    pub options: Vec<QuestionOption>,
    pub multi_select: bool,
    pub allows_free_text: bool,
}

/// What a person answered one question with.
#[derive(Debug, Clone, PartialEq, Eq)]
pub enum Answer {
    /// The option at this index.
    Choice(u16),
    /// These options, for a question that takes several.
    Multi(Vec<u16>),
    /// Free text, for a question that takes it.
    Text(String),
}

/// A set of questions an agent asks at once.
///
/// The identity and fingerprint are minted where the set is first read and
/// carried here unchanged: the same prompt on screen is the same set.
#[derive(Debug, Clone, PartialEq, Eq)]
pub struct Question {
    pub id: String,
    pub fingerprint: String,
    pub asks: Vec<Ask>,
}

/// A set of questions as values.
pub struct QuestionView {
    pub id: Seq<char>,
    pub fingerprint: Seq<char>,
    pub asks: Seq<AskView>,
}

impl View for Question {
    type V = QuestionView;

    open spec fn view(&self) -> QuestionView {
        QuestionView {
            id: self.id@,
            fingerprint: self.fingerprint@,
            asks: Seq::new(self.asks@.len(), |i: int| self.asks@[i]@),
        }
    }
}

fn copy_text(t: &Option<String>) -> (c: Option<String>)
    ensures
        text_of(c) == text_of(*t),
{
    match t {
        Some(s) => Some(s.clone()),
        None => None,
    }
}

impl QuestionOption {
    /// A copy with the same text.
    pub fn copy(&self) -> (c: QuestionOption)
        ensures
            c@ == self@,
    {
        QuestionOption { label: self.label.clone(), description: copy_text(&self.description) }
    }
}

impl Ask {
    /// A copy with the same text and options.
    pub fn copy(&self) -> (c: Ask)
        ensures
            c@ == self@,
    {
        let mut options: Vec<QuestionOption> = Vec::new();
        let mut i: usize = 0;
        while i < self.options.len()
            invariant
                i <= self.options@.len(),
                options@.len() == i,
                forall|j: int| 0 <= j < i ==> #[trigger] options@[j]@ == self.options@[j]@,
            decreases self.options@.len() - i,
        {
            options.push(self.options[i].copy());
            i = i + 1;
        }
        let c = Ask {
            header: copy_text(&self.header),
            prompt: self.prompt.clone(),
            options,
            multi_select: self.multi_select,
            allows_free_text: self.allows_free_text,
        };
        proof {
            assert(c@.options =~= self@.options);
        }
        c
    }
}

impl Question {
    /// A copy with the same identity and asks.
    pub fn copy(&self) -> (c: Question)
        ensures
            c@ == self@,
    {
        let mut asks: Vec<Ask> = Vec::new();
        let mut i: usize = 0;
        while i < self.asks.len()
            invariant
                i <= self.asks@.len(),
                asks@.len() == i,
                forall|j: int| 0 <= j < i ==> #[trigger] asks@[j]@ == self.asks@[j]@,
            decreases self.asks@.len() - i,
        {
            asks.push(self.asks[i].copy());
            i = i + 1;
        }
        let c = Question { id: self.id.clone(), fingerprint: self.fingerprint.clone(), asks };
        proof {
            assert(c@.asks =~= self@.asks);
        }
        c
    }

    /// What the set asks first, or nothing for an empty set.
    pub fn prompt(&self) -> (p: &str)
        ensures
            p@ == (if self.asks@.len() > 0 { self.asks@[0].prompt@ } else { Seq::<char>::empty() }),
    {
        if self.asks.len() > 0 {
            self.asks[0].prompt.as_str()
        } else {
            proof {
                reveal_strlit("");
            }
            ""
        }
    }
}

/// An option as values.
pub struct OptionView {
    pub label: Seq<char>,
    pub description: Option<Seq<char>>,
}

/// A question as values.
pub struct AskView {
    pub header: Option<Seq<char>>,
    pub prompt: Seq<char>,
    pub options: Seq<OptionView>,
    pub multi_select: bool,
    pub allows_free_text: bool,
}

/// An answer as values.
pub enum AnswerView {
    Choice(u16),
    Multi(Seq<u16>),
    Text(Seq<char>),
}

pub open spec fn text_of(s: Option<String>) -> Option<Seq<char>> {
    match s {
        Some(t) => Some(t@),
        None => None,
    }
}

impl View for QuestionOption {
    type V = OptionView;

    open spec fn view(&self) -> OptionView {
        OptionView { label: self.label@, description: text_of(self.description) }
    }
}

impl View for Ask {
    type V = AskView;

    open spec fn view(&self) -> AskView {
        AskView {
            header: text_of(self.header),
            prompt: self.prompt@,
            options: Seq::new(self.options@.len(), |i: int| self.options@[i]@),
            multi_select: self.multi_select,
            allows_free_text: self.allows_free_text,
        }
    }
}

impl View for Answer {
    type V = AnswerView;

    open spec fn view(&self) -> AnswerView {
        match self {
            Answer::Choice(i) => AnswerView::Choice(*i),
            Answer::Multi(v) => AnswerView::Multi(v@),
            Answer::Text(t) => AnswerView::Text(t@),
        }
    }
}

} // verus!
