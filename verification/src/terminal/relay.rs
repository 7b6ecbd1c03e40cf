//! The first line a shim sends on each channel it opens: which pane it runs
//! in, how large that pane is, and which half of the pane's stream the
//! channel carries.
//!
//! `<pane id> <cols> <rows> <half>` on one line, then bytes. Text rather than
//! a binary frame: a shim and the server it dials are the same program on the
//! same machine, and a readable first line is worth more at the boundary
//! somebody will debug with a pipe client.
use vstd::prelude::*;
use crate::terminal::prompt::{all_digits, digits_value, is_digit, number_body, parse_number, parsed_number};
use crate::text::{chars_of, decimal_text, digit_char, is_whitespace, is_ws, push_decimal, same_chars, slice_of, string_of};

verus! {

/// Which half of a pane's stream a channel carries.
#[derive(Debug, Clone, Copy, PartialEq, Eq, Structural)]
pub enum Half {
    /// The shim's pty output, inbound to the emulator.
    Up,
    /// Input for the shell, outbound to the shim.
    Down,
}

/// What a shim announces: the pane as the shim names it, its size, and the
/// half of the stream the channel carries.
#[derive(Debug, Clone, PartialEq, Eq)]
pub struct Hello {
    pub pane: String,
    pub cols: u16,
    pub rows: u16,
    pub half: Half,
}

/// A greeting as values.
pub struct HelloView {
    pub pane: Seq<char>,
    pub cols: u16,
    pub rows: u16,
    pub half: Half,
}

impl View for Hello {
    type V = HelloView;

    open spec fn view(&self) -> HelloView {
        HelloView { pane: self.pane@, cols: self.cols, rows: self.rows, half: self.half }
    }
}

/// How many characters that are not whitespace a text starts with.
pub open spec fn word_len(s: Seq<char>) -> nat
    decreases s.len(),
{
    if s.len() == 0 || is_whitespace(s[0]) {
        0
    } else {
        1 + word_len(s.drop_first())
    }
}

pub proof fn lemma_word_len_bound(s: Seq<char>)
    ensures
        word_len(s) <= s.len(),
        s.len() > 0 && !is_whitespace(s[0]) ==> word_len(s) >= 1,
    decreases s.len(),
{
    if s.len() > 0 && !is_whitespace(s[0]) {
        lemma_word_len_bound(s.drop_first());
    }
}

/// `word_len` is the length of the run of non-whitespace that starts a text.
pub proof fn lemma_word_len_is(s: Seq<char>, k: int)
    requires
        0 <= k <= s.len(),
        forall|j: int| 0 <= j < k ==> !is_whitespace(#[trigger] s[j]),
        k == s.len() || is_whitespace(s[k]),
    ensures
        word_len(s) == k,
    decreases k,
{
    if k > 0 {
        assert forall|j: int| 0 <= j < k - 1 implies !is_whitespace(#[trigger] s.drop_first()[j]) by {
            assert(s.drop_first()[j] == s[j + 1]);
        }
        if k < s.len() {
            assert(s.drop_first()[k - 1] == s[k]);
        }
        lemma_word_len_is(s.drop_first(), k - 1);
    }
}

/// `str::split_whitespace`: the runs of characters that are not whitespace,
/// first first.
pub open spec fn words(s: Seq<char>) -> Seq<Seq<char>>
    decreases s.len(),
{
    if s.len() == 0 {
        Seq::empty()
    } else if is_whitespace(s[0]) {
        words(s.drop_first())
    } else {
        let k = word_len(s);
        proof {
            lemma_word_len_bound(s);
        }
        seq![s.take(k as int)] + words(s.skip(k as int))
    }
}

/// `u16::from_str`: an optional `+` and at least one digit, the value
/// fitting a `u16`.
pub open spec fn u16_of(w: Seq<char>) -> Option<u16> {
    match parsed_number(w) {
        Some(v) => if v <= u16::MAX { Some(v as u16) } else { None },
        None => None,
    }
}

/// A size field: the number it reads as, or `fallback` when it is missing or
/// is not one.
pub open spec fn size_field(ws: Seq<Seq<char>>, i: int, fallback: u16) -> u16 {
    if i < ws.len() {
        match u16_of(ws[i]) {
            Some(v) => v,
            None => fallback,
        }
    } else {
        fallback
    }
}

/// What a greeting line announces, or nothing when it names no pane.
///
/// A shim that cannot read its own terminal size still has a usable stream,
/// so a missing or unreadable size is 80 by 24 rather than a refusal; the
/// channel is the uplink unless the line says `down`.
pub open spec fn hello_of(line: Seq<char>) -> Option<HelloView> {
    let ws = words(line);
    if ws.len() == 0 {
        None
    } else {
        Some(HelloView {
            pane: ws[0],
            cols: size_field(ws, 1, 80),
            rows: size_field(ws, 2, 24),
            half: if ws.len() > 3 && ws[3] == "down"@ { Half::Down } else { Half::Up },
        })
    }
}

/// A half's name on the wire.
pub open spec fn half_name(half: Half) -> Seq<char> {
    match half {
        Half::Up => "up"@,
        Half::Down => "down"@,
    }
}

/// The line a shim opens a channel with.
pub open spec fn greeting_text(pane: Seq<char>, cols: u16, rows: u16, half: Half) -> Seq<char> {
    pane + seq![' '] + decimal_text(cols as nat) + seq![' '] + decimal_text(rows as nat) + seq![' ']
        + half_name(half) + seq!['\n']
}

/// Whether a pane name can travel as one word.
pub open spec fn one_word(s: Seq<char>) -> bool {
    s.len() > 0 && forall|j: int| 0 <= j < s.len() ==> !is_whitespace(#[trigger] s[j])
}

/// A word, then whitespace, then the rest, splits as that word then the
/// rest's words.
pub proof fn lemma_words_lead(w: Seq<char>, sep: char, rest: Seq<char>)
    requires
        one_word(w),
        is_whitespace(sep),
    ensures
        words(w + seq![sep] + rest) == seq![w] + words(rest),
{
    let s = w + seq![sep] + rest;
    assert forall|j: int| 0 <= j < w.len() implies !is_whitespace(#[trigger] s[j]) by {
        assert(s[j] == w[j]);
    }
    assert(s[w.len() as int] == sep);
    lemma_word_len_is(s, w.len() as int);
    assert(s.take(w.len() as int) =~= w);
    let after = s.skip(w.len() as int);
    assert(after =~= seq![sep] + rest);
    assert(after[0] == sep);
    assert(after.drop_first() =~= rest);
    assert(!is_whitespace(s[0]));
    assert(words(s) == seq![s.take(w.len() as int)] + words(after));
    assert(words(after) == words(after.drop_first()));
}

/// The ASCII digits of a number are digits, at least one, worth the number.
pub proof fn lemma_decimal_digits(n: nat)
    ensures
        decimal_text(n).len() > 0,
        all_digits(decimal_text(n)),
        digits_value(decimal_text(n)) == n,
        decimal_text(n)[0] != '+',
    decreases n,
{
    let d = n % 10;
    assert((digit_char(d) as u32) == 48 + d);
    assert(n == (n / 10) * 10 + n % 10) by (nonlinear_arith);
    assert(('0' as u32) == 48);
    if n < 10 {
        let s = decimal_text(n);
        assert(s.drop_last() =~= Seq::<char>::empty());
        assert(digits_value(s.drop_last()) == 0);
        assert(s.last() == digit_char(n));
        assert(digits_value(s) == digits_value(s.drop_last()) * 10 + ((s.last() as u32) - ('0' as u32)) as nat);
    } else {
        lemma_decimal_digits(n / 10);
        let s = decimal_text(n);
        assert(s.drop_last() =~= decimal_text(n / 10));
        assert(s.last() == digit_char(d));
        assert(digits_value(s) == digits_value(s.drop_last()) * 10 + ((s.last() as u32) - ('0' as u32)) as nat);
        assert(s[0] == decimal_text(n / 10)[0]);
        assert forall|i: int| 0 <= i < s.len() implies is_digit(#[trigger] s[i]) by {
            if i < s.len() - 1 {
                assert(s[i] == decimal_text(n / 10)[i]);
            }
        }
    }
}

/// A number's digits are one word, read back as the number.
proof fn lemma_decimal_word(n: u16)
    ensures
        one_word(decimal_text(n as nat)),
        u16_of(decimal_text(n as nat)) == Some(n),
{
    lemma_decimal_digits(n as nat);
    let s = decimal_text(n as nat);
    assert forall|j: int| 0 <= j < s.len() implies !is_whitespace(#[trigger] s[j]) by {
        assert(is_digit(s[j]));
    }
    assert(number_body(s) == s);
}

/// The greeting a shim writes is read back as the pane, the size and the
/// half it announced, for any pane name that is one word.
pub proof fn lemma_hello_round_trip(pane: Seq<char>, cols: u16, rows: u16, half: Half)
    requires
        one_word(pane),
    ensures
        hello_of(greeting_text(pane, cols, rows, half)) == Some(
            HelloView { pane, cols, rows, half },
        ),
{
    reveal_strlit("up");
    reveal_strlit("down");
    let c = decimal_text(cols as nat);
    let r = decimal_text(rows as nat);
    let h = half_name(half);
    lemma_decimal_word(cols);
    lemma_decimal_word(rows);
    assert(one_word(h));
    let tail = h + seq!['\n'];
    assert(is_whitespace('\n'));
    assert(words(Seq::<char>::empty()) == Seq::<Seq<char>>::empty());
    lemma_words_lead(h, '\n', Seq::empty());
    assert(h + seq!['\n'] + Seq::<char>::empty() =~= tail);
    lemma_words_lead(r, ' ', tail);
    assert(r + seq![' '] + tail =~= r + seq![' '] + h + seq!['\n']);
    let from_rows = r + seq![' '] + tail;
    lemma_words_lead(c, ' ', from_rows);
    let from_cols = c + seq![' '] + from_rows;
    lemma_words_lead(pane, ' ', from_cols);
    assert(greeting_text(pane, cols, rows, half) =~= pane + seq![' '] + from_cols);
    let ws = words(greeting_text(pane, cols, rows, half));
    assert(ws =~= seq![pane, c, r, h]);
    assert(ws[3] == "down"@ <==> half == Half::Down);
}

/// The words of a text, first first.
fn split_words(v: &[char]) -> (out: Vec<Vec<char>>)
    ensures
        out.deep_view() == words(v@),
{
    let mut out: Vec<Vec<char>> = Vec::new();
    let mut i: usize = 0;
    proof {
        assert(v@.skip(0) =~= v@);
    }
    while i < v.len()
        invariant
            i <= v.len(),
            out.deep_view() + words(v@.skip(i as int)) == words(v@),
        decreases v.len() - i,
    {
        let ghost rest = v@.skip(i as int);
        if is_ws(v[i]) {
            proof {
                assert(rest[0] == v@[i as int]);
                assert(rest.drop_first() =~= v@.skip(i + 1));
            }
            i = i + 1;
        } else {
            let mut j: usize = i;
            while j < v.len() && !is_ws(v[j])
                invariant
                    i <= j <= v.len(),
                    forall|k: int| i <= k < j ==> !is_whitespace(#[trigger] v@[k]),
                decreases v.len() - j,
            {
                j = j + 1;
            }
            let word = slice_of(v, i, j);
            proof {
                assert forall|k: int| 0 <= k < j - i implies !is_whitespace(#[trigger] rest[k]) by {
                    assert(rest[k] == v@[i + k]);
                }
                if j < v.len() {
                    assert(rest[j - i] == v@[j as int]);
                }
                lemma_word_len_is(rest, j - i);
                assert(rest[0] == v@[i as int]);
                assert(rest.take(j - i) =~= word@);
                assert(rest.skip(j - i) =~= v@.skip(j as int));
                assert(words(rest) == seq![word@] + words(v@.skip(j as int)));
            }
            let ghost before = out.deep_view();
            out.push(word);
            proof {
                assert(out.deep_view()[before.len() as int] =~= word@);
                assert(out.deep_view() =~= before.push(word@));
                assert(out.deep_view() + words(v@.skip(j as int)) =~= before + (seq![word@] + words(
                    v@.skip(j as int),
                )));
            }
            i = j;
        }
    }
    proof {
        assert(v@.skip(v.len() as int) =~= Seq::<char>::empty());
        assert(out.deep_view() + Seq::<Seq<char>>::empty() =~= out.deep_view());
    }
    out
}

/// A word as a `u16`, or `fallback`.
fn size_at(ws: &Vec<Vec<char>>, i: usize, fallback: u16) -> (n: u16)
    ensures
        n == size_field(ws.deep_view(), i as int, fallback),
{
    if i < ws.len() {
        proof {
            assert(ws.deep_view()[i as int] == ws[i as int]@);
        }
        match parse_number(ws[i].as_slice()) {
            Some(v) => if v <= 65535 {
                v as u16
            } else {
                fallback
            },
            None => fallback,
        }
    } else {
        fallback
    }
}

/// Reads a shim's greeting line: the pane it names, its size, and which half
/// of the stream the channel carries; nothing when the line names no pane.
pub fn parse_hello(line: &str) -> (hello: Option<Hello>)
    ensures
        match hello {
            Some(h) => hello_of(line@) == Some(h@),
            None => hello_of(line@) is None,
        },
{
    let v = chars_of(line);
    let ws = split_words(v.as_slice());
    if ws.len() == 0 {
        return None;
    }
    proof {
        assert(ws.deep_view()[0] == ws[0]@);
    }
    let pane = string_of(ws[0].as_slice());
    let cols = size_at(&ws, 1, 80);
    let rows = size_at(&ws, 2, 24);
    let half = if ws.len() > 3 {
        let down = chars_of("down");
        proof {
            assert(ws.deep_view()[3] == ws[3]@);
        }
        if same_chars(ws[3].as_slice(), down.as_slice()) {
            Half::Down
        } else {
            Half::Up
        }
    } else {
        Half::Up
    };
    Some(Hello { pane, cols, rows, half })
}

/// The line a shim opens a channel with: the pane, its size and the half,
/// space-separated, ending in a newline.
pub fn greeting(pane: &str, cols: u16, rows: u16, half: Half) -> (line: String)
    ensures
        line@ == greeting_text(pane@, cols, rows, half),
{
    let mut out = chars_of(pane);
    out.push(' ');
    push_decimal(&mut out, cols as u64);
    out.push(' ');
    push_decimal(&mut out, rows as u64);
    out.push(' ');
    let mut name = match half {
        Half::Up => chars_of("up"),
        Half::Down => chars_of("down"),
    };
    out.append(&mut name);
    out.push('\n');
    string_of(out.as_slice())
}

} // verus!
