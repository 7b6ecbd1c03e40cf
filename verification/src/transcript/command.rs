//! A slash command a person ran, read back off the record.
//!
//! The harness does not record `/goal ship it` as those words. It records the
//! name, the message and the arguments as separate tags, and its output
//! separately again, so a reader that dropped the whole span took the
//! arguments with the name.
use vstd::prelude::*;
use crate::text::{chars_of, has_prefix, slice_of, starts_with, string_of, trim, trimmed};

verus! {

/// Which tags and which record kind a harness writes a slash command with.
/// They belong to the harness, so they arrive as a table rather than being
/// spelled here; an agent nobody has measured has none.
#[derive(Debug, Clone)]
pub struct CommandTags {
    pub record_kind: String,
    pub record_subtype: String,
    pub name: String,
    pub args: String,
    pub stdout: String,
}

/// Where `pat` first occurs in `text` at or after `from`.
pub open spec fn find_from(text: Seq<char>, pat: Seq<char>, from: int) -> Option<int>
    decreases text.len() + 1 - from,
{
    if from < 0 || from + pat.len() > text.len() {
        None
    } else if text.subrange(from, from + pat.len()) == pat {
        Some(from)
    } else {
        find_from(text, pat, from + 1)
    }
}

/// `<tag>`.
pub open spec fn opening(tag: Seq<char>) -> Seq<char> {
    seq!['<'] + tag + seq!['>']
}

/// `</tag>`.
pub open spec fn closing(tag: Seq<char>) -> Seq<char> {
    seq!['<', '/'] + tag + seq!['>']
}

/// What lies between the first `<tag>` in `text` and the first `</tag>`
/// after it.
pub open spec fn between(text: Seq<char>, tag: Seq<char>) -> Option<Seq<char>> {
    match find_from(text, opening(tag), 0) {
        None => None,
        Some(i) => {
            let start = i + opening(tag).len();
            match find_from(text, closing(tag), start) {
                None => None,
                Some(j) => Some(text.subrange(start, j)),
            }
        },
    }
}

/// The command as the person typed it: the name, and the arguments after a
/// space when there are any; nothing without a name.
pub open spec fn spoken_command(tags: CommandTags, text: Seq<char>) -> Option<Seq<char>> {
    match between(text, tags.name@) {
        None => None,
        Some(n) => {
            let name = trim(n);
            if name.len() == 0 {
                None
            } else {
                let args = match between(text, tags.args@) {
                    Some(a) => trim(a),
                    None => Seq::empty(),
                };
                if args.len() == 0 { Some(name) } else { Some(name + seq![' '] + args) }
            }
        },
    }
}

/// What the command printed, or nothing when it printed nothing.
pub open spec fn command_output(tags: CommandTags, text: Seq<char>) -> Option<Seq<char>> {
    match between(text, tags.stdout@) {
        None => None,
        Some(p) => if trim(p).len() == 0 { None } else { Some(trim(p)) },
    }
}

/// Where `pat` first occurs in `text` at or after `from`.
pub fn find_at(text: &[char], pat: &[char], from: usize) -> (at: Option<usize>)
    ensures
        match at {
            Some(i) => find_from(text@, pat@, from as int) == Some(i as int) && from <= i && i + pat@.len() <= text@.len(),
            None => find_from(text@, pat@, from as int) is None,
        },
{
    let mut i: usize = from;
    while i <= text.len() && pat.len() <= text.len() - i
        invariant
            from <= i,
            find_from(text@, pat@, i as int) == find_from(text@, pat@, from as int),
        decreases text@.len() + 1 - i,
    {
        let window = slice_of(text, i, i + pat.len());
        if crate::text::same_chars(window.as_slice(), pat) {
            return Some(i);
        }
        proof {
            if i == text@.len() {
                assert(pat@.len() == 0);
                assert(window@ =~= pat@);
            }
        }
        i = i + 1;
    }
    None
}

/// `<tag>` or `</tag>` as characters.
fn marker(tag: &str, close: bool) -> (m: Vec<char>)
    ensures
        m@ == (if close { closing(tag@) } else { opening(tag@) }),
{
    let mut m: Vec<char> = Vec::new();
    m.push('<');
    if close {
        m.push('/');
    }
    let mut body = chars_of(tag);
    m.append(&mut body);
    m.push('>');
    proof {
        if close {
            assert(m@ =~= closing(tag@));
        } else {
            assert(m@ =~= opening(tag@));
        }
    }
    m
}

impl CommandTags {
    /// What lies between the first `<tag>` and the `</tag>` after it.
    pub fn between(text: &[char], tag: &str) -> (inner: Option<Vec<char>>)
        ensures
            match inner {
                Some(t) => between(text@, tag@) == Some(t@),
                None => between(text@, tag@) is None,
            },
    {
        let open = marker(tag, false);
        let close = marker(tag, true);
        let open_s = open.as_slice();
        let i = match find_at(text, open_s, 0) {
            Some(i) => i,
            None => {
                return None;
            },
        };
        proof {
            assert(open_s@ == open@);
        }
        let n = text.len();
        assert(i + open@.len() <= n);
        let start = i + open.len();
        let j = match find_at(text, close.as_slice(), start) {
            Some(j) => j,
            None => {
                return None;
            },
        };
        Some(slice_of(text, start, j))
    }
}

/// A slash command a person ran, read back off the record.
pub struct SlashCommand;

impl SlashCommand {
    /// The command as the person typed it, arguments included.
    pub fn spoken(tags: &CommandTags, text: &str) -> (command: Option<String>)
        ensures
            match command {
                Some(c) => spoken_command(*tags, text@) == Some(c@),
                None => spoken_command(*tags, text@) is None,
            },
    {
        let chars = chars_of(text);
        let name = match CommandTags::between(chars.as_slice(), tags.name.as_str()) {
            Some(n) => trimmed(n.as_slice()),
            None => {
                return None;
            },
        };
        if name.len() == 0 {
            return None;
        }
        let args = match CommandTags::between(chars.as_slice(), tags.args.as_str()) {
            Some(a) => trimmed(a.as_slice()),
            None => Vec::new(),
        };
        if args.len() == 0 {
            return Some(string_of(name.as_slice()));
        }
        let mut whole = name;
        whole.push(' ');
        let mut rest = args;
        whole.append(&mut rest);
        Some(string_of(whole.as_slice()))
    }

    /// What the command printed. Empty output is `None`: a command that
    /// printed nothing has nothing to open.
    pub fn output(tags: &CommandTags, text: &str) -> (printed: Option<String>)
        ensures
            match printed {
                Some(p) => command_output(*tags, text@) == Some(p@),
                None => command_output(*tags, text@) is None,
            },
    {
        let chars = chars_of(text);
        let printed = match CommandTags::between(chars.as_slice(), tags.stdout.as_str()) {
            Some(p) => trimmed(p.as_slice()),
            None => {
                return None;
            },
        };
        if printed.len() == 0 {
            return None;
        }
        Some(string_of(printed.as_slice()))
    }

    /// Whether a record is one of these at all.
    pub fn is_command(tags: &CommandTags, text: &str) -> (b: bool)
        ensures
            b == (between(text@, tags.name@) is Some || between(text@, tags.stdout@) is Some),
    {
        let chars = chars_of(text);
        CommandTags::between(chars.as_slice(), tags.name.as_str()).is_some()
            || CommandTags::between(chars.as_slice(), tags.stdout.as_str()).is_some()
    }
}

} // verus!
