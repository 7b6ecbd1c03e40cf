//! The files a person sent, read back out of their own prompt.
//!
//! A file the person sent reached the agent as a line of text inside their own
//! turn, written by this machine in one exact form. Reading those lines back is
//! reading this machine's own record, which is what makes it safe: only a path
//! inside this machine's upload directory is lifted.
use vstd::prelude::*;
use crate::paths::{file_name, file_name_of};
use crate::text::{
    chars_of, has_prefix, index_of, join, join_parts, lines, lowercase, lowercased, occurs,
    occurs_in, slice_of, split_lines, starts_with, string_of, strs, trim, trim_end, trimmed,
    trimmed_end, lemma_index_of_bounds,
};

verus! {

/// The exact prefix this machine writes before an attached file's path.
pub open spec fn marker() -> Seq<char> {
    seq!['A', 't', 't', 'a', 'c', 'h', 'e', 'd', ':', ' ']
}

pub open spec fn is_separator(c: char) -> bool {
    c == '/' || c == '\\'
}

/// A path with its trailing separators removed.
pub open spec fn trim_separators(s: Seq<char>) -> Seq<char>
    decreases s.len(),
{
    if s.len() > 0 && is_separator(s.last()) {
        trim_separators(s.drop_last())
    } else {
        s
    }
}

/// Backslashes as forward slashes.
pub open spec fn forward_slashes(s: Seq<char>) -> Seq<char> {
    Seq::new(
        s.len(),
        |i: int|
            if s[i] == '\\' {
                '/'
            } else {
                s[i]
            },
    )
}

/// A path spelled so two spellings of one place compare equal: no trailing
/// separator, forward slashes, lowercase.
pub open spec fn normalised(s: Seq<char>) -> Seq<char> {
    lowercase(forward_slashes(trim_separators(s)))
}

/// Whether a path sits inside the upload directory: the normalised directory
/// is a prefix of the normalised path and the boundary falls on a separator.
pub open spec fn stored_in(path: Seq<char>, uploads: Seq<char>) -> bool {
    let store = normalised(uploads);
    let p = normalised(path);
    store.len() > 0 && has_prefix(p, store) && p.len() > store.len() && p[store.len() as int] == '/'
}

/// The path a line names, when the line is one this machine wrote.
pub open spec fn named(line: Seq<char>, uploads: Seq<char>) -> Option<Seq<char>> {
    if has_prefix(line, marker()) {
        let path = trim(line.skip(marker().len() as int));
        if stored_in(path, uploads) {
            Some(path)
        } else {
            None
        }
    } else {
        None
    }
}

/// The lines that name no stored file.
pub open spec fn spoken_lines(ls: Seq<Seq<char>>, uploads: Seq<char>) -> Seq<Seq<char>>
    decreases ls.len(),
{
    if ls.len() == 0 {
        Seq::empty()
    } else if named(ls.last(), uploads) is Some {
        spoken_lines(ls.drop_last(), uploads)
    } else {
        spoken_lines(ls.drop_last(), uploads).push(ls.last())
    }
}

/// The stored files the lines name, in order.
pub open spec fn sent_files(ls: Seq<Seq<char>>, uploads: Seq<char>) -> Seq<Seq<char>>
    decreases ls.len(),
{
    if ls.len() == 0 {
        Seq::empty()
    } else {
        match named(ls.last(), uploads) {
            Some(path) => sent_files(ls.drop_last(), uploads).push(path),
            None => sent_files(ls.drop_last(), uploads),
        }
    }
}

/// What the person wrote, and the files they sent: the words with each
/// attachment line lifted out and the end trimmed, or the text untouched when
/// no line names a stored file.
pub open spec fn split_sent(text: Seq<char>, uploads: Seq<char>) -> (Seq<char>, Seq<Seq<char>>) {
    let files = sent_files(lines(text), uploads);
    if !occurs_in(marker(), text) || files.len() == 0 {
        (text, Seq::empty())
    } else {
        (trim_end(join(spoken_lines(lines(text), uploads), seq!['\n'])), files)
    }
}

pub open spec fn is_ascii_hex(c: char) -> bool {
    let u = c as u32;
    (0x30 <= u <= 0x39) || (0x61 <= u <= 0x66) || (0x41 <= u <= 0x46)
}

pub open spec fn all_hex(s: Seq<char>) -> bool {
    forall|i: int| 0 <= i < s.len() ==> is_ascii_hex(#[trigger] s[i])
}

/// A stored name without the digest prefix the store puts in front of it:
/// twelve hex characters and a dash, with something after it.
pub open spec fn without_store_prefix(stored: Seq<char>) -> Seq<char> {
    let dash = index_of(stored, '-');
    if dash >= stored.len() {
        stored
    } else if dash == 12 && all_hex(stored.take(dash)) && stored.skip(dash + 1).len() > 0 {
        stored.skip(dash + 1)
    } else {
        stored
    }
}

/// The name to show for a stored upload: the digest prefix the store puts in
/// front of a file's name comes off, and only that exact shape does.
pub open spec fn readable(path: Seq<char>) -> Seq<char> {
    match file_name(path) {
        Some(n) => without_store_prefix(n),
        None => without_store_prefix(Seq::empty()),
    }
}

/// The files a person sent, read back out of their own prompt.
pub struct SentFiles;

impl SentFiles {
    /// Splits a prompt into what the person wrote and the files named in it.
    /// Only lines this machine wrote are lifted, and the upload directory is
    /// what settles it: a person typing "Attached:" about a file of their own
    /// keeps their words.
    pub fn split(text: &str, uploads: &str) -> (out: (String, Vec<String>))
        ensures
            out.0@ == split_sent(text@, uploads@).0,
            strs(out.1@) == split_sent(text@, uploads@).1,
    {
        let t = chars_of(text);
        let m: [char; 10] = ['A', 't', 't', 'a', 'c', 'h', 'e', 'd', ':', ' '];
        assert(m@ =~= marker());
        let ls = split_lines(&t);
        let ghost l = ls.deep_view();
        let mut spoken: Vec<Vec<char>> = Vec::new();
        let mut files: Vec<Vec<char>> = Vec::new();
        let mut i: usize = 0;
        assert(l.take(0) =~= Seq::<Seq<char>>::empty());
        while i < ls.len()
            invariant
                i <= ls.len(),
                l == ls.deep_view(),
                spoken.deep_view() == spoken_lines(l.take(i as int), uploads@),
                files.deep_view() == sent_files(l.take(i as int), uploads@),
            decreases ls.len() - i,
        {
            let line = &ls[i];
            proof {
                assert(l[i as int] =~= line@);
                assert(l.take(i + 1).drop_last() =~= l.take(i as int));
                assert(l.take(i + 1).last() == l[i as int]);
            }
            let ghost sb = spoken.deep_view();
            let ghost fb = files.deep_view();
            match Self::named(line, uploads) {
                Some(path) => {
                    let ghost pv = path@;
                    files.push(path);
                    proof {
                        assert(files[files.len() - 1].deep_view() =~= pv);
                        assert(files.deep_view() =~= fb.push(pv));
                    }
                },
                None => {
                    let copy = slice_of(line, 0, line.len());
                    spoken.push(copy);
                    proof {
                        assert(line@.subrange(0, line@.len() as int) =~= line@);
                        assert(spoken[spoken.len() - 1].deep_view() =~= line@);
                        assert(spoken.deep_view() =~= sb.push(line@));
                    }
                },
            }
            i += 1;
        }
        assert(l.take(ls.len() as int) =~= l);
        if !occurs(&m, &t) || files.len() == 0 {
            return (string_of(&t), Vec::new());
        }
        let newline: [char; 1] = ['\n'];
        assert(newline@ =~= seq!['\n']);
        let joined = join_parts(&spoken, &newline);
        let words = trimmed_end(&joined);
        (string_of(&words), to_strings_of(&files))
    }

    /// The path this line names, when the line is one this machine wrote.
    fn named(line: &[char], uploads: &str) -> (path: Option<Vec<char>>)
        ensures
            match path {
                Some(p) => named(line@, uploads@) == Some(p@),
                None => named(line@, uploads@) is None,
            },
    {
        let m: [char; 10] = ['A', 't', 't', 'a', 'c', 'h', 'e', 'd', ':', ' '];
        assert(m@ =~= marker());
        if !starts_with(line, &m) {
            return None;
        }
        let rest = slice_of(line, 10, line.len());
        assert(rest@ =~= line@.skip(10));
        let path = trimmed(&rest);
        if Self::inside(&path, &chars_of(uploads)) {
            Some(path)
        } else {
            None
        }
    }

    /// Whether a path sits inside this machine's upload directory. Compared
    /// as normalised text, because the stored spelling and the configured one
    /// differ in separators and case; the boundary must fall on a separator,
    /// so a sibling whose name merely starts the same is not inside.
    pub fn is_stored_in(path: &str, uploads: &str) -> (inside: bool)
        ensures
            inside == stored_in(path@, uploads@),
    {
        Self::inside(&chars_of(path), &chars_of(uploads))
    }

    fn inside(path: &[char], uploads: &[char]) -> (inside: bool)
        ensures
            inside == stored_in(path@, uploads@),
    {
        let store = Self::normalise(uploads);
        if store.len() == 0 {
            return false;
        }
        let p = Self::normalise(path);
        starts_with(&p, &store) && p.len() > store.len() && p[store.len()] == '/'
    }

    fn normalise(v: &[char]) -> (out: Vec<char>)
        ensures
            out@ == normalised(v@),
    {
        let mut hi: usize = v.len();
        assert(v@.take(hi as int) =~= v@);
        while hi > 0 && (v[hi - 1] == '/' || v[hi - 1] == '\\')
            invariant
                hi <= v.len(),
                trim_separators(v@) == trim_separators(v@.take(hi as int)),
            decreases hi,
        {
            assert(v@.take(hi as int).drop_last() =~= v@.take(hi - 1));
            hi -= 1;
        }
        let mut forward: Vec<char> = Vec::new();
        let mut i: usize = 0;
        while i < hi
            invariant
                i <= hi <= v.len(),
                forward@ == forward_slashes(v@.take(i as int)),
            decreases hi - i,
        {
            if v[i] == '\\' {
                forward.push('/');
            } else {
                forward.push(v[i]);
            }
            assert(forward@ =~= forward_slashes(v@.take(i + 1)));
            i += 1;
        }
        let lower = lowercased(string_of(&forward).as_str());
        chars_of(lower.as_str())
    }

    /// The name to show for a stored upload: `78d52cec5b5b-report.txt` shows
    /// as `report.txt`, and a name not in the store's exact shape is kept.
    pub fn readable_name(path: &str) -> (name: String)
        ensures
            name@ == readable(path@),
    {
        let stored = match file_name_of(&chars_of(path)) {
            Some(n) => n,
            None => Vec::new(),
        };
        let ghost s = match file_name(path@) {
            Some(n) => n,
            None => Seq::<char>::empty(),
        };
        assert(stored@ == s);
        let mut dash: usize = 0;
        while dash < stored.len() && stored[dash] != '-'
            invariant
                dash <= stored.len(),
                forall|j: int| 0 <= j < dash ==> stored@[j] != '-',
            decreases stored.len() - dash,
        {
            dash += 1;
        }
        proof {
            crate::text::lemma_index_of_is(stored@, '-', dash as int);
        }
        if dash >= stored.len() {
            return string_of(&stored);
        }
        let rest = slice_of(&stored, dash + 1, stored.len());
        let mut hex = dash == 12 && rest.len() > 0;
        let mut k: usize = 0;
        while k < dash
            invariant
                k <= dash < stored.len(),
                hex ==> forall|j: int| 0 <= j < k ==> is_ascii_hex(stored@[j]),
                hex == (dash == 12 && rest@.len() > 0 && forall|j: int| 0 <= j < k ==> is_ascii_hex(
                    stored@[j],
                )),
            decreases dash - k,
        {
            let u = stored[k] as u32;
            if !((0x30 <= u && u <= 0x39) || (0x61 <= u && u <= 0x66) || (0x41 <= u && u <= 0x46)) {
                hex = false;
            }
            k += 1;
        }
        proof {
            let prefix = stored@.take(dash as int);
            assert(rest@ =~= stored@.skip(dash + 1));
            if hex {
                assert forall|i: int| 0 <= i < prefix.len() implies is_ascii_hex(#[trigger] prefix[i]) by {
                    assert(prefix[i] == stored@[i]);
                }
                assert(all_hex(prefix));
            } else if dash == 12 && rest@.len() > 0 {
                assert(!(forall|j: int| 0 <= j < dash ==> is_ascii_hex(stored@[j])));
                let j = choose|j: int| 0 <= j < dash && !is_ascii_hex(stored@[j]);
                assert(prefix[j] == stored@[j]);
                assert(!all_hex(prefix));
            }
            assert(readable(path@) == without_store_prefix(s));
        }
        if hex {
            assert(readable(path@) == rest@);
            string_of(&rest)
        } else {
            string_of(&stored)
        }
    }
}

/// Each character run as a string.
fn to_strings_of(v: &Vec<Vec<char>>) -> (out: Vec<String>)
    ensures
        strs(out@) == v.deep_view(),
{
    crate::text::to_strings(v)
}

} // verus!
