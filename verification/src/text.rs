//! Text as sequences of characters: lines, joins, trims and prefixes, stated
//! as spec functions and computed over `Vec<char>`.
use vstd::prelude::*;
use vstd::utf8::encode_utf8;
use crate::bytes::bytes_of;

verus! {

/// Where the first line feed sits, or the length when there is none.
pub open spec fn newline_at(s: Seq<char>) -> int
    decreases s.len(),
{
    if s.len() == 0 {
        0
    } else if s[0] == '\n' {
        0
    } else {
        1 + newline_at(s.drop_first())
    }
}

pub proof fn lemma_newline_at_bounds(s: Seq<char>)
    ensures
        0 <= newline_at(s) <= s.len(),
        newline_at(s) < s.len() ==> s[newline_at(s)] == '\n',
        forall|j: int| 0 <= j < newline_at(s) ==> s[j] != '\n',
    decreases s.len(),
{
    if s.len() > 0 && s[0] != '\n' {
        lemma_newline_at_bounds(s.drop_first());
        assert forall|j: int| 0 <= j < newline_at(s) implies s[j] != '\n' by {
            if j > 0 {
                assert(s[j] == s.drop_first()[j - 1]);
            }
        }
    }
}

/// `newline_at` is the first line feed: nothing before `k` is one, and `k`
/// is one or is the end.
pub proof fn lemma_newline_at_is(s: Seq<char>, k: int)
    requires
        0 <= k <= s.len(),
        forall|j: int| 0 <= j < k ==> s[j] != '\n',
        k == s.len() || s[k] == '\n',
    ensures
        newline_at(s) == k,
    decreases k,
{
    if k > 0 {
        assert forall|j: int| 0 <= j < k - 1 implies s.drop_first()[j] != '\n' by {
            assert(s.drop_first()[j] == s[j + 1]);
        }
        if k < s.len() {
            assert(s.drop_first()[k - 1] == s[k]);
        }
        lemma_newline_at_is(s.drop_first(), k - 1);
    }
}

/// A line with the carriage return of a `\r\n` ending removed.
pub open spec fn strip_cr(line: Seq<char>) -> Seq<char> {
    if line.len() > 0 && line.last() == '\r' {
        line.drop_last()
    } else {
        line
    }
}

/// The lines of a text as `str::lines` yields them: split at each `\n`, a
/// `\r` directly before a `\n` dropped with it, and no empty line after a
/// final `\n`. An empty text has no lines.
pub open spec fn lines(s: Seq<char>) -> Seq<Seq<char>>
    decreases s.len(),
{
    if s.len() == 0 {
        Seq::empty()
    } else {
        let k = newline_at(s);
        if k >= s.len() {
            seq![s]
        } else {
            proof {
                lemma_newline_at_bounds(s);
            }
            seq![strip_cr(s.take(k))] + lines(s.skip(k + 1))
        }
    }
}

/// The parts with `sep` between each two of them, as `[..].join(sep)`.
pub open spec fn join(parts: Seq<Seq<char>>, sep: Seq<char>) -> Seq<char>
    decreases parts.len(),
{
    if parts.len() == 0 {
        Seq::empty()
    } else if parts.len() == 1 {
        parts[0]
    } else {
        join(parts.drop_last(), sep) + sep + parts.last()
    }
}

/// Unicode's `White_Space` property, which is what `char::is_whitespace` and
/// the `trim` family test.
pub open spec fn is_whitespace(c: char) -> bool {
    let u = c as u32;
    ||| u == 0x20
    ||| 0x09 <= u <= 0x0d
    ||| u == 0x85
    ||| u == 0xa0
    ||| u == 0x1680
    ||| 0x2000 <= u <= 0x200a
    ||| u == 0x2028
    ||| u == 0x2029
    ||| u == 0x202f
    ||| u == 0x205f
    ||| u == 0x3000
}

/// How many whitespace characters a text starts with.
pub open spec fn leading_ws(s: Seq<char>) -> nat
    decreases s.len(),
{
    if s.len() == 0 || !is_whitespace(s[0]) {
        0
    } else {
        1 + leading_ws(s.drop_first())
    }
}

/// How many whitespace characters a text ends with.
pub open spec fn trailing_ws(s: Seq<char>) -> nat
    decreases s.len(),
{
    if s.len() == 0 || !is_whitespace(s.last()) {
        0
    } else {
        1 + trailing_ws(s.drop_last())
    }
}

pub open spec fn trim_start(s: Seq<char>) -> Seq<char> {
    s.skip(leading_ws(s) as int)
}

pub open spec fn trim_end(s: Seq<char>) -> Seq<char> {
    s.take(s.len() - trailing_ws(s))
}

/// `str::trim`: whitespace removed from both ends.
pub open spec fn trim(s: Seq<char>) -> Seq<char> {
    trim_end(trim_start(s))
}

/// Whether `s` begins with `p`.
pub open spec fn has_prefix(s: Seq<char>, p: Seq<char>) -> bool {
    p.len() <= s.len() && s.take(p.len() as int) == p
}

/// Whether `s` ends with `p`.
pub open spec fn has_suffix(s: Seq<char>, p: Seq<char>) -> bool {
    p.len() <= s.len() && s.skip(s.len() - p.len()) == p
}

/// Whether `p` occurs anywhere in `s`.
pub open spec fn occurs_in(p: Seq<char>, s: Seq<char>) -> bool {
    exists|i: int| 0 <= i && i + p.len() <= s.len() && #[trigger] s.subrange(i, i + p.len()) == p
}

pub proof fn lemma_leading_ws_bound(s: Seq<char>)
    ensures
        leading_ws(s) <= s.len(),
        forall|j: int| 0 <= j < leading_ws(s) ==> is_whitespace(#[trigger] s[j]),
        leading_ws(s) < s.len() ==> !is_whitespace(s[leading_ws(s) as int]),
    decreases s.len(),
{
    if s.len() > 0 && is_whitespace(s[0]) {
        lemma_leading_ws_bound(s.drop_first());
        assert forall|j: int| 0 <= j < leading_ws(s) implies is_whitespace(#[trigger] s[j]) by {
            if j > 0 {
                assert(s[j] == s.drop_first()[j - 1]);
            }
        }
        if leading_ws(s) < s.len() {
            assert(s[leading_ws(s) as int] == s.drop_first()[leading_ws(s) - 1]);
        }
    }
}

pub proof fn lemma_trailing_ws_bound(s: Seq<char>)
    ensures
        trailing_ws(s) <= s.len(),
        forall|j: int| s.len() - trailing_ws(s) <= j < s.len() ==> is_whitespace(#[trigger] s[j]),
        trailing_ws(s) < s.len() ==> !is_whitespace(s[s.len() - trailing_ws(s) - 1]),
    decreases s.len(),
{
    if s.len() > 0 && is_whitespace(s.last()) {
        lemma_trailing_ws_bound(s.drop_last());
        assert forall|j: int| s.len() - trailing_ws(s) <= j < s.len() implies is_whitespace(
            #[trigger] s[j],
        ) by {
            if j < s.len() - 1 {
                assert(s[j] == s.drop_last()[j]);
            }
        }
        if trailing_ws(s) < s.len() {
            assert(s[s.len() - trailing_ws(s) - 1] == s.drop_last()[s.len() - trailing_ws(s) - 1]);
        }
    }
}

/// `leading_ws` is the length of the whitespace run that starts a text.
pub proof fn lemma_leading_ws_is(s: Seq<char>, k: int)
    requires
        0 <= k <= s.len(),
        forall|j: int| 0 <= j < k ==> is_whitespace(#[trigger] s[j]),
        k == s.len() || !is_whitespace(s[k]),
    ensures
        leading_ws(s) == k,
    decreases k,
{
    if k > 0 {
        assert forall|j: int| 0 <= j < k - 1 implies is_whitespace(#[trigger] s.drop_first()[j]) by {
            assert(s.drop_first()[j] == s[j + 1]);
        }
        if k < s.len() {
            assert(s.drop_first()[k - 1] == s[k]);
        }
        lemma_leading_ws_is(s.drop_first(), k - 1);
    }
}

/// `trailing_ws` is the length of the whitespace run that ends a text.
pub proof fn lemma_trailing_ws_is(s: Seq<char>, k: int)
    requires
        0 <= k <= s.len(),
        forall|j: int| s.len() - k <= j < s.len() ==> is_whitespace(#[trigger] s[j]),
        k == s.len() || !is_whitespace(s[s.len() - k - 1]),
    ensures
        trailing_ws(s) == k,
    decreases k,
{
    if k > 0 {
        assert forall|j: int| s.drop_last().len() - (k - 1) <= j < s.drop_last().len() implies is_whitespace(
            #[trigger] s.drop_last()[j],
        ) by {
            assert(s.drop_last()[j] == s[j]);
        }
        if k < s.len() {
            assert(s.drop_last()[s.drop_last().len() - (k - 1) - 1] == s[s.len() - k - 1]);
        }
        lemma_trailing_ws_is(s.drop_last(), k - 1);
    }
}

/// `String::push`: appends one character to the string.
#[verifier::external_body]
fn push_char(s: &mut String, c: char)
    ensures
        final(s)@ == old(s)@.push(c),
{
    s.push(c);
}

/// The characters of a string, in order.
pub fn chars_of(s: &str) -> (v: Vec<char>)
    ensures
        v@ == s@,
{
    let mut v: Vec<char> = Vec::new();
    for c in it: s.chars()
        invariant
            v@ == it.seq().take(it.index() as int),
    {
        v.push(c);
    }
    v
}

/// A string holding exactly these characters.
pub fn string_of(v: &[char]) -> (s: String)
    ensures
        s@ == v@,
{
    let mut s = String::new();
    let mut i: usize = 0;
    while i < v.len()
        invariant
            i <= v.len(),
            s@ == v@.take(i as int),
        decreases v.len() - i,
    {
        push_char(&mut s, v[i]);
        assert(v@.take(i + 1) == v@.take(i as int).push(v@[i as int]));
        i += 1;
    }
    assert(v@.take(v.len() as int) == v@);
    s
}

/// The UTF-8 bytes of these characters, as `String::into_bytes` gives them.
pub fn utf8_of(v: &[char]) -> (out: Vec<u8>)
    ensures
        out@ == encode_utf8(v@),
{
    let s = string_of(v);
    bytes_of(s.as_str().as_bytes())
}

/// `char::is_whitespace`.
pub fn is_ws(c: char) -> (b: bool)
    ensures
        b == is_whitespace(c),
{
    let u = c as u32;
    u == 0x20 || (0x09 <= u && u <= 0x0d) || u == 0x85 || u == 0xa0 || u == 0x1680 || (0x2000
        <= u && u <= 0x200a) || u == 0x2028 || u == 0x2029 || u == 0x202f || u == 0x205f || u
        == 0x3000
}

/// The characters `lo..hi` as a new vector.
pub fn slice_of(v: &[char], lo: usize, hi: usize) -> (out: Vec<char>)
    requires
        lo <= hi <= v.len(),
    ensures
        out@ == v@.subrange(lo as int, hi as int),
{
    let mut out: Vec<char> = Vec::new();
    let mut i = lo;
    while i < hi
        invariant
            lo <= i <= hi <= v.len(),
            out@ == v@.subrange(lo as int, i as int),
        decreases hi - i,
    {
        out.push(v[i]);
        assert(v@.subrange(lo as int, i + 1) == v@.subrange(lo as int, i as int).push(v@[i as int]));
        i += 1;
    }
    out
}

/// Where the leading whitespace ends.
pub fn trim_start_at(v: &[char]) -> (k: usize)
    ensures
        k == leading_ws(v@),
{
    let mut k: usize = 0;
    while k < v.len() && is_ws(v[k])
        invariant
            k <= v.len(),
            forall|j: int| 0 <= j < k ==> is_whitespace(#[trigger] v@[j]),
        decreases v.len() - k,
    {
        k += 1;
    }
    proof {
        lemma_leading_ws_is(v@, k as int);
    }
    k
}

/// Where the trailing whitespace begins.
pub fn trim_end_at(v: &[char]) -> (k: usize)
    ensures
        k == v@.len() - trailing_ws(v@),
{
    let mut k: usize = v.len();
    while k > 0 && is_ws(v[k - 1])
        invariant
            k <= v.len(),
            forall|j: int| k <= j < v.len() ==> is_whitespace(#[trigger] v@[j]),
        decreases k,
    {
        k -= 1;
    }
    proof {
        lemma_trailing_ws_is(v@, v.len() - k);
    }
    k
}

/// `str::trim`.
pub fn trimmed(v: &[char]) -> (out: Vec<char>)
    ensures
        out@ == trim(v@),
{
    let lo = trim_start_at(v);
    proof {
        lemma_leading_ws_bound(v@);
    }
    let rest = slice_of(v, lo, v.len());
    let hi = trim_end_at(&rest);
    proof {
        lemma_trailing_ws_bound(rest@);
    }
    slice_of(&rest, 0, hi)
}

/// `str::trim_end`.
pub fn trimmed_end(v: &[char]) -> (out: Vec<char>)
    ensures
        out@ == trim_end(v@),
{
    let hi = trim_end_at(v);
    proof {
        lemma_trailing_ws_bound(v@);
    }
    slice_of(v, 0, hi)
}

/// `str::trim_start`.
pub fn trimmed_start(v: &[char]) -> (out: Vec<char>)
    ensures
        out@ == trim_start(v@),
{
    let lo = trim_start_at(v);
    proof {
        lemma_leading_ws_bound(v@);
    }
    slice_of(v, lo, v.len())
}

/// Whether two character runs are equal.
pub fn same_chars(a: &[char], b: &[char]) -> (same: bool)
    ensures
        same == (a@ == b@),
{
    if a.len() != b.len() {
        return false;
    }
    let mut i: usize = 0;
    while i < a.len()
        invariant
            a.len() == b.len(),
            i <= a.len(),
            a@.take(i as int) == b@.take(i as int),
        decreases a.len() - i,
    {
        if a[i] != b[i] {
            assert(a@[i as int] != b@[i as int]);
            return false;
        }
        assert(a@.take(i + 1) == a@.take(i as int).push(a@[i as int]));
        assert(b@.take(i + 1) == b@.take(i as int).push(b@[i as int]));
        i += 1;
    }
    assert(a@.take(a.len() as int) == a@);
    assert(b@.take(b.len() as int) == b@);
    true
}

/// Whether `v` begins with `p`.
pub fn starts_with(v: &[char], p: &[char]) -> (b: bool)
    ensures
        b == has_prefix(v@, p@),
{
    if p.len() > v.len() {
        return false;
    }
    let head = slice_of(v, 0, p.len());
    same_chars(&head, p)
}

/// Whether `v` ends with `p`.
pub fn ends_with(v: &[char], p: &[char]) -> (b: bool)
    ensures
        b == has_suffix(v@, p@),
{
    if p.len() > v.len() {
        return false;
    }
    let tail = slice_of(v, v.len() - p.len(), v.len());
    same_chars(&tail, p)
}

/// Whether `c` occurs in `v`.
pub fn has_char(v: &[char], c: char) -> (b: bool)
    ensures
        b == v@.contains(c),
{
    let mut i: usize = 0;
    while i < v.len()
        invariant
            i <= v.len(),
            forall|j: int| 0 <= j < i ==> v@[j] != c,
        decreases v.len() - i,
    {
        if v[i] == c {
            assert(v@[i as int] == c);
            return true;
        }
        i += 1;
    }
    false
}

/// Whether `p` occurs anywhere in `v`.
pub fn occurs(p: &[char], v: &[char]) -> (b: bool)
    ensures
        b == occurs_in(p@, v@),
{
    if p.len() > v.len() {
        return false;
    }
    let last = v.len() - p.len();
    let mut i: usize = 0;
    loop
        invariant
            p.len() <= v.len(),
            last == v.len() - p.len(),
            i <= last,
            forall|j: int| 0 <= j < i ==> #[trigger] v@.subrange(j, j + p@.len()) != p@,
        decreases last - i,
    {
        let window = slice_of(v, i, i + p.len());
        if same_chars(&window, p) {
            return true;
        }
        if i == last {
            proof {
                assert forall|j: int| 0 <= j && j + p@.len() <= v@.len() implies #[trigger] v@.subrange(
                    j,
                    j + p@.len(),
                ) != p@ by {
                    if j == i {
                        assert(window@ == v@.subrange(j, j + p@.len()));
                    }
                }
            }
            return false;
        }
        i += 1;
    }
}

/// The lines of `v`, as `str::lines` yields them.
pub fn split_lines(v: &[char]) -> (out: Vec<Vec<char>>)
    ensures
        out.deep_view() == lines(v@),
{
    let mut out: Vec<Vec<char>> = Vec::new();
    let mut start: usize = 0;
    let mut i: usize = 0;
    assert(v@.skip(0) == v@);
    assert(out.deep_view() + lines(v@) =~= lines(v@));
    while i < v.len()
        invariant
            start <= i <= v.len(),
            forall|j: int| start <= j < i ==> v@[j] != '\n',
            lines(v@) == out.deep_view() + lines(v@.skip(start as int)),
        decreases v.len() - i,
    {
        if v[i] == '\n' {
            let ghost rest = v@.skip(start as int);
            proof {
                assert forall|j: int| 0 <= j < i - start implies rest[j] != '\n' by {
                    assert(rest[j] == v@[start + j]);
                }
                assert(rest[i - start] == v@[i as int]);
                lemma_newline_at_is(rest, i - start);
                assert(rest.take(i - start) == v@.subrange(start as int, i as int));
                assert(rest.skip(i - start + 1) == v@.skip(i + 1));
            }
            let mut line = slice_of(v, start, i);
            if line.len() > 0 && line[line.len() - 1] == '\r' {
                line.pop();
            }
            assert(line@ == strip_cr(v@.subrange(start as int, i as int)));
            let ghost before = out.deep_view();
            let ghost pushed = line@;
            out.push(line);
            proof {
                assert(out[out.len() - 1].deep_view() =~= pushed);
                assert(out.deep_view() =~= before.push(pushed));
                assert(lines(v@) == out.deep_view() + lines(v@.skip(i + 1)));
            }
            start = i + 1;
        }
        i += 1;
    }
    if start < v.len() {
        let ghost rest = v@.skip(start as int);
        proof {
            assert forall|j: int| 0 <= j < rest.len() implies rest[j] != '\n' by {
                assert(rest[j] == v@[start + j]);
            }
            lemma_newline_at_is(rest, rest.len() as int);
        }
        let line = slice_of(v, start, v.len());
        let ghost before = out.deep_view();
        out.push(line);
        proof {
            assert(out[out.len() - 1].deep_view() =~= rest);
            assert(out.deep_view() =~= before.push(rest));
        }
    } else {
        assert(v@.skip(start as int) =~= Seq::<char>::empty());
        assert(out.deep_view() + Seq::<Seq<char>>::empty() == out.deep_view());
    }
    out
}

/// The parts with `sep` between each two of them.
pub fn join_parts(parts: &Vec<Vec<char>>, sep: &[char]) -> (out: Vec<char>)
    ensures
        out@ == join(parts.deep_view(), sep@),
{
    let mut out: Vec<char> = Vec::new();
    let mut i: usize = 0;
    while i < parts.len()
        invariant
            i <= parts.len(),
            out@ == join(parts.deep_view().take(i as int), sep@),
        decreases parts.len() - i,
    {
        let ghost taken = parts.deep_view().take(i + 1);
        proof {
            assert(taken.drop_last() == parts.deep_view().take(i as int));
            assert(taken.last() == parts[i as int]@);
        }
        if i > 0 {
            let mut k: usize = 0;
            let ghost base = out@;
            while k < sep.len()
                invariant
                    k <= sep.len(),
                    out@ == base + sep@.take(k as int),
                decreases sep.len() - k,
            {
                out.push(sep[k]);
                assert(sep@.take(k + 1) == sep@.take(k as int).push(sep@[k as int]));
                k += 1;
            }
            assert(sep@.take(sep.len() as int) == sep@);
        }
        let ghost base2 = out@;
        let mut k: usize = 0;
        while k < parts[i].len()
            invariant
                i < parts.len(),
                k <= parts[i as int].len(),
                out@ == base2 + parts[i as int]@.take(k as int),
            decreases parts[i as int].len() - k,
        {
            out.push(parts[i][k]);
            assert(parts[i as int]@.take(k + 1) == parts[i as int]@.take(k as int).push(
                parts[i as int]@[k as int],
            ));
            k += 1;
        }
        assert(parts[i as int]@.take(parts[i as int].len() as int) == parts[i as int]@);
        if i == 0 {
            assert(base2 == Seq::<char>::empty());
            assert(out@ == parts[0]@);
        }
        i += 1;
    }
    assert(parts.deep_view().take(parts.len() as int) == parts.deep_view());
    out
}

/// The text of each string.
pub open spec fn strs(v: Seq<String>) -> Seq<Seq<char>> {
    Seq::new(v.len(), |i: int| v[i]@)
}

/// Each character run as a string.
pub fn to_strings(v: &Vec<Vec<char>>) -> (out: Vec<String>)
    ensures
        strs(out@) == v.deep_view(),
{
    let mut out: Vec<String> = Vec::new();
    let mut i: usize = 0;
    while i < v.len()
        invariant
            i <= v.len(),
            strs(out@) == v.deep_view().take(i as int),
        decreases v.len() - i,
    {
        let s = string_of(&v[i]);
        let ghost before = out@;
        out.push(s);
        proof {
            assert(v.deep_view()[i as int] =~= v[i as int]@);
            assert(strs(out@) =~= strs(before).push(v[i as int]@));
            assert(v.deep_view().take(i + 1) =~= v.deep_view().take(i as int).push(
                v.deep_view()[i as int],
            ));
        }
        i += 1;
    }
    assert(v.deep_view().take(v.len() as int) =~= v.deep_view());
    out
}

/// A copy of a run of character runs.
pub fn copy_runs(v: &Vec<Vec<char>>, lo: usize, hi: usize) -> (out: Vec<Vec<char>>)
    requires
        lo <= hi <= v.len(),
    ensures
        out.deep_view() == v.deep_view().subrange(lo as int, hi as int),
{
    let mut out: Vec<Vec<char>> = Vec::new();
    let mut i = lo;
    while i < hi
        invariant
            lo <= i <= hi <= v.len(),
            out.deep_view() == v.deep_view().subrange(lo as int, i as int),
        decreases hi - i,
    {
        let line = slice_of(&v[i], 0, v[i].len());
        let ghost before = out.deep_view();
        out.push(line);
        proof {
            assert(v[i as int]@.subrange(0, v[i as int].len() as int) =~= v[i as int]@);
            assert(out[out.len() - 1].deep_view() =~= v[i as int]@);
            assert(v.deep_view()[i as int] =~= v[i as int]@);
            assert(out.deep_view() =~= before.push(v.deep_view()[i as int]));
            assert(v.deep_view().subrange(lo as int, i + 1) =~= v.deep_view().subrange(
                lo as int,
                i as int,
            ).push(v.deep_view()[i as int]));
        }
        i += 1;
    }
    out
}

/// Where `c` first occurs, or the length when it does not.
pub open spec fn index_of(s: Seq<char>, c: char) -> int
    decreases s.len(),
{
    if s.len() == 0 {
        0
    } else if s[0] == c {
        0
    } else {
        1 + index_of(s.drop_first(), c)
    }
}

pub proof fn lemma_index_of_bounds(s: Seq<char>, c: char)
    ensures
        0 <= index_of(s, c) <= s.len(),
        index_of(s, c) < s.len() ==> s[index_of(s, c)] == c,
        forall|j: int| 0 <= j < index_of(s, c) ==> s[j] != c,
    decreases s.len(),
{
    if s.len() > 0 && s[0] != c {
        lemma_index_of_bounds(s.drop_first(), c);
        assert forall|j: int| 0 <= j < index_of(s, c) implies s[j] != c by {
            if j > 0 {
                assert(s[j] == s.drop_first()[j - 1]);
            }
        }
    }
}

pub proof fn lemma_index_of_is(s: Seq<char>, c: char, k: int)
    requires
        0 <= k <= s.len(),
        forall|j: int| 0 <= j < k ==> s[j] != c,
        k == s.len() || s[k] == c,
    ensures
        index_of(s, c) == k,
    decreases k,
{
    if k > 0 {
        assert forall|j: int| 0 <= j < k - 1 implies s.drop_first()[j] != c by {
            assert(s.drop_first()[j] == s[j + 1]);
        }
        if k < s.len() {
            assert(s.drop_first()[k - 1] == s[k]);
        }
        lemma_index_of_is(s.drop_first(), c, k - 1);
    }
}

/// The pieces between each occurrence of `c`, as `str::split(c)` yields them.
pub open spec fn split_on(s: Seq<char>, c: char) -> Seq<Seq<char>>
    decreases s.len(),
{
    let k = index_of(s, c);
    if k >= s.len() {
        seq![s]
    } else {
        proof {
            lemma_index_of_bounds(s, c);
        }
        seq![s.take(k)] + split_on(s.skip(k + 1), c)
    }
}

/// Where `c` last occurs, or `-1` when it does not.
pub open spec fn last_index_of(s: Seq<char>, c: char) -> int
    decreases s.len(),
{
    if s.len() == 0 {
        -1
    } else if s.last() == c {
        s.len() - 1
    } else {
        last_index_of(s.drop_last(), c)
    }
}

/// The pieces of `v` between each occurrence of `c`.
pub fn split_char(v: &[char], c: char) -> (out: Vec<Vec<char>>)
    ensures
        out.deep_view() == split_on(v@, c),
{
    let mut out: Vec<Vec<char>> = Vec::new();
    let mut start: usize = 0;
    let mut i: usize = 0;
    assert(v@.skip(0) == v@);
    assert(out.deep_view() + split_on(v@, c) =~= split_on(v@, c));
    while i < v.len()
        invariant
            start <= i <= v.len(),
            forall|j: int| start <= j < i ==> v@[j] != c,
            split_on(v@, c) == out.deep_view() + split_on(v@.skip(start as int), c),
        decreases v.len() - i,
    {
        if v[i] == c {
            let ghost rest = v@.skip(start as int);
            proof {
                assert forall|j: int| 0 <= j < i - start implies rest[j] != c by {
                    assert(rest[j] == v@[start + j]);
                }
                assert(rest[i - start] == v@[i as int]);
                lemma_index_of_is(rest, c, i - start);
                assert(rest.take(i - start) == v@.subrange(start as int, i as int));
                assert(rest.skip(i - start + 1) == v@.skip(i + 1));
            }
            let piece = slice_of(v, start, i);
            let ghost before = out.deep_view();
            let ghost pushed = piece@;
            out.push(piece);
            proof {
                assert(out[out.len() - 1].deep_view() =~= pushed);
                assert(out.deep_view() =~= before.push(pushed));
            }
            start = i + 1;
        }
        i += 1;
    }
    let ghost rest = v@.skip(start as int);
    proof {
        assert forall|j: int| 0 <= j < rest.len() implies rest[j] != c by {
            assert(rest[j] == v@[start + j]);
        }
        lemma_index_of_is(rest, c, rest.len() as int);
    }
    let piece = slice_of(v, start, v.len());
    let ghost before = out.deep_view();
    out.push(piece);
    proof {
        assert(out[out.len() - 1].deep_view() =~= rest);
        assert(out.deep_view() =~= before.push(rest));
    }
    out
}

/// Where `c` last occurs in `v`, if it does.
pub fn find_last(v: &[char], c: char) -> (at: Option<usize>)
    ensures
        match at {
            Some(i) => i == last_index_of(v@, c) && i < v.len(),
            None => last_index_of(v@, c) == -1,
        },
{
    let mut k: usize = v.len();
    assert(v@.take(k as int) =~= v@);
    while k > 0
        invariant
            k <= v.len(),
            last_index_of(v@, c) == last_index_of(v@.take(k as int), c),
        decreases k,
    {
        assert(v@.take(k as int).last() == v@[k - 1]);
        assert(v@.take(k as int).drop_last() =~= v@.take(k - 1));
        if v[k - 1] == c {
            return Some(k - 1);
        }
        k -= 1;
    }
    None
}

/// `str::to_lowercase`: the text with each character replaced by its
/// lowercase mapping, which may be longer than one character.
pub uninterp spec fn lowercase(text: Seq<char>) -> Seq<char>;

/// Calls `str::to_lowercase`. The result is named, not stated: the Unicode
/// case tables are what decide it.
#[verifier::external_body]
pub(crate) fn lowercased(s: &str) -> (out: String)
    ensures
        out@ == lowercase(s@),
{
    s.to_lowercase()
}

/// UTF-8 encoding distributes over concatenation.
pub proof fn lemma_encode_utf8_concat(a: Seq<char>, b: Seq<char>)
    ensures
        encode_utf8(a + b) == encode_utf8(a) + encode_utf8(b),
    decreases a.len(),
{
    if a.len() == 0 {
        assert(a + b =~= b);
        assert(encode_utf8(a) =~= Seq::<u8>::empty());
        assert(Seq::<u8>::empty() + encode_utf8(b) =~= encode_utf8(b));
    } else {
        assert((a + b).drop_first() =~= a.drop_first() + b);
        assert((a + b)[0] == a[0]);
        lemma_encode_utf8_concat(a.drop_first(), b);
        assert(encode_utf8(a + b) =~= encode_utf8(a) + encode_utf8(b));
    }
}

/// The first non-blank line of a text, trimmed, or nothing.
pub open spec fn first_words(ls: Seq<Seq<char>>) -> Seq<char>
    decreases ls.len(),
{
    if ls.len() == 0 {
        Seq::empty()
    } else if trim(ls[0]).len() > 0 {
        trim(ls[0])
    } else {
        first_words(ls.drop_first())
    }
}

/// The first line of `v` with anything but whitespace in it, trimmed; empty
/// when there is none.
pub fn first_line_of(v: &[char]) -> (out: Vec<char>)
    ensures
        out@ == first_words(lines(v@)),
{
    let ls = split_lines(v);
    let ghost l = ls.deep_view();
    let mut i: usize = 0;
    assert(l.skip(0) =~= l);
    while i < ls.len()
        invariant
            i <= ls.len(),
            l == ls.deep_view(),
            l == lines(v@),
            first_words(l) == first_words(l.skip(i as int)),
        decreases ls.len() - i,
    {
        let t = trimmed(&ls[i]);
        proof {
            assert(l[i as int] =~= ls[i as int]@);
            assert(l.skip(i as int)[0] == l[i as int]);
            assert(l.skip(i as int).drop_first() =~= l.skip(i + 1));
        }
        if t.len() > 0 {
            assert(first_words(l.skip(i as int)) == trim(l[i as int]));
            return t;
        }
        i += 1;
    }
    assert(l.skip(i as int) =~= Seq::<Seq<char>>::empty());
    Vec::new()
}

/// The ASCII digit for `d`, below ten.
pub open spec fn digit_char(d: nat) -> char {
    ((48 + d) as u8) as char
}

/// The ASCII digits of `n`, as `Display` writes a number.
pub open spec fn decimal_text(n: nat) -> Seq<char>
    decreases n,
{
    if n < 10 {
        seq![digit_char(n)]
    } else {
        decimal_text(n / 10) + seq![digit_char(n % 10)]
    }
}

/// Appends the ASCII digits of `n`.
pub fn push_decimal(out: &mut Vec<char>, n: u64)
    ensures
        final(out)@ == old(out)@ + decimal_text(n as nat),
    decreases n,
{
    if n >= 10 {
        push_decimal(out, n / 10);
    }
    let d: u8 = (n % 10) as u8;
    out.push((48u8 + d) as char);
}

} // verus!
