//! What one session says about itself without reading all of it: assembled
//! from the records at the head of its file and those at its tail.
use vstd::prelude::*;
use crate::paths::{file_name, file_name_of};
use crate::text::{find_last, last_index_of, slice_of, string_of};
use crate::transcript::question::text_of;
use crate::transcript::record::{rfc3339_millis, Record, Timestamp};

verus! {

/// What one session says about itself.
#[derive(Debug, Clone, PartialEq, Eq)]
pub struct SessionSummary {
    pub session_id: String,
    pub path: String,
    pub cwd: Option<String>,
    pub started_at: Option<Timestamp>,
    pub last_active: Option<Timestamp>,
    pub title: Option<String>,
    /// One line of the most recent meaningful text, filled in by whoever
    /// has the turns to judge what is meaningful.
    pub preview: Option<String>,
}

/// When a record was written, when it says and the stamp reads.
pub open spec fn stamp_of(r: Record) -> Option<Timestamp> {
    match r.timestamp {
        Some(raw) => match rfc3339_millis(raw@) {
            Some(ms) => Some(Timestamp(ms)),
            None => None,
        },
        None => None,
    }
}

/// The first directory a record names.
pub open spec fn first_cwd(rs: Seq<Record>) -> Option<Seq<char>>
    decreases rs.len(),
{
    if rs.len() == 0 {
        None
    } else {
        match rs[0].cwd {
            Some(c) => Some(c@),
            None => first_cwd(rs.drop_first()),
        }
    }
}

/// The first stamp a record carries.
pub open spec fn first_stamp(rs: Seq<Record>) -> Option<Timestamp>
    decreases rs.len(),
{
    if rs.len() == 0 {
        None
    } else {
        match stamp_of(rs[0]) {
            Some(t) => Some(t),
            None => first_stamp(rs.drop_first()),
        }
    }
}

/// The last stamp a record carries.
pub open spec fn last_stamp(rs: Seq<Record>) -> Option<Timestamp>
    decreases rs.len(),
{
    if rs.len() == 0 {
        None
    } else {
        match stamp_of(rs.last()) {
            Some(t) => Some(t),
            None => last_stamp(rs.drop_last()),
        }
    }
}

/// The newest title a person gave a session, by its own record kind.
pub open spec fn last_custom_title(rs: Seq<Record>) -> Option<Seq<char>>
    decreases rs.len(),
{
    if rs.len() == 0 {
        None
    } else {
        match rs.last().custom_title {
            Some(t) => Some(t@),
            None => last_custom_title(rs.drop_last()),
        }
    }
}

/// The newest title the harness wrote for a session.
pub open spec fn last_ai_title(rs: Seq<Record>) -> Option<Seq<char>>
    decreases rs.len(),
{
    if rs.len() == 0 {
        None
    } else {
        match rs.last().ai_title {
            Some(t) => Some(t@),
            None => last_ai_title(rs.drop_last()),
        }
    }
}

/// The first of two answers that there is.
pub open spec fn either<T>(a: Option<T>, b: Option<T>) -> Option<T> {
    match a {
        Some(x) => Some(x),
        None => b,
    }
}

/// A session's title: a name a person typed beats one the harness wrote,
/// however old it is; each is looked for in the tail first, then the head.
pub open spec fn title_of(head: Seq<Record>, tail: Seq<Record>) -> Option<Seq<char>> {
    either(
        either(last_custom_title(tail), last_custom_title(head)),
        either(last_ai_title(tail), last_ai_title(head)),
    )
}

/// The directory a summary names is the first one any record names, and
/// none when no record names one.
pub proof fn lemma_first_cwd_is_the_earliest(rs: Seq<Record>) -> (i: int)
    ensures
        first_cwd(rs) is None ==> forall|j: int| 0 <= j < rs.len() ==> (#[trigger] rs[j]).cwd is None,
        first_cwd(rs) is Some ==> 0 <= i < rs.len() && rs[i].cwd is Some && first_cwd(rs) == Some(rs[i].cwd->0@)
            && forall|j: int| 0 <= j < i ==> (#[trigger] rs[j]).cwd is None,
    decreases rs.len(),
{
    if rs.len() == 0 {
        0
    } else if rs[0].cwd is Some {
        0
    } else {
        let k = lemma_first_cwd_is_the_earliest(rs.drop_first());
        assert forall|j: int| 1 <= j < rs.len() implies rs[j] == rs.drop_first()[j - 1] by {}
        assert(forall|j: int| 0 <= j < rs.len() && (#[trigger] rs[j]).cwd is Some ==> j > 0);
        if first_cwd(rs) is None {
            assert forall|j: int| 0 <= j < rs.len() implies (#[trigger] rs[j]).cwd is None by {
                if j > 0 {
                    assert(rs[j] == rs.drop_first()[j - 1]);
                }
            }
        }
        k + 1
    }
}

/// The start a summary gives is the first readable stamp any record
/// carries, and none when no record carries one.
pub proof fn lemma_first_stamp_is_the_earliest(rs: Seq<Record>) -> (i: int)
    ensures
        first_stamp(rs) is None ==> forall|j: int| 0 <= j < rs.len() ==> stamp_of(#[trigger] rs[j]) is None,
        first_stamp(rs) is Some ==> 0 <= i < rs.len() && first_stamp(rs) == stamp_of(rs[i])
            && forall|j: int| 0 <= j < i ==> stamp_of(#[trigger] rs[j]) is None,
    decreases rs.len(),
{
    if rs.len() == 0 {
        0
    } else if stamp_of(rs[0]) is Some {
        0
    } else {
        let k = lemma_first_stamp_is_the_earliest(rs.drop_first());
        assert forall|j: int| 1 <= j < rs.len() implies rs[j] == rs.drop_first()[j - 1] by {}
        if first_stamp(rs) is None {
            assert forall|j: int| 0 <= j < rs.len() implies stamp_of(#[trigger] rs[j]) is None by {
                if j > 0 {
                    assert(rs[j] == rs.drop_first()[j - 1]);
                }
            }
        }
        k + 1
    }
}

/// The last activity a summary gives is the newest readable stamp any
/// record carries, and none when no record carries one.
pub proof fn lemma_last_stamp_is_the_newest(rs: Seq<Record>) -> (i: int)
    ensures
        last_stamp(rs) is None ==> forall|j: int| 0 <= j < rs.len() ==> stamp_of(#[trigger] rs[j]) is None,
        last_stamp(rs) is Some ==> 0 <= i < rs.len() && last_stamp(rs) == stamp_of(rs[i])
            && forall|j: int| i < j < rs.len() ==> stamp_of(#[trigger] rs[j]) is None,
    decreases rs.len(),
{
    if rs.len() == 0 {
        0
    } else if stamp_of(rs.last()) is Some {
        rs.len() - 1
    } else {
        let k = lemma_last_stamp_is_the_newest(rs.drop_last());
        assert forall|j: int| 0 <= j < rs.len() - 1 implies rs[j] == rs.drop_last()[j] by {}
        k
    }
}

/// The title a person gave a session is the newest one any record carries,
/// and none when no record carries one.
pub proof fn lemma_custom_title_is_the_newest(rs: Seq<Record>) -> (i: int)
    ensures
        last_custom_title(rs) is None ==> forall|j: int| 0 <= j < rs.len() ==> (#[trigger] rs[j]).custom_title is None,
        last_custom_title(rs) is Some ==> 0 <= i < rs.len() && rs[i].custom_title is Some && last_custom_title(rs)
            == Some(rs[i].custom_title->0@) && forall|j: int| i < j < rs.len() ==> (#[trigger] rs[j]).custom_title is None,
    decreases rs.len(),
{
    if rs.len() == 0 {
        0
    } else if rs.last().custom_title is Some {
        rs.len() - 1
    } else {
        let k = lemma_custom_title_is_the_newest(rs.drop_last());
        assert forall|j: int| 0 <= j < rs.len() - 1 implies rs[j] == rs.drop_last()[j] by {}
        k
    }
}

/// A name a person gave a session beats any the harness wrote, however old
/// it is, and the tail is looked at before the head.
pub proof fn lemma_title_prefers_the_person(head: Seq<Record>, tail: Seq<Record>)
    ensures
        last_custom_title(tail) is Some ==> title_of(head, tail) == last_custom_title(tail),
        last_custom_title(tail) is None && last_custom_title(head) is Some ==> title_of(head, tail)
            == last_custom_title(head),
        last_custom_title(tail) is None && last_custom_title(head) is None ==> title_of(head, tail) == either(
            last_ai_title(tail),
            last_ai_title(head),
        ),
{
}

/// `Path::file_stem`: the file name without its extension.
pub open spec fn file_stem(p: Seq<char>) -> Option<Seq<char>> {
    match file_name(p) {
        Some(name) => {
            let dot = last_index_of(name, '.');
            if dot <= 0 {
                Some(name)
            } else {
                Some(name.take(dot))
            }
        },
        None => None,
    }
}

/// The summary's fields as values.
pub open spec fn summary_is(
    s: SessionSummary,
    session_id: Seq<char>,
    path: Seq<char>,
    head: Seq<Record>,
    tail: Seq<Record>,
) -> bool {
    &&& s.session_id@ == session_id
    &&& s.path@ == path
    &&& text_of(s.cwd) == either(first_cwd(head), first_cwd(tail))
    &&& s.started_at == first_stamp(head)
    &&& s.last_active == either(last_stamp(tail), last_stamp(head))
    &&& text_of(s.title) == title_of(head, tail)
    &&& s.preview is None
}

fn first_cwd_in(rs: &Vec<Record>) -> (c: Option<String>)
    ensures
        text_of(c) == first_cwd(rs@),
{
    let mut i: usize = 0;
    proof {
        assert(rs@.skip(0) =~= rs@);
    }
    while i < rs.len()
        invariant
            i <= rs@.len(),
            first_cwd(rs@.skip(i as int)) == first_cwd(rs@),
        decreases rs@.len() - i,
    {
        proof {
            assert(rs@.skip(i as int)[0] == rs@[i as int]);
            assert(rs@.skip(i as int).drop_first() =~= rs@.skip(i + 1));
        }
        match &rs[i].cwd {
            Some(c) => return Some(c.clone()),
            None => {},
        }
        i = i + 1;
    }
    proof {
        assert(rs@.skip(i as int) =~= Seq::<Record>::empty());
    }
    None
}

fn first_stamp_in(rs: &Vec<Record>) -> (t: Option<Timestamp>)
    ensures
        t == first_stamp(rs@),
{
    let mut i: usize = 0;
    proof {
        assert(rs@.skip(0) =~= rs@);
    }
    while i < rs.len()
        invariant
            i <= rs@.len(),
            first_stamp(rs@.skip(i as int)) == first_stamp(rs@),
        decreases rs@.len() - i,
    {
        proof {
            assert(rs@.skip(i as int)[0] == rs@[i as int]);
            assert(rs@.skip(i as int).drop_first() =~= rs@.skip(i + 1));
        }
        let at = rs[i].at();
        if at.is_some() {
            return at;
        }
        i = i + 1;
    }
    proof {
        assert(rs@.skip(i as int) =~= Seq::<Record>::empty());
    }
    None
}

fn last_stamp_in(rs: &Vec<Record>) -> (t: Option<Timestamp>)
    ensures
        t == last_stamp(rs@),
{
    let mut k: usize = rs.len();
    proof {
        assert(rs@.take(k as int) =~= rs@);
    }
    while k > 0
        invariant
            k <= rs@.len(),
            last_stamp(rs@.take(k as int)) == last_stamp(rs@),
        decreases k,
    {
        proof {
            assert(rs@.take(k as int).last() == rs@[k - 1]);
            assert(rs@.take(k as int).drop_last() =~= rs@.take(k - 1));
        }
        let at = rs[k - 1].at();
        if at.is_some() {
            return at;
        }
        k = k - 1;
    }
    None
}

fn last_custom_title_in(rs: &Vec<Record>) -> (t: Option<String>)
    ensures
        text_of(t) == last_custom_title(rs@),
{
    let mut k: usize = rs.len();
    proof {
        assert(rs@.take(k as int) =~= rs@);
    }
    while k > 0
        invariant
            k <= rs@.len(),
            last_custom_title(rs@.take(k as int)) == last_custom_title(rs@),
        decreases k,
    {
        proof {
            assert(rs@.take(k as int).last() == rs@[k - 1]);
            assert(rs@.take(k as int).drop_last() =~= rs@.take(k - 1));
        }
        match &rs[k - 1].custom_title {
            Some(t) => return Some(t.clone()),
            None => {},
        }
        k = k - 1;
    }
    None
}

fn last_ai_title_in(rs: &Vec<Record>) -> (t: Option<String>)
    ensures
        text_of(t) == last_ai_title(rs@),
{
    let mut k: usize = rs.len();
    proof {
        assert(rs@.take(k as int) =~= rs@);
    }
    while k > 0
        invariant
            k <= rs@.len(),
            last_ai_title(rs@.take(k as int)) == last_ai_title(rs@),
        decreases k,
    {
        proof {
            assert(rs@.take(k as int).last() == rs@[k - 1]);
            assert(rs@.take(k as int).drop_last() =~= rs@.take(k - 1));
        }
        match &rs[k - 1].ai_title {
            Some(t) => return Some(t.clone()),
            None => {},
        }
        k = k - 1;
    }
    None
}

/// How many sessions one listing carries at most.
pub const SCAN_LIMIT: usize = 200;

/// Where a session last written at `k` goes among sessions already in newest
/// first order: after every one written at `k` or later, looking from `i` on.
pub open spec fn first_older(s: Seq<(i64, String)>, k: i64, i: nat) -> nat
    decreases s.len() - i,
{
    if i >= s.len() {
        s.len()
    } else if s[i as int].0 < k {
        i
    } else {
        first_older(s, k, i + 1)
    }
}

/// Sessions newest first; sessions written at the same second keep the order
/// in which they were found.
pub open spec fn newest_order(s: Seq<(i64, String)>) -> Seq<(i64, String)>
    decreases s.len(),
{
    if s.len() == 0 {
        s
    } else {
        let sorted = newest_order(s.drop_last());
        sorted.insert(first_older(sorted, s.last().0, 0) as int, s.last())
    }
}

/// Ordered newest first: no session comes before one written later.
pub open spec fn newest_sorted(s: Seq<(i64, String)>) -> bool {
    forall|i: int, j: int| 0 <= i < j < s.len() ==> s[i].0 >= s[j].0
}

proof fn lemma_first_older(s: Seq<(i64, String)>, k: i64, i: nat)
    requires
        i <= s.len(),
    ensures
        i <= first_older(s, k, i) <= s.len(),
        forall|j: int| i <= j < first_older(s, k, i) ==> s[j].0 >= k,
        first_older(s, k, i) < s.len() ==> s[first_older(s, k, i) as int].0 < k,
    decreases s.len() - i,
{
    if i < s.len() && s[i as int].0 >= k {
        lemma_first_older(s, k, i + 1);
    }
}

/// The newest-first order holds every session found, newest first.
pub proof fn lemma_newest_order(s: Seq<(i64, String)>)
    ensures
        newest_order(s).len() == s.len(),
        newest_sorted(newest_order(s)),
        newest_order(s).to_multiset() == s.to_multiset(),
    decreases s.len(),
{
    broadcast use vstd::seq_lib::group_to_multiset_ensures;
    if s.len() > 0 {
        let sorted = newest_order(s.drop_last());
        lemma_newest_order(s.drop_last());
        let k = s.last().0;
        let p = first_older(sorted, k, 0);
        lemma_first_older(sorted, k, 0);
        let out = sorted.insert(p as int, s.last());
        assert(out == newest_order(s));
        assert forall|i: int, j: int| 0 <= i < j < out.len() implies out[i].0 >= out[j].0 by {
            if j < p {
            } else if j == p {
            } else if i < p {
                assert(out[j] == sorted[j - 1]);
                if p < sorted.len() {
                    assert(sorted[p as int].0 < k);
                }
            } else if i == p {
                assert(out[j] == sorted[j - 1]);
                assert(sorted[p as int].0 < k);
                assert(sorted[p as int].0 >= sorted[j - 1].0);
            } else {
                assert(out[i] == sorted[i - 1]);
                assert(out[j] == sorted[j - 1]);
            }
        }
        assert(s == s.drop_last().push(s.last()));
    }
}

/// Finds the sessions on this machine and what each says about itself.
pub struct SessionCatalog;

impl SessionCatalog {
    /// What a session's head and tail records say about it.
    ///
    /// The directory is read from the head, and from the tail when the head
    /// names none; the start from the head; the last activity from the tail,
    /// and from the head when a session is short enough that the two overlap
    /// or the tail carried no stamped record.
    pub fn summary_of(session_id: String, path: String, head: &Vec<Record>, tail: &Vec<Record>) -> (s: SessionSummary)
        ensures
            summary_is(s, session_id@, path@, head@, tail@),
    {
        let cwd = match first_cwd_in(head) {
            Some(c) => Some(c),
            None => first_cwd_in(tail),
        };
        let started_at = first_stamp_in(head);
        let last_active = match last_stamp_in(tail) {
            Some(t) => Some(t),
            None => last_stamp_in(head),
        };
        let custom = match last_custom_title_in(tail) {
            Some(t) => Some(t),
            None => last_custom_title_in(head),
        };
        let title = match custom {
            Some(t) => Some(t),
            None => match last_ai_title_in(tail) {
                Some(t) => Some(t),
                None => last_ai_title_in(head),
            },
        };
        SessionSummary { session_id, path, cwd, started_at, last_active, title, preview: None }
    }

    /// The files found, newest first by when each was last written, as many as
    /// one listing carries. Files written in the same second keep the order in
    /// which they were found.
    pub fn newest_first(found: &Vec<(i64, String)>) -> (paths: Vec<String>)
        ensures
            paths@.len() == if found.len() < SCAN_LIMIT { found.len() } else { SCAN_LIMIT },
            forall|i: int| 0 <= i < paths@.len() ==> paths@[i] == newest_order(found@)[i].1,
    {
        let mut sorted: Vec<(i64, String)> = Vec::new();
        let mut n: usize = 0;
        while n < found.len()
            invariant
                n <= found.len(),
                sorted@ == newest_order(found@.take(n as int)),
            decreases found.len() - n,
        {
            let key = found[n].0;
            let mut pos: usize = 0;
            proof {
                lemma_newest_order(found@.take(n as int));
            }
            while pos < sorted.len() && sorted[pos].0 >= key
                invariant
                    pos <= sorted.len(),
                    first_older(sorted@, key, pos as nat) == first_older(sorted@, key, 0),
                decreases sorted.len() - pos,
            {
                pos = pos + 1;
            }
            let entry = (key, found[n].1.clone());
            proof {
                assert(found@.take(n + 1).drop_last() =~= found@.take(n as int));
                assert(found@.take(n + 1).last() == entry);
            }
            sorted.insert(pos, entry);
            n = n + 1;
        }
        proof {
            assert(found@.take(found.len() as int) =~= found@);
            lemma_newest_order(found@);
        }
        let limit: usize = if found.len() < SCAN_LIMIT { found.len() } else { SCAN_LIMIT };
        let mut paths: Vec<String> = Vec::new();
        let mut i: usize = 0;
        while i < limit
            invariant
                limit <= sorted.len(),
                i <= limit,
                sorted@ == newest_order(found@),
                paths@.len() == i,
                forall|j: int| 0 <= j < i ==> paths@[j] == newest_order(found@)[j].1,
            decreases limit - i,
        {
            paths.push(sorted[i].1.clone());
            i = i + 1;
        }
        paths
    }

    /// The session id a file is named for: its name without the extension.
    pub fn session_of(path: &str) -> (id: Option<String>)
        ensures
            text_of(id) == file_stem(path@),
    {
        let chars = crate::text::chars_of(path);
        let name = match file_name_of(chars.as_slice()) {
            Some(name) => name,
            None => return None,
        };
        match find_last(name.as_slice(), '.') {
            Some(dot) => if dot == 0 {
                Some(string_of(name.as_slice()))
            } else {
                let stem = slice_of(name.as_slice(), 0, dot);
                proof {
                    assert(stem@ =~= name@.take(dot as int));
                }
                Some(string_of(stem.as_slice()))
            },
            None => Some(string_of(name.as_slice())),
        }
    }
}

} // verus!
