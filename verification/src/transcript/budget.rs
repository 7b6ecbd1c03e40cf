//! How much of a page a control frame will actually carry.
use vstd::prelude::*;
use vstd::utf8::encode_utf8;
use crate::text::{chars_of, join, join_parts, lemma_encode_utf8_concat, slice_of, string_of, utf8_of};
use crate::transcript::mapper::push_text;
use crate::transcript::turn::{fallback_of_part, kind_of_part, Part, Turn};

verus! {

/// How many UTF-8 bytes a text takes.
pub open spec fn byte_len(s: Seq<char>) -> nat {
    encode_utf8(s).len()
}

/// The longest prefix of at most `i` characters that fits in `limit` bytes.
pub open spec fn fitting_prefix(s: Seq<char>, i: int, limit: nat) -> int
    decreases i,
{
    if i <= 0 {
        0
    } else if byte_len(s.take(i)) <= limit {
        i
    } else {
        fitting_prefix(s, i - 1, limit)
    }
}

/// A text cut to at most `limit` bytes at a character boundary, with an
/// ellipsis when anything was cut: the cut falls at the start of the last
/// character that begins within the limit.
pub open spec fn clipped_to(s: Seq<char>, limit: nat) -> Seq<char> {
    if byte_len(s) <= limit {
        s
    } else {
        s.take(fitting_prefix(s, s.len() - 1, limit)) + seq!['\u{2026}']
    }
}

/// The label of a notice standing in for `n` dropped parts.
pub open spec fn notice_label(n: nat) -> Seq<char> {
    (if n == 1 {
        "a part"@
    } else {
        "parts"@
    }) + " too large to send over this link"@
}

/// What a notice says of the parts it stands in for: their kinds, and where
/// they can still be read.
pub open spec fn notice_detail(dropped: Seq<Part>) -> Seq<char> {
    join(dropped.map_values(|p: Part| kind_of_part(p)), ", "@) + "; open the pane at the machine to read them"@
}

/// A notice's fallback: each dropped part's own fallback, clipped, a line
/// each.
pub open spec fn notice_fallback(dropped: Seq<Part>) -> Seq<char> {
    join(dropped.map_values(|p: Part| clipped_to(fallback_of_part(p), 512)), "\n"@)
}

/// Whether `i` is where the last of the largest sizes sits: no size is
/// larger, and none after it is as large.
pub open spec fn last_largest(sizes: Seq<usize>, i: int) -> bool {
    &&& 0 <= i < sizes.len()
    &&& forall|j: int| 0 <= j < sizes.len() ==> sizes[j] <= sizes[i]
    &&& forall|j: int| i < j < sizes.len() ==> sizes[j] < sizes[i]
}

/// The room a shrunk turn must fit in: the page's budget less what its
/// notice is kept back.
pub open spec fn shrink_room(max: int) -> int {
    if max >= 2048 {
        max - 2048
    } else {
        0
    }
}

/// How much of a page a control frame will actually carry.
pub struct PageBudget;

impl PageBudget {
    /// How much of a dropped part's own text a notice carries.
    pub const KEPT_TEXT: usize = 512;

    /// Room kept back for the notice that replaces parts too large to send.
    pub const NOTICE: usize = 2048;

    /// The first `KEPT_TEXT` bytes of `text`, cut at a character boundary so
    /// a multi-byte character is never split.
    pub fn clipped(text: &str) -> (out: String)
        ensures
            out@ == clipped_to(text@, 512),
    {
        let s = chars_of(text);
        let total = utf8_of(&s).len();
        if total <= Self::KEPT_TEXT {
            return string_of(&s);
        }
        assert(s.len() > 0) by {
            if s.len() == 0 {
                assert(encode_utf8(s@) =~= Seq::<u8>::empty());
            }
        }
        let mut used: usize = 0;
        let mut end: usize = 0;
        let mut i: usize = 0;
        assert(s@.take(0) =~= Seq::<char>::empty());
        while i + 1 < s.len()
            invariant
                i < s.len(),
                s@ == text@,
                used == byte_len(s@.take(i as int)),
                end == fitting_prefix(s@, i as int, 512),
                end <= i,
                used <= total,
                total == byte_len(s@),
            decreases s.len() - i,
        {
            let one: [char; 1] = [s[i]];
            let width = utf8_of(&one).len();
            proof {
                assert(one@ =~= seq![s@[i as int]]);
                assert(s@.take(i + 1) =~= s@.take(i as int) + seq![s@[i as int]]);
                lemma_encode_utf8_concat(s@.take(i as int), seq![s@[i as int]]);
                assert(s@ =~= s@.take(i + 1) + s@.skip(i + 1));
                lemma_encode_utf8_concat(s@.take(i + 1), s@.skip(i + 1));
            }
            used = used + width;
            i += 1;
            if used <= Self::KEPT_TEXT {
                end = i;
            }
        }
        let kept = slice_of(&s, 0, end);
        let mut out = kept;
        out.push('\u{2026}');
        proof {
            assert(s@.subrange(0, end as int) =~= s@.take(end as int));
        }
        string_of(&out)
    }

    /// How many bytes a shrunk turn may take: the page's budget less the room
    /// kept for the notice, so adding the notice cannot itself push the turn
    /// back over.
    pub fn room(max: usize) -> (room: usize)
        ensures
            room == shrink_room(max as int),
    {
        if max >= Self::NOTICE {
            max - Self::NOTICE
        } else {
            0
        }
    }

    /// Where the largest of `sizes` sits; the last of them when several are
    /// as large.
    pub fn largest(sizes: &[usize]) -> (i: usize)
        requires
            sizes@.len() > 0,
        ensures
            last_largest(sizes@, i as int),
    {
        let mut best: usize = 0;
        let mut k: usize = 1;
        while k < sizes.len()
            invariant
                0 < k <= sizes@.len(),
                best < k,
                forall|j: int| 0 <= j < k ==> sizes@[j] <= sizes@[best as int],
                forall|j: int| best < j < k ==> sizes@[j] < sizes@[best as int],
            decreases sizes@.len() - k,
        {
            if sizes[k] >= sizes[best] {
                best = k;
            }
            k = k + 1;
        }
        best
    }

    /// One step of shrinking a turn too large for one frame: while it encodes
    /// to more than `room` bytes and has parts left, its largest part is
    /// moved to `dropped`. `turn_size` is what the turn encodes to now and
    /// `part_sizes` what each part does. Whether a part was moved.
    pub fn shrink_step(
        turn: &mut Turn,
        dropped: &mut Vec<Part>,
        turn_size: usize,
        part_sizes: &[usize],
        room: usize,
    ) -> (moved: bool)
        requires
            part_sizes@.len() == old(turn).parts@.len(),
        ensures
            moved == (turn_size > room && old(turn).parts@.len() > 0),
            final(turn).role == old(turn).role,
            final(turn).at == old(turn).at,
            moved ==> exists|i: int|
                last_largest(part_sizes@, i) && final(turn).parts@ == old(turn).parts@.remove(i)
                    && final(dropped)@ == old(dropped)@.push(old(turn).parts@[i]),
            !moved ==> final(turn).parts@ == old(turn).parts@ && final(dropped)@ == old(dropped)@,
    {
        if turn_size <= room || turn.parts.len() == 0 {
            return false;
        }
        let i = Self::largest(part_sizes);
        let part = turn.parts.remove(i);
        dropped.push(part);
        assert(last_largest(part_sizes@, i as int));
        true
    }

    /// The notice that replaces the parts a turn dropped: what they were and
    /// where to read them, with each one's own fallback text, clipped.
    pub fn notice(dropped: &[Part]) -> (p: Part)
        ensures
            p matches Part::Status { label, detail, fallback_text } && label@ == notice_label(dropped@.len())
                && (detail matches Some(d) && d@ == notice_detail(dropped@)) && fallback_text@ == notice_fallback(
                dropped@,
            ),
    {
        let mut label: Vec<char> = Vec::new();
        if dropped.len() == 1 {
            push_text(&mut label, "a part");
        } else {
            push_text(&mut label, "parts");
        }
        push_text(&mut label, " too large to send over this link");
        let mut kinds: Vec<Vec<char>> = Vec::new();
        let mut texts: Vec<Vec<char>> = Vec::new();
        let mut i: usize = 0;
        while i < dropped.len()
            invariant
                i <= dropped@.len(),
                kinds.deep_view() == dropped@.take(i as int).map_values(|p: Part| kind_of_part(p)),
                texts.deep_view() == dropped@.take(i as int).map_values(|p: Part| clipped_to(fallback_of_part(p), 512)),
            decreases dropped@.len() - i,
        {
            let ghost k0 = kinds.deep_view();
            let ghost t0 = texts.deep_view();
            let kind = chars_of(dropped[i].kind());
            let text = chars_of(Self::clipped(dropped[i].fallback_text()).as_str());
            kinds.push(kind);
            texts.push(text);
            proof {
                assert(dropped@.take(i + 1) =~= dropped@.take(i as int).push(dropped@[i as int]));
                assert(kinds.deep_view()[k0.len() as int] =~= kind@);
                assert(kinds.deep_view() =~= k0.push(kind@));
                assert(texts.deep_view()[t0.len() as int] =~= text@);
                assert(texts.deep_view() =~= t0.push(text@));
                assert(kinds.deep_view() =~= dropped@.take(i + 1).map_values(|p: Part| kind_of_part(p)));
                assert(texts.deep_view() =~= dropped@.take(i + 1).map_values(
                    |p: Part| clipped_to(fallback_of_part(p), 512),
                ));
            }
            i = i + 1;
        }
        proof {
            assert(dropped@.take(dropped@.len() as int) =~= dropped@);
        }
        let comma: [char; 2] = [',', ' '];
        let newline: [char; 1] = ['\n'];
        let mut detail = join_parts(&kinds, &comma);
        push_text(&mut detail, "; open the pane at the machine to read them");
        let fallback = join_parts(&texts, &newline);
        proof {
            reveal_strlit(", ");
            reveal_strlit("\n");
            assert(comma@ =~= ", "@);
            assert(newline@ =~= "\n"@);
        }
        Part::Status {
            label: string_of(label.as_slice()),
            detail: Some(string_of(detail.as_slice())),
            fallback_text: string_of(fallback.as_slice()),
        }
    }

    /// A shrunk turn's parts once shrinking stopped: the notice replacing
    /// what was dropped comes last, and nothing is added when nothing was.
    pub fn finish_shrink(turn: &mut Turn, dropped: &[Part])
        ensures
            final(turn).role == old(turn).role,
            final(turn).at == old(turn).at,
            dropped@.len() == 0 ==> final(turn).parts@ == old(turn).parts@,
            dropped@.len() > 0 ==> final(turn).parts@.len() == old(turn).parts@.len() + 1
                && final(turn).parts@.drop_last() == old(turn).parts@
                && (final(turn).parts@.last() matches Part::Status { label, detail, fallback_text }
                && label@ == notice_label(dropped@.len()) && (detail matches Some(d) && d@ == notice_detail(dropped@))
                && fallback_text@ == notice_fallback(dropped@)),
    {
        if dropped.len() > 0 {
            let notice = Self::notice(dropped);
            turn.parts.push(notice);
            proof {
                assert(turn.parts@.drop_last() =~= old(turn).parts@);
            }
        }
    }
}

} // verus!
