//! A pane read on a timer and fed to an emulator as if it were a stream.
//!
//! The backend publishes no per-pane bytes and announces nothing when a pane
//! produces output, so the only way to watch a pane is to read it and
//! compare. What a read adds to the last one becomes the bytes an emulator is
//! fed; the loop that reads, sleeps and sends is the caller's.
use vstd::prelude::*;
use crate::terminal::delta::{Advance, AdvanceView, OutputDelta, advanced};
use crate::terminal::emulator::Size;
use crate::text::{chars_of, utf8_of};
use vstd::utf8::encode_utf8;

verus! {

/// How much history each read asks for: the overlap window successive reads
/// are rejoined on, which has to survive a burst between two reads.
pub const READ_LINES: u16 = 500;

/// How a client views a pane.
#[derive(Debug, Clone, Copy, PartialEq, Eq, Structural)]
pub enum PaneView {
    /// Logical lines laid out to what the client can draw.
    Lines,
    /// The pane's own grid, which the client refits.
    Screen,
}

/// `str::replace("\r\n", "\n")`.
pub open spec fn lf_only(s: Seq<char>) -> Seq<char>
    decreases s.len(),
{
    if s.len() == 0 {
        s
    } else if s.len() >= 2 && s[0] == '\r' && s[1] == '\n' {
        seq!['\n'] + lf_only(s.skip(2))
    } else {
        seq![s[0]] + lf_only(s.skip(1))
    }
}

/// `str::replace('\n', "\r\n")`.
pub open spec fn crlf_all(s: Seq<char>) -> Seq<char>
    decreases s.len(),
{
    if s.len() == 0 {
        s
    } else if s[0] == '\n' {
        seq!['\r', '\n'] + crlf_all(s.skip(1))
    } else {
        seq![s[0]] + crlf_all(s.skip(1))
    }
}

/// Text as the bytes a terminal is fed: every line ending a `CR LF`.
pub open spec fn stream_of(text: Seq<char>) -> Seq<u8> {
    encode_utf8(crlf_all(lf_only(text)))
}

/// The line a jump is marked with, dim, on a line of its own.
pub open spec fn missed_notice() -> Seq<char> {
    "\r\n\x1b[2m--- output was missed here ---\x1b[0m\r\n"@
}

/// What a read of `text` feeds the emulator, after the reads that left
/// `held`: what it added, or on a jump the notice and the whole read, since
/// joining two pieces of output that were never adjacent reads correctly and
/// is wrong. `None` when the read added nothing.
pub open spec fn fed_bytes(held: Seq<char>, text: Seq<char>) -> Option<Seq<u8>> {
    match advanced(held, text) {
        AdvanceView::Appended(added) => if added.len() == 0 { None } else { Some(stream_of(added)) },
        AdvanceView::Jumped => Some(stream_of(missed_notice() + text)),
    }
}

/// No line feed goes out without a carriage return before it: an emulator
/// moves down on `LF` and only returns to column one on `CR`, so a bare one
/// draws a staircase running off the right edge.
pub proof fn lemma_no_bare_line_feed(s: Seq<char>)
    ensures
        forall|i: int| 0 <= i < crlf_all(s).len() && #[trigger] crlf_all(s)[i] == '\n' ==> i > 0 && crlf_all(s)[i - 1] == '\r',
    decreases s.len(),
{
    if s.len() > 0 {
        lemma_no_bare_line_feed(s.skip(1));
        let rest = crlf_all(s.skip(1));
        assert forall|i: int| 0 <= i < crlf_all(s).len() && #[trigger] crlf_all(s)[i] == '\n' implies i > 0 && crlf_all(s)[i - 1] == '\r' by {
            if s[0] == '\n' {
                if i >= 2 {
                    assert(crlf_all(s)[i] == rest[i - 2]);
                    if i >= 3 {
                        assert(crlf_all(s)[i - 1] == rest[i - 3]);
                    }
                }
            } else {
                if i >= 1 {
                    assert(crlf_all(s)[i] == rest[i - 1]);
                    if i >= 2 {
                        assert(crlf_all(s)[i - 1] == rest[i - 2]);
                    }
                }
            }
        }
    }
}

/// A pane read on a timer.
pub struct HerdrSource;

impl HerdrSource {
    /// The grid a feed emulates into, for one view: in `Lines` what the
    /// client can draw, which is what stops a phone scrolling sideways
    /// through a pane laid out for a desk; in `Screen` the pane's own.
    pub fn shape(pane_size: Size, view: PaneView, viewport: Size) -> (s: Size)
        ensures
            s == (match view {
                PaneView::Lines => viewport,
                PaneView::Screen => pane_size,
            }),
    {
        match view {
            PaneView::Lines => viewport,
            PaneView::Screen => pane_size,
        }
    }

    /// Line endings a terminal understands: the backend returns text with
    /// bare newlines.
    pub fn as_stream(text: &str) -> (out: Vec<u8>)
        ensures
            out@ == stream_of(text@),
    {
        let chars = chars_of(text);
        let mut unified: Vec<char> = Vec::new();
        let mut i: usize = 0;
        proof {
            assert(chars@.skip(0) =~= chars@);
            assert(unified@ + lf_only(chars@) =~= lf_only(chars@));
        }
        while i < chars.len()
            invariant
                i <= chars@.len(),
                lf_only(chars@) == unified@ + lf_only(chars@.skip(i as int)),
            decreases chars@.len() - i,
        {
            let ghost rest = chars@.skip(i as int);
            if i + 1 < chars.len() && chars[i] == '\r' && chars[i + 1] == '\n' {
                proof {
                    assert(rest[0] == chars@[i as int] && rest[1] == chars@[i + 1]);
                    assert(rest.skip(2) =~= chars@.skip(i + 2));
                    assert(unified@.push('\n') + lf_only(rest.skip(2)) =~= unified@ + (seq!['\n'] + lf_only(rest.skip(2))));
                }
                unified.push('\n');
                i = i + 2;
            } else {
                proof {
                    assert(rest[0] == chars@[i as int]);
                    if rest.len() >= 2 {
                        assert(rest[1] == chars@[i + 1]);
                    }
                    assert(rest.skip(1) =~= chars@.skip(i + 1));
                    assert(unified@.push(chars@[i as int]) + lf_only(rest.skip(1)) =~= unified@ + (seq![rest[0]] + lf_only(rest.skip(1))));
                }
                unified.push(chars[i]);
                i = i + 1;
            }
        }
        proof {
            assert(chars@.skip(i as int) =~= Seq::<char>::empty());
            assert(unified@ + Seq::<char>::empty() =~= unified@);
        }
        let mut crlf: Vec<char> = Vec::new();
        let mut j: usize = 0;
        proof {
            assert(unified@.skip(0) =~= unified@);
            assert(crlf@ + crlf_all(unified@) =~= crlf_all(unified@));
        }
        while j < unified.len()
            invariant
                j <= unified@.len(),
                crlf_all(unified@) == crlf@ + crlf_all(unified@.skip(j as int)),
            decreases unified@.len() - j,
        {
            let ghost rest = unified@.skip(j as int);
            proof {
                assert(rest[0] == unified@[j as int]);
                assert(rest.skip(1) =~= unified@.skip(j + 1));
            }
            if unified[j] == '\n' {
                proof {
                    assert(crlf@.push('\r').push('\n') + crlf_all(rest.skip(1)) =~= crlf@ + (seq!['\r', '\n'] + crlf_all(rest.skip(1))));
                }
                crlf.push('\r');
                crlf.push('\n');
            } else {
                proof {
                    assert(crlf@.push(unified@[j as int]) + crlf_all(rest.skip(1)) =~= crlf@ + (seq![rest[0]] + crlf_all(rest.skip(1))));
                }
                crlf.push(unified[j]);
            }
            j = j + 1;
        }
        proof {
            assert(unified@.skip(j as int) =~= Seq::<char>::empty());
            assert(crlf@ + Seq::<char>::empty() =~= crlf@);
        }
        utf8_of(crlf.as_slice())
    }

    /// What a read feeds the emulator, advancing the delta past it; `None`
    /// when the read added nothing.
    pub fn bytes_for(delta: &mut OutputDelta, text: &str) -> (bytes: Option<Vec<u8>>)
        ensures
            final(delta).held() == text@,
            match bytes {
                Some(b) => fed_bytes(old(delta).held(), text@) == Some(b@),
                None => fed_bytes(old(delta).held(), text@) is None,
            },
    {
        match delta.advance(text) {
            Advance::Appended(added) => {
                if chars_of(added.as_str()).len() == 0 {
                    None
                } else {
                    Some(Self::as_stream(added.as_str()))
                }
            },
            Advance::Jumped => {
                let mut whole: Vec<char> = chars_of("\r\n\x1b[2m--- output was missed here ---\x1b[0m\r\n");
                let mut rest = chars_of(text);
                whole.append(&mut rest);
                let joined = crate::text::string_of(whole.as_slice());
                Some(Self::as_stream(joined.as_str()))
            },
        }
    }
}

} // verus!
