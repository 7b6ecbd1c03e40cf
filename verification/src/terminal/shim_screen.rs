//! The shim's own screen, and the filter on what it passes to the terminal
//! it is a guest in.
//!
//! The shim is the terminal for the pty it opened: a ConPTY will not start
//! its child until something answers its cursor query, and the answer does
//! not come back through the terminal the shim itself runs in. It answers
//! from a tracked position rather than a constant, because a program that
//! asks mid-draw must be told where the cursor is.
use vstd::prelude::*;
use crate::terminal::emulator::{Emulator, Size};
use crate::terminal::screen::ScreenView;

verus! {

pub const ESC: u8 = 0x1b;

/// Where a `CSI` that started at index 0 ends, scanning from `at`: after its
/// first byte in `0x40..=0x7e`.
pub open spec fn csi_end(b: Seq<u8>, at: int) -> Option<int>
    decreases b.len() - at,
{
    if at < 0 || at >= b.len() {
        None
    } else if 0x40 <= b[at] <= 0x7e {
        Some(at + 1)
    } else {
        csi_end(b, at + 1)
    }
}

/// Where an `OSC` that started at index 0 ends, scanning from `at`: after a
/// `BEL`, or after the `\` of an `ESC \`.
pub open spec fn osc_end(b: Seq<u8>, at: int) -> Option<int>
    decreases b.len() - at,
{
    if at < 1 || at >= b.len() {
        None
    } else if b[at] == 0x07 {
        Some(at + 1)
    } else if b[at] == 0x5c && b[at - 1] == ESC {
        Some(at + 1)
    } else {
        osc_end(b, at + 1)
    }
}

/// The length of the escape sequence at the start of `b`, or `None` when it
/// is not all there yet. Anything but a `CSI` or an `OSC` is two bytes.
pub open spec fn sequence_end(b: Seq<u8>) -> Option<int> {
    if b.len() < 2 {
        None
    } else if b[1] == 0x5b {
        csi_end(b, 2)
    } else if b[1] == 0x5d {
        osc_end(b, 2)
    } else {
        Some(2)
    }
}

/// `CSI ... t`: XTWINOPS, which asks the terminal to resize itself.
pub open spec fn is_window_op(s: Seq<u8>) -> bool {
    s.len() >= 3 && s[0] == ESC && s[1] == 0x5b && s.last() == 0x74
}

/// What `p` forwards, and what of it is held back: bytes pass unchanged,
/// a whole window operation is dropped, and a sequence not all there yet is
/// held with everything after it.
pub open spec fn filtered(p: Seq<u8>) -> (Seq<u8>, Seq<u8>)
    decreases p.len(),
{
    if p.len() == 0 {
        (Seq::empty(), Seq::empty())
    } else if p[0] != ESC {
        let rest = filtered(p.skip(1));
        (seq![p[0]] + rest.0, rest.1)
    } else {
        match sequence_end(p) {
            Some(n) => if 1 <= n <= p.len() {
                let rest = filtered(p.skip(n));
                (if is_window_op(p.take(n)) { rest.0 } else { p.take(n) + rest.0 }, rest.1)
            } else {
                (Seq::empty(), p)
            },
            None => (Seq::empty(), p),
        }
    }
}

pub proof fn lemma_csi_end_prefix(b: Seq<u8>, q: Seq<u8>, at: int)
    requires
        csi_end(b, at) is Some,
    ensures
        csi_end(b + q, at) == csi_end(b, at),
        csi_end(b, at).unwrap() <= b.len(),
        csi_end(b, at).unwrap() > at,
    decreases b.len() - at,
{
    assert((b + q)[at] == b[at]);
    if !(0x40 <= b[at] <= 0x7e) {
        lemma_csi_end_prefix(b, q, at + 1);
    }
}

pub proof fn lemma_osc_end_prefix(b: Seq<u8>, q: Seq<u8>, at: int)
    requires
        osc_end(b, at) is Some,
    ensures
        osc_end(b + q, at) == osc_end(b, at),
        osc_end(b, at).unwrap() <= b.len(),
        osc_end(b, at).unwrap() > at,
    decreases b.len() - at,
{
    assert((b + q)[at] == b[at]);
    assert((b + q)[at - 1] == b[at - 1]);
    if !(b[at] == 0x07) && !(b[at] == 0x5c && b[at - 1] == ESC) {
        lemma_osc_end_prefix(b, q, at + 1);
    }
}

/// A sequence found whole stays the same sequence whatever follows it.
pub proof fn lemma_sequence_end_prefix(b: Seq<u8>, q: Seq<u8>)
    requires
        sequence_end(b) is Some,
    ensures
        sequence_end(b + q) == sequence_end(b),
        2 <= sequence_end(b).unwrap() <= b.len(),
{
    assert((b + q)[1] == b[1]);
    if b[1] == 0x5b {
        lemma_csi_end_prefix(b, q, 2);
    } else if b[1] == 0x5d {
        lemma_osc_end_prefix(b, q, 2);
    }
}

/// Forwarding `p` and then `q` after what `p` held back is forwarding both
/// at once.
pub proof fn lemma_filtered_append(p: Seq<u8>, q: Seq<u8>)
    ensures
        filtered(p + q) == (filtered(p).0 + filtered(filtered(p).1 + q).0, filtered(filtered(p).1 + q).1),
    decreases p.len(),
{
    if p.len() == 0 {
        assert(p + q =~= q);
        assert(filtered(p).1 + q =~= q);
        assert(filtered(p).0 + filtered(q).0 =~= filtered(q).0);
    } else if p[0] != ESC {
        assert((p + q)[0] == p[0]);
        assert((p + q).skip(1) =~= p.skip(1) + q);
        lemma_filtered_append(p.skip(1), q);
        let rest = filtered(p.skip(1));
        assert(seq![p[0]] + (rest.0 + filtered(rest.1 + q).0) =~= (seq![p[0]] + rest.0) + filtered(rest.1 + q).0);
    } else {
        assert((p + q)[0] == p[0]);
        match sequence_end(p) {
            Some(n) => {
                lemma_sequence_end_prefix(p, q);
                assert((p + q).take(n) =~= p.take(n));
                assert((p + q).skip(n) =~= p.skip(n) + q);
                lemma_filtered_append(p.skip(n), q);
                let rest = filtered(p.skip(n));
                if !is_window_op(p.take(n)) {
                    assert(p.take(n) + (rest.0 + filtered(rest.1 + q).0) =~= (p.take(n) + rest.0) + filtered(rest.1 + q).0);
                }
            },
            None => {
                assert(Seq::<u8>::empty() + filtered(p + q).0 =~= filtered(p + q).0);
            },
        }
    }
}

/// Where the pipe splits the bytes does not change what is forwarded: a
/// sequence that arrives split across two reads is held and judged whole,
/// so a filter matching inside one chunk cannot leak a resize.
pub proof fn lemma_split_reads(held: Seq<u8>, a: Seq<u8>, b: Seq<u8>)
    ensures
        ({
            let first = filtered(held + a);
            let second = filtered(first.1 + b);
            filtered(held + a + b) == (first.0 + second.0, second.1)
        }),
{
    lemma_filtered_append(held + a, b);
}

/// The shim's own emulator, and the bytes of a sequence that arrived split
/// across two reads.
pub struct ShimScreen {
    emulator: Emulator,
    held: Vec<u8>,
}

impl ShimScreen {
    pub closed spec fn held(&self) -> Seq<u8> {
        self.held@
    }

    pub closed spec fn screen(&self) -> ScreenView {
        self.emulator@
    }

    pub open spec fn wf(&self) -> bool {
        self.screen().wf()
    }

    pub fn new(size: Size) -> (s: ShimScreen)
        ensures
            s.wf(),
            s.held() == Seq::<u8>::empty(),
            s.screen() == crate::terminal::screen::fresh_screen(size.cols, size.rows),
    {
        ShimScreen { emulator: Emulator::new(size), held: Vec::new() }
    }

    /// The emulator, for the parser that feeds it.
    pub fn emulator_mut(&mut self) -> (e: &mut Emulator)
        ensures
            e@ == old(self).screen(),
            final(self).screen() == final(e)@,
            final(self).held() == old(self).held(),
    {
        &mut self.emulator
    }

    /// Bytes safe to hand to the terminal the shim is a guest in.
    ///
    /// Only geometry is removed: `CSI ... t` asks the terminal to resize
    /// itself, which is right for a program talking to its own terminal and
    /// wrong here, because the shim's terminal is somebody else's pane.
    /// Everything else passes byte for byte.
    pub fn forward(&mut self, chunk: &[u8]) -> (out: Vec<u8>)
        ensures
            out@ == filtered(old(self).held() + chunk@).0,
            final(self).held() == filtered(old(self).held() + chunk@).1,
            final(self).screen() == old(self).screen(),
    {
        let mut pending: Vec<u8> = Vec::new();
        std::mem::swap(&mut pending, &mut self.held);
        let mut i: usize = 0;
        while i < chunk.len()
            invariant
                i <= chunk@.len(),
                pending@ == old(self).held() + chunk@.take(i as int),
            decreases chunk@.len() - i,
        {
            pending.push(chunk[i]);
            i = i + 1;
            proof {
                assert(pending@ =~= old(self).held() + chunk@.take(i as int));
            }
        }
        proof {
            assert(chunk@.take(i as int) =~= chunk@);
        }
        let ghost whole = pending@;
        let mut out: Vec<u8> = Vec::new();
        let mut index: usize = 0;
        proof {
            assert(whole.skip(0) =~= whole);
            assert(out@ + filtered(whole).0 =~= filtered(whole).0);
        }
        while index < pending.len()
            invariant
                index <= pending@.len(),
                pending@ == whole,
                whole == old(self).held() + chunk@,
                self.held@ == Seq::<u8>::empty(),
                self.emulator@ == old(self).screen(),
                filtered(whole) == (out@ + filtered(whole.skip(index as int)).0, filtered(whole.skip(index as int)).1),
            decreases pending@.len() - index,
        {
            let ghost rest = whole.skip(index as int);
            let byte = pending[index];
            proof {
                assert(rest[0] == byte);
            }
            if byte != ESC {
                proof {
                    assert(rest.skip(1) =~= whole.skip(index + 1));
                    assert(out@.push(byte) + filtered(rest.skip(1)).0 =~= out@ + (seq![byte] + filtered(rest.skip(1)).0));
                }
                out.push(byte);
                index = index + 1;
            } else {
                match Self::sequence_end(&pending, index) {
                    Some(length) => {
                        proof {
                            assert(rest.take(length as int) =~= whole.subrange(index as int, index + length));
                            assert(rest.skip(length as int) =~= whole.skip(index + length));
                        }
                        let window = Self::is_window_operation(&pending, index, index + length);
                        let end = index + length;
                        if !window {
                            let ghost before = out@;
                            let mut k: usize = index;
                            while k < end
                                invariant
                                    index <= k <= end,
                                    end == index + length,
                                    end <= pending@.len(),
                                    pending@ == whole,
                                    out@ == before + whole.subrange(index as int, k as int),
                                decreases end - k,
                            {
                                out.push(pending[k]);
                                k = k + 1;
                                proof {
                                    assert(out@ =~= before + whole.subrange(index as int, k as int));
                                }
                            }
                            proof {
                                assert(before + whole.subrange(index as int, index + length) + filtered(whole.skip(index + length)).0
                                    =~= before + (rest.take(length as int) + filtered(rest.skip(length as int)).0));
                            }
                        }
                        index = end;
                    },
                    None => {
                        let mut kept: Vec<u8> = Vec::new();
                        let mut k: usize = index;
                        while k < pending.len()
                            invariant
                                index <= k <= pending@.len(),
                                pending@ == whole,
                                kept@ == whole.subrange(index as int, k as int),
                            decreases pending@.len() - k,
                        {
                            kept.push(pending[k]);
                            k = k + 1;
                            proof {
                                assert(kept@ =~= whole.subrange(index as int, k as int));
                            }
                        }
                        proof {
                            assert(kept@ =~= rest);
                            assert(filtered(rest) == (Seq::<u8>::empty(), rest));
                            assert(out@ + Seq::<u8>::empty() =~= out@);
                        }
                        self.held = kept;
                        return out;
                    },
                }
            }
        }
        proof {
            assert(whole.skip(index as int) =~= Seq::<u8>::empty());
            assert(out@ + Seq::<u8>::empty() =~= out@);
        }
        out
    }

    /// The length of the escape sequence starting at `bytes[from]`, or `None`
    /// when it is not all here yet.
    fn sequence_end(bytes: &Vec<u8>, from: usize) -> (n: Option<usize>)
        requires
            from < bytes@.len(),
        ensures
            match n {
                Some(k) => sequence_end(bytes@.skip(from as int)) == Some(k as int) && 1 <= k && from + k <= bytes@.len(),
                None => sequence_end(bytes@.skip(from as int)) is None,
            },
    {
        let ghost b = bytes@.skip(from as int);
        if bytes.len() - from < 2 {
            return None;
        }
        proof {
            assert(b[1] == bytes@[from + 1]);
        }
        if bytes[from + 1] == 0x5b {
            let mut at: usize = from + 2;
            while at < bytes.len()
                invariant
                    from + 2 <= at <= bytes@.len(),
                    b == bytes@.skip(from as int),
                    b.len() >= 2 && b[1] == 0x5b,
                    csi_end(b, at - from) == csi_end(b, 2),
                decreases bytes@.len() - at,
            {
                proof {
                    assert(b[at - from] == bytes@[at as int]);
                }
                if 0x40 <= bytes[at] && bytes[at] <= 0x7e {
                    proof {
                        assert(csi_end(b, at - from) == Some((at - from + 1) as int));
                    }
                    return Some(at + 1 - from);
                }
                at = at + 1;
            }
            None
        } else if bytes[from + 1] == 0x5d {
            let mut at: usize = from + 2;
            while at < bytes.len()
                invariant
                    from + 2 <= at <= bytes@.len(),
                    b == bytes@.skip(from as int),
                    b.len() >= 2 && b[1] == 0x5d,
                    osc_end(b, at - from) == osc_end(b, 2),
                decreases bytes@.len() - at,
            {
                proof {
                    assert(b[at - from] == bytes@[at as int]);
                    assert(b[at - from - 1] == bytes@[at - 1]);
                }
                if bytes[at] == 0x07 {
                    proof {
                        assert(osc_end(b, at - from) == Some((at - from + 1) as int));
                    }
                    return Some(at + 1 - from);
                }
                if bytes[at] == 0x5c && bytes[at - 1] == ESC {
                    proof {
                        assert(osc_end(b, at - from) == Some((at - from + 1) as int));
                    }
                    return Some(at + 1 - from);
                }
                at = at + 1;
            }
            None
        } else {
            Some(2)
        }
    }

    /// Whether `bytes[from..to]` is a window operation.
    fn is_window_operation(bytes: &Vec<u8>, from: usize, to: usize) -> (b: bool)
        requires
            from <= to <= bytes@.len(),
        ensures
            b == is_window_op(bytes@.subrange(from as int, to as int)),
    {
        to - from >= 3 && bytes[from] == ESC && bytes[from + 1] == 0x5b && bytes[to - 1] == 0x74
    }

    pub fn resize(&mut self, size: Size)
        requires
            old(self).wf(),
        ensures
            final(self).wf(),
            final(self).screen() == old(self).screen().resized(size.cols, size.rows),
            final(self).held() == old(self).held(),
    {
        self.emulator.resize(size);
    }
}

} // verus!
