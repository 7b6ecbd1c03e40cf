//! One pane's emulator as every attach to it shares it.
//!
//! Any number of sessions read one pane. Damage is drained by whichever
//! session polls first, so each session remembers the epoch it last saw, and
//! one that has fallen behind is sent the whole screen rather than damage
//! that would not apply to what it holds.
use vstd::prelude::*;
use crate::terminal::cell::Cell;
use crate::text::{chars_of, same_chars};
use crate::terminal::emulator::{frame_view, owed, Emulator, Size};
use crate::terminal::frames::{snapshot_of, span_fold, FrameBuilder, RowUpdate, RowView, TerminalFrame};
use crate::terminal::screen::{fresh_screen, page_end, page_start, ScreenView};
use crate::terminal::style::Style;
use crate::terminal::source::PaneSource;
use crate::terminal::styles::StyleTable;

verus! {

/// One page of a pane's history as rows of spans, numbered from the top of
/// the page, and the style table they name, grown as the rows are built.
pub open spec fn history_rows(lines: Seq<Seq<Cell>>, table: Seq<Style>) -> (Seq<RowView>, Seq<Style>)
    decreases lines.len(),
{
    if lines.len() == 0 {
        (Seq::empty(), table)
    } else {
        let (rows, t) = history_rows(lines.drop_last(), table);
        let folded = span_fold(lines.last(), t);
        let at = lines.len() - 1;
        let y: u16 = if at <= u16::MAX { at as u16 } else { u16::MAX };
        (rows.push((y, 0u16, folded.0)), folded.2)
    }
}

/// The epoch after a frame is sent: a frame that changes cells puts every
/// other session behind; a bell changes none.
pub open spec fn epoch_after(epoch: u64, frame: Option<TerminalFrame>) -> u64 {
    match frame {
        Some(f) => if f is Bell {
            epoch
        } else if epoch == u64::MAX {
            0
        } else {
            (epoch + 1) as u64
        },
        None => epoch,
    }
}

/// Why a pane stopped: its program exited, the shim relaying it
/// disconnected, or the pane is gone.
#[derive(Debug, Clone, Copy, PartialEq, Eq, Structural)]
pub enum CloseReason {
    Exited,
    Disconnected,
    PaneGone,
}

/// Something a pane's source reports besides output: a new size, that it
/// closed for a reason, or that its channel ended.
#[derive(Debug, Clone, Copy, PartialEq, Eq, Structural)]
pub enum PaneChange {
    Resized(Size),
    Closed(CloseReason),
    Ended,
}

/// What trying to send a reply back into the pane answered, without waiting:
/// sent, dropped because the pane is not draining its input, or refused
/// because the pane is gone.
#[derive(Debug, Clone, Copy, PartialEq, Eq, Structural)]
pub enum ReplySent {
    Sent,
    Full,
    Gone,
}

/// What the pump does next: carry on, or stop because the pane closed for
/// the reason given.
#[derive(Debug, Clone, Copy, PartialEq, Eq, Structural)]
pub enum PumpAction {
    Carry,
    Stop(CloseReason),
}

/// A pane's emulator and how many frames that changed cells it has sent.
pub struct PaneEmulator {
    pub emulator: Emulator,
    pub epoch: u64,
    /// Counted up on every change a session should wake for.
    pub revision: u64,
    /// Why the pane closed, once it has: a session still attached sends its
    /// farewell from this.
    pub closed: Option<CloseReason>,
}

impl PaneEmulator {
    pub open spec fn wf(&self) -> bool {
        self.emulator.wf()
    }

    pub fn new(size: Size) -> (p: PaneEmulator)
        ensures
            p.wf(),
            p.emulator@ == fresh_screen(size.cols, size.rows),
            p.epoch == 0,
            p.revision == 0,
            p.closed is None,
    {
        PaneEmulator { emulator: Emulator::new(size), epoch: 0, revision: 0, closed: None }
    }

    /// Why the pane closed, if it has.
    pub fn closed(&self) -> (c: Option<CloseReason>)
        ensures
            c == self.closed,
    {
        self.closed
    }

    /// Tells every session there is something new.
    pub fn bump(&mut self)
        ensures
            final(self).revision == (old(self).revision + 1) % 0x1_0000_0000_0000_0000,
            final(self).emulator == old(self).emulator,
            final(self).epoch == old(self).epoch,
            final(self).closed == old(self).closed,
    {
        self.revision = self.revision.wrapping_add(1);
    }

    /// Closes the pane for `reason`, and wakes every session so one still
    /// attached sends its farewell.
    pub fn close(&mut self, reason: CloseReason)
        ensures
            final(self).closed == Some(reason),
            final(self).revision == (old(self).revision + 1) % 0x1_0000_0000_0000_0000,
            final(self).emulator == old(self).emulator,
            final(self).epoch == old(self).epoch,
    {
        self.closed = Some(reason);
        self.bump();
    }

    /// What this pane currently has on screen, as text.
    pub fn screen_text(&self) -> (t: String)
        requires
            self.wf(),
        ensures
            t@ == self.emulator@.text(),
    {
        self.emulator.screen().text()
    }

    /// Application cursor keys, and bracketed paste, as the pane last set
    /// them.
    pub fn modes(&self) -> (m: (bool, bool))
        ensures
            m == (self.emulator@.application_cursor_keys, self.emulator@.bracketed_paste),
    {
        let screen = self.emulator.screen();
        (screen.application_cursor_keys(), screen.bracketed_paste())
    }

    /// The opening frame of an attach, and the epoch it starts from.
    ///
    /// Built without draining: a snapshot does not need the pending damage,
    /// and draining it here would take it from whichever session is in step,
    /// which would then freeze on a screen missing that change.
    pub fn open(&self) -> (opened: (TerminalFrame, u64))
        requires
            self.wf(),
        ensures
            opened.0@ == snapshot_of(self.emulator@),
            opened.1 == self.epoch,
    {
        (FrameBuilder::snapshot(self.emulator.screen()), self.epoch)
    }

    /// The next frame a session at epoch `seen` is owed, and the epoch it
    /// moves to.
    ///
    /// A session behind the pane is sent the whole screen, draining nothing
    /// and moving no epoch, or two sessions would each put the other behind
    /// forever. A session in step is sent what the pane owes, and a frame
    /// that changes cells moves the epoch on.
    pub fn next(&mut self, seen: u64) -> (next: (Option<TerminalFrame>, u64))
        requires
            old(self).wf(),
        ensures
            final(self).wf(),
            seen != old(self).epoch ==> {
                &&& next.0 matches Some(f) && f@ == snapshot_of(old(self).emulator@)
                &&& next.1 == old(self).epoch
                &&& final(self).emulator@ == old(self).emulator@
                &&& final(self).epoch == old(self).epoch
            },
            seen == old(self).epoch ==> {
                &&& owed(old(self).emulator@, final(self).emulator@, frame_view(next.0))
                &&& final(self).epoch == epoch_after(old(self).epoch, next.0)
                &&& next.1 == final(self).epoch
            },
    {
        if self.epoch != seen {
            let frame = FrameBuilder::snapshot(self.emulator.screen());
            return (Some(frame), self.epoch);
        }
        let frame = self.emulator.next_frame();
        match &frame {
            Some(f) => {
                if !matches!(f, TerminalFrame::Bell) {
                    if self.epoch == u64::MAX {
                        self.epoch = 0;
                    } else {
                        self.epoch = self.epoch + 1;
                    }
                }
            },
            None => {},
        }
        let epoch = self.epoch;
        (frame, epoch)
    }

    /// The replies a pane's latest output asked for, to write back into it:
    /// taken either way, so an unanswered query cannot accumulate for the
    /// life of a relayed pane, and handed back only when this process is the
    /// pane's terminal and there is something to send.
    pub fn replies_for(&mut self, source: PaneSource) -> (replies: Option<Vec<u8>>)
        ensures
            final(self).emulator@ == (ScreenView { replies: Seq::empty(), ..old(self).emulator@ }),
            final(self).epoch == old(self).epoch,
            final(self).revision == old(self).revision,
            final(self).closed == old(self).closed,
            match replies {
                Some(r) => source == PaneSource::Streamed && r@ == old(self).emulator@.replies && r@.len() > 0,
                None => source != PaneSource::Streamed || old(self).emulator@.replies.len() == 0,
            },
    {
        let replies = self.emulator.take_replies();
        if source.answers_queries() && replies.len() > 0 {
            Some(replies)
        } else {
            None
        }
    }

    /// What the pump does once output was fed and its replies were offered,
    /// `sent` saying what offering them answered, or nothing when there was
    /// nothing to send. A reply sent, or none needed, is news for the
    /// sessions; a dropped reply leaves the pane alive with nothing new to
    /// tell; a pane that refused it is gone, and closes.
    pub fn after_output(&mut self, sent: Option<ReplySent>) -> (action: PumpAction)
        ensures
            final(self).emulator == old(self).emulator,
            final(self).epoch == old(self).epoch,
            match sent {
                Some(ReplySent::Full) => action == PumpAction::Carry && final(self).revision == old(self).revision
                    && final(self).closed == old(self).closed,
                Some(ReplySent::Gone) => action == PumpAction::Stop(CloseReason::PaneGone)
                    && final(self).closed == Some(CloseReason::PaneGone)
                    && final(self).revision == (old(self).revision + 1) % 0x1_0000_0000_0000_0000,
                _ => action == PumpAction::Carry && final(self).closed == old(self).closed
                    && final(self).revision == (old(self).revision + 1) % 0x1_0000_0000_0000_0000,
            },
    {
        match sent {
            Some(ReplySent::Full) => PumpAction::Carry,
            Some(ReplySent::Gone) => {
                self.close(CloseReason::PaneGone);
                PumpAction::Stop(CloseReason::PaneGone)
            },
            _ => {
                self.bump();
                PumpAction::Carry
            },
        }
    }

    /// What the pump does when the source reports something besides output:
    /// a new size resizes the screen and is news for the sessions; a close
    /// closes the pane for the source's reason, and the end of the channel
    /// closes it as gone.
    pub fn on_change(&mut self, change: PaneChange) -> (action: PumpAction)
        requires
            old(self).wf(),
        ensures
            final(self).wf(),
            final(self).epoch == old(self).epoch,
            final(self).revision == (old(self).revision + 1) % 0x1_0000_0000_0000_0000,
            match change {
                PaneChange::Resized(size) => final(self).emulator@ == old(self).emulator@.resized(size.cols, size.rows)
                    && action == PumpAction::Carry && final(self).closed == old(self).closed,
                PaneChange::Closed(reason) => final(self).emulator@ == old(self).emulator@
                    && action == PumpAction::Stop(reason) && final(self).closed == Some(reason),
                PaneChange::Ended => final(self).emulator@ == old(self).emulator@
                    && action == PumpAction::Stop(CloseReason::PaneGone)
                    && final(self).closed == Some(CloseReason::PaneGone),
            },
    {
        match change {
            PaneChange::Resized(size) => {
                self.emulator.resize(size);
                self.bump();
                PumpAction::Carry
            },
            PaneChange::Closed(reason) => {
                self.close(reason);
                PumpAction::Stop(reason)
            },
            PaneChange::Ended => {
                self.close(CloseReason::PaneGone);
                PumpAction::Stop(CloseReason::PaneGone)
            },
        }
    }

    /// One page of the pane's own history, with the styles it was drawn in:
    /// the styles, the rows, where the next page up starts, and whether there
    /// is one.
    pub fn scrollback(&self, before_line: Option<u32>, limit: u16) -> (page: (Vec<Style>, Vec<RowUpdate>, Option<u32>, bool))
        requires
            self.wf(),
        ensures
            ({
                let s = self.emulator@;
                let len = s.scrollback.len() as int;
                let start = page_start(len, before_line, limit);
                let end = page_end(len, before_line);
                let built = history_rows(s.scrollback.subrange(start, end), Seq::empty());
                &&& page.0@ == built.1
                &&& page.1@.map_values(|r: RowUpdate| r@) == built.0
                &&& page.2 == (if start == 0 { None } else { Some(start as u32) })
                &&& page.3 == (start > 0)
            }),
    {
        let (lines, next, has_earlier) = self.emulator.screen().scrollback_page(before_line, limit);
        let ghost seen = lines@.map_values(|l: Vec<Cell>| l@);
        let mut styles = StyleTable::new();
        let mut rows: Vec<RowUpdate> = Vec::new();
        let mut i: usize = 0;
        while i < lines.len()
            invariant
                i <= lines@.len(),
                seen == lines@.map_values(|l: Vec<Cell>| l@),
                styles.wf(),
                rows@.len() == i,
                rows@.map_values(|r: RowUpdate| r@) == history_rows(seen.take(i as int), Seq::empty()).0,
                styles@ == history_rows(seen.take(i as int), Seq::empty()).1,
            decreases lines@.len() - i,
        {
            proof {
                assert(seen.take(i + 1).drop_last() =~= seen.take(i as int));
                assert(seen.take(i + 1).last() == lines@[i as int]@);
            }
            let ghost before = rows@;
            let spans = FrameBuilder::spans(lines[i].as_slice(), &mut styles);
            let y: u16 = if i <= 65535 {
                i as u16
            } else {
                65535
            };
            rows.push(RowUpdate { y, from_x: 0, spans });
            proof {
                assert(rows@.map_values(|r: RowUpdate| r@) =~= before.map_values(|r: RowUpdate| r@).push(
                    rows@[i as int]@,
                ));
            }
            i = i + 1;
        }
        proof {
            assert(seen.take(lines@.len() as int) =~= seen);
        }
        (styles.into_vec(), rows, next, has_earlier)
    }
}


/// Where pane `pane`'s entry sits among the live panes, looking from `i` on.
pub open spec fn entry_of(held: Seq<(String, u64)>, pane: Seq<char>, i: int) -> Option<int>
    decreases held.len() - i,
{
    if i < 0 || i >= held.len() {
        None
    } else if held[i].0@ == pane {
        Some(i)
    } else {
        entry_of(held, pane, i + 1)
    }
}

/// The live panes once the pane `pane` of `generation` is gone: its entry is
/// removed only while it is still that generation's, so a pane id reopened
/// while the old pane was dying keeps its new entry.
pub open spec fn forgotten(held: Seq<(String, u64)>, pane: Seq<char>, generation: u64) -> Seq<(String, u64)> {
    match entry_of(held, pane, 0) {
        Some(i) => if held[i].1 == generation {
            held.remove(i)
        } else {
            held
        },
        None => held,
    }
}

/// The panes this machine is emulating, each by its id and the generation
/// of the emulator that holds it.
pub struct PaneRegistry;

impl PaneRegistry {
    /// Drops a pane that died from the live panes, by identity: only the entry
    /// of the same generation goes.
    pub fn forget_if_same(held: &mut Vec<(String, u64)>, pane: &str, generation: u64)
        ensures
            final(held)@ == forgotten(old(held)@, pane@, generation),
    {
        let want = chars_of(pane);
        let mut i: usize = 0;
        while i < held.len()
            invariant
                i <= held@.len(),
                held@ == old(held)@,
                want@ == pane@,
                entry_of(held@, pane@, i as int) == entry_of(held@, pane@, 0),
            decreases held@.len() - i,
        {
            if same_chars(chars_of(held[i].0.as_str()).as_slice(), want.as_slice()) {
                if held[i].1 == generation {
                    held.remove(i);
                }
                return;
            }
            i = i + 1;
        }
    }
}

} // verus!
