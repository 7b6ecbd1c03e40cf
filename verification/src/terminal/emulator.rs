//! A pane's screen and the frames it owes a client.
//!
//! The byte parser that drives the screen is held beside it by the caller:
//! the screen's `print`, `execute`, `csi_dispatch` and `esc_dispatch` are what
//! a parser's callbacks call.
use vstd::prelude::*;
use crate::terminal::frames::{damage_rows, snapshot_of, FrameBuilder, FrameView, TerminalFrame};
use crate::terminal::screen::{Screen, ScreenView};

verus! {

/// A grid size in cells.
#[derive(Debug, Clone, Copy, PartialEq, Eq, Structural)]
pub struct Size {
    pub cols: u16,
    pub rows: u16,
}

/// Half the rows dirty is where a snapshot stops being larger than the
/// damage it would replace: a snapshot drops blank rows and trims trailing
/// blanks, and damage may not.
pub const RESNAPSHOT_NUMERATOR: usize = 2;

/// The screen with its damage and cursor movement drained, as a snapshot
/// leaves it.
pub open spec fn snapshotted(s: ScreenView) -> ScreenView {
    ScreenView { cursor_moved: false, ..s }.with_active(s.active().drained())
}

/// How many rows of the grid being drawn on carry damage.
pub open spec fn dirty_count(s: ScreenView) -> int {
    s.active().dirty.filter(|d: Option<(u16, u16)>| d is Some).len() as int
}

/// A frame as values, or none.
pub open spec fn frame_view(f: Option<TerminalFrame>) -> Option<FrameView> {
    match f {
        Some(t) => Some(t@),
        None => None,
    }
}

/// Whether `frame` is the frame a screen `s` owes a client and `after` the
/// screen once it is sent: the bell first, then a snapshot once half the
/// rows are dirty, else the damage, nothing when there is none.
pub open spec fn owed(s: ScreenView, after: ScreenView, frame: Option<FrameView>) -> bool {
    if s.bell {
        &&& frame matches Some(f) && f is Bell
        &&& after == (ScreenView { bell: false, ..s })
    } else if dirty_count(s) * 2 >= s.active().rows {
        &&& after == snapshotted(s)
        &&& frame == Some(snapshot_of(snapshotted(s)))
    } else {
        damage_owed(s, after, frame)
    }
}

/// Whether `frame` is the damage a screen `s` holds, nothing when it holds
/// none and the cursor has not moved, and `after` the screen with it
/// drained.
pub open spec fn damage_owed(s: ScreenView, after: ScreenView, frame: Option<FrameView>) -> bool {
    let dirt = crate::terminal::buffer::dirt(s.active().dirty, s.active().rows as int);
    let made = damage_rows(s.active(), dirt, Seq::empty());
    &&& after == snapshotted(s)
    &&& frame is None <==> (made.0.len() == 0 && !s.cursor_moved)
    &&& frame matches Some(f) ==> f == (FrameView::Damage {
        styles: made.1,
        rows_data: made.0,
        cursor: if s.cursor_moved { Some(snapshotted(s).cursor_state()) } else { None },
    })
}

/// A pane's screen and the frames it owes.
pub struct Emulator {
    screen: Screen,
}

impl View for Emulator {
    type V = ScreenView;

    closed spec fn view(&self) -> ScreenView {
        self.screen@
    }
}

impl Emulator {
    pub open spec fn wf(&self) -> bool {
        self@.wf()
    }

    pub fn new(size: Size) -> (e: Emulator)
        ensures
            e.wf(),
            e@ == crate::terminal::screen::fresh_screen(size.cols, size.rows),
    {
        Emulator { screen: Screen::new(size.cols, size.rows) }
    }

    pub fn resize(&mut self, size: Size)
        requires
            old(self).wf(),
        ensures
            final(self).wf(),
            final(self)@ == old(self)@.resized(size.cols, size.rows),
    {
        self.screen.resize(size.cols, size.rows);
    }

    pub fn screen(&self) -> (s: &Screen)
        ensures
            s@ == self@,
    {
        &self.screen
    }

    /// The screen, for a parser to drive.
    pub fn screen_mut(&mut self) -> (s: &mut Screen)
        ensures
            s@ == old(self)@,
            final(self)@ == final(s)@,
    {
        &mut self.screen
    }

    pub fn take_bell(&mut self) -> (rang: bool)
        ensures
            rang == old(self)@.bell,
            final(self)@ == (ScreenView { bell: false, ..old(self)@ }),
    {
        self.screen.take_bell()
    }

    pub fn take_replies(&mut self) -> (replies: Vec<u8>)
        ensures
            replies@ == old(self)@.replies,
            final(self)@ == (ScreenView { replies: Seq::empty(), ..old(self)@ }),
    {
        self.screen.take_replies()
    }

    /// The whole screen. A snapshot answers every outstanding change, so the
    /// damage it subsumes is drained and does not arrive again as a second
    /// frame.
    pub fn snapshot(&mut self) -> (frame: TerminalFrame)
        requires
            old(self).wf(),
        ensures
            final(self).wf(),
            final(self)@ == snapshotted(old(self)@),
            frame@ == snapshot_of(snapshotted(old(self)@)),
    {
        let _ = self.screen.active_mut().take_dirty();
        let _ = self.screen.take_cursor_moved();
        proof {
            assert(self@ =~= snapshotted(old(self)@));
        }
        FrameBuilder::snapshot(&self.screen)
    }

    /// Damage, never a snapshot: nothing while the bell is rung, which it
    /// clears.
    pub fn damage_only(&mut self) -> (frame: Option<TerminalFrame>)
        requires
            old(self).wf(),
        ensures
            final(self).wf(),
            old(self)@.bell ==> frame is None && final(self)@ == (ScreenView { bell: false, ..old(self)@ }),
            !old(self)@.bell ==> damage_owed(old(self)@, final(self)@, frame_view(frame)),
    {
        if self.take_bell() {
            return None;
        }
        FrameBuilder::damage(&mut self.screen)
    }

    /// The next frame this pane owes a client, or `None` when it owes
    /// nothing: the bell first, then a snapshot once half the rows are dirty,
    /// else the damage.
    pub fn next_frame(&mut self) -> (frame: Option<TerminalFrame>)
        requires
            old(self).wf(),
        ensures
            final(self).wf(),
            owed(old(self)@, final(self)@, frame_view(frame)),
    {
        if self.take_bell() {
            return Some(TerminalFrame::Bell);
        }
        let rows = self.screen.active().rows() as usize;
        let dirty = self.screen.active().dirty_rows();
        if dirty >= rows || dirty * RESNAPSHOT_NUMERATOR >= rows {
            return Some(self.snapshot());
        }
        FrameBuilder::damage(&mut self.screen)
    }
}

} // verus!
