//! Who a shim's pty geometry belongs to.
//!
//! A handoff, not a shared view. A client that attaches claims the size and
//! keeps it after it goes away, because somebody who locked their screen
//! mid-command still cares what width that command was laid out for. Typing
//! at the desk takes it back.
use vstd::prelude::*;

verus! {

/// What one tick of the resize loop does to the pty.
#[derive(Debug, Clone, Copy, PartialEq, Eq, Structural)]
pub enum ResizeStep {
    /// Nothing: a claim is held, or the desk's size has not changed.
    Wait,
    /// A claim was released: the desk's size from before it, back.
    Restore { cols: u16, rows: u16 },
    /// The desk's terminal changed size: follow it.
    Follow { cols: u16, rows: u16 },
}

/// What the resize loop remembers between ticks.
///
/// The desk's size is remembered rather than re-read on release, because
/// resizing the inner pty changes what the shim observes as its own terminal
/// size for as long as a claim is held. What was last applied is tracked
/// rather than what the terminal last reported: after a release the desk has
/// usually not changed, and comparing against the terminal would find nothing
/// to do and leave the pty at the client's width.
#[derive(Debug, Clone, Copy)]
pub struct ResizeOwner {
    pub desk: (u16, u16),
    pub applied: (u16, u16),
    pub was_claimed: bool,
}

/// The step one tick takes, from what the loop remembers, whether a claim is
/// held, and the desk's terminal size now.
pub open spec fn step_of(s: ResizeOwner, claimed: bool, now: (u16, u16)) -> ResizeStep {
    if claimed {
        ResizeStep::Wait
    } else if s.was_claimed {
        ResizeStep::Restore { cols: s.desk.0, rows: s.desk.1 }
    } else if now == s.applied {
        ResizeStep::Wait
    } else {
        ResizeStep::Follow { cols: now.0, rows: now.1 }
    }
}

/// What the loop remembers after one tick, before the step is carried out.
pub open spec fn ticked(s: ResizeOwner, claimed: bool) -> ResizeOwner {
    if claimed {
        ResizeOwner { was_claimed: true, ..s }
    } else {
        ResizeOwner { was_claimed: false, ..s }
    }
}

/// What the loop remembers once a step has been applied to the pty.
pub open spec fn applied_after(s: ResizeOwner, step: ResizeStep) -> ResizeOwner {
    match step {
        ResizeStep::Wait => s,
        ResizeStep::Restore { cols, rows } => ResizeOwner { applied: (cols, rows), ..s },
        ResizeStep::Follow { cols, rows } => ResizeOwner { applied: (cols, rows), desk: (cols, rows), ..s },
    }
}

/// A terminal's reported size, or the conventional 80 by 24 when it reported
/// none or an empty one: a pty opened at 0x0 makes a shell draw nothing.
pub open spec fn sane_size(reported: Option<(u16, u16)>) -> (u16, u16) {
    match reported {
        Some((cols, rows)) => if cols > 0 && rows > 0 { (cols, rows) } else { (80, 24) },
        None => (80, 24),
    }
}

impl ResizeOwner {
    /// The loop at the size the shim started at, nothing claimed.
    pub fn new(initial: (u16, u16)) -> (s: ResizeOwner)
        ensures
            s == (ResizeOwner { desk: initial, applied: initial, was_claimed: false }),
    {
        ResizeOwner { desk: initial, applied: initial, was_claimed: false }
    }

    /// One tick: what to do to the pty, given whether a claim is held and the
    /// desk's terminal size now.
    pub fn tick(&mut self, claimed: bool, now: (u16, u16)) -> (step: ResizeStep)
        ensures
            step == step_of(*old(self), claimed, now),
            *final(self) == ticked(*old(self), claimed),
    {
        if claimed {
            self.was_claimed = true;
            return ResizeStep::Wait;
        }
        if self.was_claimed {
            self.was_claimed = false;
            return ResizeStep::Restore { cols: self.desk.0, rows: self.desk.1 };
        }
        if now.0 == self.applied.0 && now.1 == self.applied.1 {
            return ResizeStep::Wait;
        }
        ResizeStep::Follow { cols: now.0, rows: now.1 }
    }

    /// Records that the pty took a step. A step the pty refused is not
    /// recorded, so the next tick tries again.
    pub fn took(&mut self, step: ResizeStep)
        ensures
            *final(self) == applied_after(*old(self), step),
    {
        match step {
            ResizeStep::Wait => {},
            ResizeStep::Restore { cols, rows } => {
                self.applied = (cols, rows);
            },
            ResizeStep::Follow { cols, rows } => {
                self.applied = (cols, rows);
                self.desk = (cols, rows);
            },
        }
    }

    /// A terminal's reported size, or 80 by 24 when it reported none or an
    /// empty one.
    pub fn sane_size(reported: Option<(u16, u16)>) -> (size: (u16, u16))
        ensures
            size == sane_size(reported),
    {
        match reported {
            Some((cols, rows)) => if cols > 0 && rows > 0 {
                (cols, rows)
            } else {
                (80, 24)
            },
            None => (80, 24),
        }
    }
}

/// A claim held and then released gives the desk back the size it had when
/// the claim began, whatever the desk's terminal reported meanwhile, once
/// every step the pty was asked to take was taken.
pub proof fn lemma_release_restores_desk(s: ResizeOwner, now1: (u16, u16), now2: (u16, u16))
    requires
        !s.was_claimed,
    ensures
        ({
            let held = ticked(s, true);
            let step = step_of(held, false, now2);
            let released = applied_after(ticked(held, false), step);
            &&& step_of(s, true, now1) == ResizeStep::Wait
            &&& step == (ResizeStep::Restore { cols: s.desk.0, rows: s.desk.1 })
            &&& released.applied == s.desk
            &&& released.desk == s.desk
            &&& !released.was_claimed
        }),
{
}

} // verus!
