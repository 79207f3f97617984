//! Emulation speed control: **pause**, single-**frame advance**, and
//! **fast-forward**.
//!
//! The frame loop asks [`Speed::frames_this_tick`] how many emulated frames to
//! run for each displayed (≈60 Hz) frame: `1` normally, `0` while paused (the
//! picture freezes but overlays keep updating), a burst while fast-forwarding,
//! or exactly `1` for a queued single step.

use vstd::prelude::*;

verus! {

/// Emulated frames run per displayed frame while fast-forwarding.
pub const TURBO_FACTOR: usize = 8;

/// Speed/pause state for the frame loop.
pub struct Speed {
    paused: bool,
    turbo: bool,
    step: bool,
}

/// The state: paused, fast-forwarding, a single step queued.
pub struct SpeedView {
    pub paused: bool,
    pub turbo: bool,
    pub step: bool,
}

impl View for Speed {
    type V = SpeedView;

    closed spec fn view(&self) -> SpeedView {
        SpeedView { paused: self.paused, turbo: self.turbo, step: self.step }
    }
}

/// The state after toggling pause: pause flipped, any queued step dropped.
pub open spec fn toggled(s: SpeedView) -> SpeedView {
    SpeedView { paused: !s.paused, step: false, ..s }
}

/// The frames a displayed frame runs in state `s`.
pub open spec fn frames_for(s: SpeedView) -> usize {
    if s.paused {
        if s.step {
            1
        } else {
            0
        }
    } else if s.turbo {
        TURBO_FACTOR
    } else {
        1
    }
}

/// The state after a displayed frame: a queued step is consumed.
pub open spec fn after_tick(s: SpeedView) -> SpeedView {
    if s.paused {
        SpeedView { step: false, ..s }
    } else {
        s
    }
}

/// The HUD label of state `s`.
pub open spec fn indicator_for(s: SpeedView) -> Option<Seq<char>> {
    if s.paused {
        Some("|| PAUSED"@)
    } else if s.turbo {
        Some(">> FAST FWD"@)
    } else {
        None
    }
}

impl Speed {
    /// Normal speed: running, no fast-forward, no step queued.
    pub fn new() -> (s: Speed)
        ensures
            s@ == (SpeedView { paused: false, turbo: false, step: false }),
    {
        Speed { paused: false, turbo: false, step: false }
    }

    /// Toggle pause (clearing any queued single step).
    pub fn toggle_pause(&mut self)
        ensures
            final(self)@ == toggled(old(self)@),
    {
        self.paused = !self.paused;
        self.step = false;
    }

    /// Whether emulation is paused.
    pub fn is_paused(&self) -> (r: bool)
        ensures
            r == self@.paused,
    {
        self.paused
    }

    /// Hold-to-fast-forward: set while the key is down, cleared on release.
    pub fn set_turbo(&mut self, on: bool)
        ensures
            final(self)@ == (SpeedView { turbo: on, ..old(self)@ }),
    {
        self.turbo = on;
    }

    /// Pause (if not already) and queue exactly one frame to run — the classic
    /// debugging "advance one frame" control.
    pub fn frame_advance(&mut self)
        ensures
            final(self)@ == (SpeedView { paused: true, step: true, ..old(self)@ }),
    {
        self.paused = true;
        self.step = true;
    }

    /// How many emulated frames to run for the next displayed frame. Consumes a
    /// queued single step.
    pub fn frames_this_tick(&mut self) -> (n: usize)
        ensures
            n == frames_for(old(self)@),
            final(self)@ == after_tick(old(self)@),
    {
        if self.paused {
            if self.step {
                self.step = false;
                1
            } else {
                0
            }
        } else if self.turbo {
            TURBO_FACTOR
        } else {
            1
        }
    }

    /// A short HUD label for the current state, or `None` at normal speed.
    pub fn indicator(&self) -> (r: Option<&'static str>)
        ensures
            match r {
                Some(t) => indicator_for(self@) == Some(t@),
                None => indicator_for(self@) == None::<Seq<char>>,
            },
    {
        if self.paused {
            Some("|| PAUSED")
        } else if self.turbo {
            Some(">> FAST FWD")
        } else {
            None
        }
    }
}

/// A queued single step runs exactly one frame and leaves emulation paused
/// with nothing queued: from any state, `frame_advance` then a displayed
/// frame runs one emulated frame, and the frames after it run none.
pub proof fn lemma_step_runs_one_frame(s: SpeedView)
    ensures
        frames_for(SpeedView { paused: true, step: true, ..s }) == 1,
        after_tick(SpeedView { paused: true, step: true, ..s }) == (SpeedView { paused: true, step: false, ..s }),
        frames_for(SpeedView { paused: true, step: false, ..s }) == 0,
{
}

/// While paused, at most one emulated frame runs per displayed frame and the
/// HUD shows the pause label: pause takes precedence over fast-forward.
pub proof fn lemma_pause_precedence(s: SpeedView)
    requires
        s.paused,
    ensures
        frames_for(s) <= 1,
        indicator_for(s) == Some("|| PAUSED"@),
{
}

/// Toggling pause twice restores the pause and fast-forward state, with no
/// step queued.
pub proof fn lemma_toggle_twice(s: SpeedView)
    ensures
        toggled(toggled(s)) == (SpeedView { step: false, ..s }),
{
}

} // verus!
