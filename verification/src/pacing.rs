//! Wall-clock frame pacing arithmetic, factored out of the event loop so it
//! can be reasoned about and tested without one.
//!
//! The application wakes on a timer and asks [`advance`] whether this wakeup
//! is due and when the next one should fire. The normal cadence steps the
//! deadline forward one whole frame; if we wake up already a full frame past
//! the deadline (the app stalled — a slow redraw, or the OS throttled our timer
//! while backgrounded), we resync to `now + frame` instead of replaying the
//! backlog, so the loop can't spiral chasing missed frames.
//!
//! Instants are nanoseconds on one monotonic clock; the frame period is in
//! nanoseconds too.

use vstd::prelude::*;

verus! {

/// The pacing decision: the next deadline and whether a redraw is due.
pub open spec fn advance_spec(now: u64, deadline: u64, frame: u64) -> (u64, bool) {
    if now < deadline {
        (deadline, false)
    } else if deadline + frame <= now {
        ((now + frame) as u64, true)
    } else {
        ((deadline + frame) as u64, true)
    }
}

/// Given `now`, the currently scheduled frame `deadline`, and the frame period
/// `frame`, return the next deadline and whether a redraw is due this wakeup.
///
/// * Not yet due (`now < deadline`): keep the deadline, no redraw.
/// * Due: redraw, and advance the deadline one `frame` — unless that stepped
///   deadline is still in the past (we fell behind), in which case resync to
///   `now + frame`.
pub fn advance(now: u64, deadline: u64, frame: u64) -> (r: (u64, bool))
    requires
        now >= deadline ==> deadline + frame <= u64::MAX,
        now >= deadline && deadline + frame <= now ==> now + frame <= u64::MAX,
    ensures
        r == advance_spec(now, deadline, frame),
{
    if now < deadline {
        return (deadline, false);
    }
    let stepped = deadline + frame;
    let next = if stepped <= now {
        now + frame
    } else {
        stepped
    };
    (next, true)
}

/// The deadline never moves backwards, and after a redraw it lies beyond
/// `now` (for a positive frame period): the loop never schedules a wakeup
/// that is already due.
pub proof fn lemma_advance_moves_forward(now: u64, deadline: u64, frame: u64)
    requires
        frame > 0,
        now >= deadline ==> deadline + frame <= u64::MAX,
        now >= deadline && deadline + frame <= now ==> now + frame <= u64::MAX,
    ensures
        advance_spec(now, deadline, frame).0 >= deadline,
        advance_spec(now, deadline, frame).1 ==> advance_spec(now, deadline, frame).0 > now,
        advance_spec(now, deadline, frame).1 ==> advance_spec(now, deadline, frame).0 <= now + frame,
        !advance_spec(now, deadline, frame).1 <==> now < deadline,
{
}

} // verus!
