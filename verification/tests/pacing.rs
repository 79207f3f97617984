use libre99::pacing::advance;

/// One frame at 60 Hz, in nanoseconds.
const FRAME: u64 = 16_667_000;

/// An arbitrary starting instant.
const T0: u64 = 5_000_000_000;

#[test]
fn not_yet_due_keeps_the_deadline_and_skips_the_redraw() {
    let deadline = T0 + FRAME;
    let (next, redraw) = advance(T0, deadline, FRAME);
    assert_eq!(next, deadline);
    assert!(!redraw);
}

#[test]
fn on_time_redraws_and_advances_exactly_one_frame() {
    let (next, redraw) = advance(T0, T0, FRAME);
    assert!(redraw);
    assert_eq!(next, T0 + FRAME);
}

#[test]
fn slightly_late_keeps_cadence_from_the_old_deadline() {
    let deadline = T0;
    // Less than a whole frame late: the stepped deadline is still ahead of
    // `now`, so we keep the fixed cadence (no drift accumulation).
    let now = T0 + FRAME / 2;
    let (next, redraw) = advance(now, deadline, FRAME);
    assert!(redraw);
    assert_eq!(next, deadline + FRAME);
}

#[test]
fn a_long_stall_resyncs_to_now_plus_one_frame() {
    let deadline = T0;
    // Stalled well over a frame: resync to `now + FRAME` instead of firing
    // catch-up redraws.
    let now = T0 + FRAME * 10;
    let (next, redraw) = advance(now, deadline, FRAME);
    assert!(redraw);
    assert_eq!(next, now + FRAME);
}

#[test]
fn exactly_one_frame_late_resyncs() {
    let (next, redraw) = advance(T0 + FRAME, T0, FRAME);
    assert!(redraw);
    assert_eq!(next, T0 + 2 * FRAME);
    assert!(next > T0 + FRAME);
}
