use libre99::speed::{Speed, TURBO_FACTOR};

#[test]
fn pacing_follows_pause_turbo_and_step() {
    let mut s = Speed::new();
    assert_eq!(s.frames_this_tick(), 1, "normal speed runs one frame");

    s.set_turbo(true);
    assert_eq!(s.frames_this_tick(), TURBO_FACTOR, "fast-forward bursts frames");
    s.set_turbo(false);

    s.toggle_pause();
    assert!(s.is_paused());
    assert_eq!(s.frames_this_tick(), 0, "paused freezes emulation");
    assert_eq!(s.frames_this_tick(), 0);

    s.frame_advance();
    assert_eq!(s.frames_this_tick(), 1, "a queued step runs exactly one frame");
    assert_eq!(s.frames_this_tick(), 0, "and then stays paused");

    s.toggle_pause();
    assert_eq!(s.frames_this_tick(), 1, "resumed");
}

#[test]
fn indicator_reflects_state() {
    let mut s = Speed::new();
    assert_eq!(s.indicator(), None);
    s.set_turbo(true);
    assert_eq!(s.indicator(), Some(">> FAST FWD"));
    s.toggle_pause();
    assert_eq!(s.indicator(), Some("|| PAUSED"), "pause takes precedence");
}

#[test]
fn pausing_twice_drops_a_queued_step() {
    let mut s = Speed::new();
    s.frame_advance();
    s.toggle_pause();
    s.toggle_pause();
    assert!(s.is_paused());
    assert_eq!(s.frames_this_tick(), 0);
}
