use audira::clock::PlaybackClock;

/// Milliseconds in the clock's unit (nanoseconds).
fn ms(n: u64) -> u64 {
    n * 1_000_000
}

#[test]
fn runs_and_caps_at_length() {
    let mut c = PlaybackClock::new();
    assert!(c.start(ms(1_000), ms(10_000), true));
    assert_eq!(c.tick(ms(4_000), false), (ms(3_000), false));
    assert_eq!(c.tick(ms(50_000), false), (ms(10_000), false));
    assert_eq!(c.tick(ms(50_000), true), (ms(10_000), true));
}

#[test]
fn finishes_within_last_300_ms_only_when_drained() {
    let mut c = PlaybackClock::new();
    c.start(ms(0), ms(10_000), true);
    assert_eq!(c.tick(ms(9_699), true), (ms(9_699), false));
    assert_eq!(c.tick(ms(9_700), true), (ms(9_700), true));
    assert_eq!(c.tick(ms(9_700), false), (ms(9_700), false));
}

#[test]
fn pause_holds_position_and_resume_continues() {
    let mut c = PlaybackClock::new();
    c.start(ms(0), ms(100_000), true);
    assert!(c.pause(ms(5_000)));
    assert!(!c.pause(ms(6_000)));
    assert_eq!(c.tick(ms(9_000), true), (ms(5_000), false));
    assert_eq!(c.tick(ms(90_000), true), (ms(5_000), false));
    assert!(c.resume(ms(20_000)));
    assert!(!c.resume(ms(20_000)));
    assert_eq!(c.tick(ms(21_000), false), (ms(6_000), false));
}

#[test]
fn seek_keeps_pause_state() {
    let mut c = PlaybackClock::new();
    assert!(!c.seek(ms(0), ms(1_000), true));
    assert_eq!(c, PlaybackClock::new());
    c.start(ms(0), ms(60_000), true);
    assert!(!c.seek(ms(2_000), ms(30_000), true));
    assert_eq!(c.tick(ms(3_000), false), (ms(31_000), false));
    c.pause(ms(3_000));
    assert!(c.seek(ms(4_000), ms(10_000), true));
    assert_eq!(c.tick(ms(9_000), false), (ms(10_000), false));
    assert!(!c.seek(ms(5_000), ms(20_000), false));
    assert!(!c.has_sink);
}

#[test]
fn stop_and_failed_start() {
    let mut c = PlaybackClock::new();
    c.start(ms(0), ms(60_000), true);
    c.stop();
    assert_eq!(c.tick(ms(10_000), true), (ms(0), false));
    assert!(!c.start(ms(0), ms(5_000), false));
    assert!(!c.has_sink);
    assert!(!c.pause(ms(1)));
}

#[test]
fn seek_reports_target_at_once() {
    let mut c = PlaybackClock::new();
    c.start(ms(0), ms(60_000), true);
    assert!(!c.seek(ms(1_000), ms(45_000), true));
    assert_eq!(c.tick(ms(1_000), false), (ms(45_000), false));
    assert!(!c.seek(ms(2_000), ms(90_000), true));
    assert_eq!(c.tick(ms(2_000), false).0, ms(60_000));
    c.pause(ms(2_000));
    assert!(c.seek(ms(3_000), ms(90_000), true));
    assert_eq!(c.tick(ms(3_000), false).0, ms(90_000));
}
