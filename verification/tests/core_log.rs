use rustretro::core_log::{LogGate, RateLimiter};

/// A moment on the monotonic clock, in nanoseconds.
type Instant = u64;

/// The moment `ms` milliseconds after `base`.
fn t(base: Instant, ms: u64) -> Instant {
    base + ms * 1_000_000
}

/// Some moment well after the clock's origin.
fn now() -> Instant {
    7_000_000_000
}

#[test]
fn quiet_core_all_lines_emit() {
    let base = now();
    let mut rl = RateLimiter::new(base);
    for i in 0..50 {
        assert_eq!(rl.admit_line(t(base, i * 10)), LogGate::Emit);
    }
}

#[test]
fn drops_after_200_in_one_second() {
    let base = now();
    let mut rl = RateLimiter::new(base);
    for _ in 0..200 {
        assert_eq!(rl.admit_line(base), LogGate::Emit);
    }
    for _ in 0..500 {
        assert_eq!(rl.admit_line(base), LogGate::Drop);
    }
}

#[test]
fn summary_emitted_when_window_rolls() {
    let base = now();
    let mut rl = RateLimiter::new(base);
    for _ in 0..200 {
        assert_eq!(rl.admit_line(base), LogGate::Emit);
    }
    for _ in 0..37 {
        assert_eq!(rl.admit_line(base), LogGate::Drop);
    }
    assert_eq!(rl.admit_line(t(base, 1000)), LogGate::EmitWithSummary(37));
    assert_eq!(rl.admit_line(t(base, 1001)), LogGate::Emit);
}

#[test]
fn window_roll_without_suppression_is_plain_emit() {
    let base = now();
    let mut rl = RateLimiter::new(base);
    assert_eq!(rl.admit_line(base), LogGate::Emit);
    assert_eq!(rl.admit_line(t(base, 1500)), LogGate::Emit);
}

#[test]
fn each_window_gets_fresh_budget_and_summary() {
    let base = now();
    let mut rl = RateLimiter::new(base);
    for _ in 0..200 {
        rl.admit_line(base);
    }
    for _ in 0..10 {
        assert_eq!(rl.admit_line(base), LogGate::Drop);
    }
    assert_eq!(rl.admit_line(t(base, 1000)), LogGate::EmitWithSummary(10));
    for _ in 0..199 {
        assert_eq!(rl.admit_line(t(base, 1000)), LogGate::Emit);
    }
    assert_eq!(rl.admit_line(t(base, 1000)), LogGate::Drop);
    assert_eq!(rl.admit_line(t(base, 2000)), LogGate::EmitWithSummary(1));
}

#[test]
fn rolled_window_reports_exact_drop_tally() {
    let base = now();
    let mut rl = RateLimiter::new(base);
    for _ in 0..205 {
        rl.admit_line(t(base, 999));
    }
    assert_eq!(rl.admit_line(t(base, 1000)), LogGate::EmitWithSummary(5));
    assert_eq!(rl.admit_line(t(base, 2000)), LogGate::Emit);
}

#[test]
fn a_window_lasts_one_second_from_the_line_that_opened_it() {
    let base = now();
    let mut rl = RateLimiter::new(base);
    assert_eq!(rl.admit_line(t(base, 1200)), LogGate::Emit); // opens a window at +1.2 s
    for _ in 0..199 {
        assert_eq!(rl.admit_line(t(base, 2100)), LogGate::Emit); // still within it
    }
    assert_eq!(rl.admit_line(t(base, 2199)), LogGate::Drop);
    assert_eq!(rl.admit_line(t(base, 2200)), LogGate::EmitWithSummary(1));
}

#[test]
fn a_line_stamped_before_the_window_opened_does_not_roll_it() {
    let base = now();
    let mut rl = RateLimiter::new(base);
    assert_eq!(rl.admit_line(base - 5_000_000_000), LogGate::Emit);
    assert_eq!(rl.lines_in_window(), 1);
}
