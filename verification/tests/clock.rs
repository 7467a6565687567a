use xq::Color;
use xq::session::clock::{Clock, TimeControl, TimeControlInput};

/// Timestamps are milliseconds from an arbitrary origin.
const T0: u64 = 5_000_000;

fn secs(s: u64) -> u64 {
    s * 1000
}

fn cfg() -> TimeControl {
    TimeControl {
        base_secs: 600,
        step_secs: 30,
        byoyomi_secs: 10,
    }
}

fn play(clock: &mut Clock, base: u64, side: Color, turn: u64) -> bool {
    clock.start(base);
    clock.settle_move(side, base + turn).is_ok()
}

#[test]
fn step_time_caps_a_single_move() {
    let mut clock = Clock::new(cfg());
    let t = T0;
    assert!(!play(&mut clock, t, Color::Red, secs(31)));
}

#[test]
fn timed_out_only_reads_and_detects_expiry() {
    let one_second_step = TimeControl {
        base_secs: 60,
        step_secs: 1,
        byoyomi_secs: 0,
    };
    let t0 = T0;

    let idle = Clock::new(one_second_step);
    assert!(!idle.timed_out(Color::Red, t0 + secs(99)));

    let mut clock = Clock::new(one_second_step);
    clock.start(t0);
    assert!(!clock.timed_out(Color::Red, t0));
    assert!(!clock.timed_out(Color::Red, t0 + 500));
    assert!(!clock.timed_out(Color::Red, t0 + 999));
    assert!(clock.timed_out(Color::Red, t0 + 1_001));

    clock.stop();
    assert!(!clock.timed_out(Color::Red, t0 + secs(99)));
}

#[test]
fn step_time_does_not_touch_base_time_when_within_limit() {
    let mut clock = Clock::new(cfg());
    let t = T0;
    assert!(play(&mut clock, t, Color::Red, secs(12)));
    assert_eq!(clock.red.base_ms, 600_000 - 12_000);
    assert_eq!(clock.black.base_ms, 600_000);
    assert!(!clock.red.byoyomi);
}

#[test]
fn base_time_running_out_switches_to_byoyomi() {
    let mut clock = Clock::new(cfg());
    let t = T0;
    clock.settle_move(Color::Red, t).ok();
    clock.red.base_ms = 4_000;
    clock.start(t);
    assert!(clock.settle_move(Color::Red, t + secs(4)).is_ok());
    assert_eq!(clock.red.base_ms, 0);
    assert!(clock.red.byoyomi);
}

#[test]
fn byoyomi_resets_every_move() {
    let mut clock = Clock::new(cfg());
    let t = T0;
    clock.red.byoyomi = true;
    clock.red.base_ms = 0;

    clock.start(t);
    assert!(clock.settle_move(Color::Red, t + secs(10)).is_ok());
    let t2 = t + secs(10);
    clock.start(t2);
    assert!(clock.settle_move(Color::Red, t2 + secs(10)).is_ok());
}

#[test]
fn byoyomi_timeout_loses() {
    let mut clock = Clock::new(cfg());
    let t = T0;
    clock.red.byoyomi = true;
    clock.start(t);
    let err = clock.settle_move(Color::Red, t + secs(11)).unwrap_err();
    assert_eq!(err.loser, Color::Red);
}

#[test]
fn base_time_shrinks_the_step_limit() {
    let mut clock = Clock::new(cfg());
    let t = T0;
    clock.red.base_ms = 2_000;
    clock.start(t);
    assert!(clock.settle_move(Color::Red, t + 2_500).is_err());
}

#[test]
fn undo_restores_the_clock() {
    let mut clock = Clock::new(cfg());
    let t = T0;
    assert!(play(&mut clock, t, Color::Red, secs(20)));
    assert_eq!(clock.red.base_ms, 580_000);
    clock.undo();
    assert_eq!(clock.red.base_ms, 600_000);
}

#[test]
fn snapshot_reports_both_sides() {
    let mut clock = Clock::new(cfg());
    let t = T0;
    assert!(play(&mut clock, t, Color::Red, secs(7)));
    let t1 = t + secs(7);
    clock.start(t1);
    let snap = clock.snapshot(Color::Black, t1 + secs(3));
    assert_eq!(snap.base_secs, 600);
    assert_eq!(snap.red_ms, 593_000);
    assert_eq!(snap.black_ms, 597_000);
    assert_eq!(snap.step_left_ms, 27_000);
    assert_eq!(snap.step_limit_ms, 30_000);
}

#[test]
fn snapshot_does_not_run_down_byoyomi() {
    let mut clock = Clock::new(cfg());
    let t = T0;
    clock.black.byoyomi = true;
    clock.black.base_ms = 0;
    clock.start(t);
    let snap = clock.snapshot(Color::Black, t + secs(5));
    assert_eq!(snap.black_ms, 0);
    assert_eq!(snap.red_ms, 600_000);
}

#[test]
fn zero_base_starts_in_byoyomi() {
    let clock = Clock::new(TimeControl {
        base_secs: 0,
        step_secs: 0,
        byoyomi_secs: 20,
    });
    assert!(clock.red.byoyomi);
    assert_eq!(clock.limit_ms(Color::Red), 20_000);
}

#[test]
fn requested_periods_are_capped_at_a_day() {
    let cfg = TimeControl::from(TimeControlInput {
        base_secs: 300,
        step_secs: 15,
        byoyomi_secs: 1_000_000,
    });
    assert_eq!(cfg.base_secs, 300);
    assert_eq!(cfg.step_secs, 15);
    assert_eq!(cfg.byoyomi_secs, 86_400);
    assert!(TimeControl::from(TimeControlInput::default()).is_unlimited());
    assert!(TimeControl::unlimited().is_unlimited());
}

#[test]
fn start_keeps_the_first_start_and_earlier_timestamps_count_as_zero() {
    let mut clock = Clock::new(cfg());
    clock.start(T0);
    clock.start(T0 + secs(5));
    assert_eq!(clock.step_left_ms(Color::Red, T0 + secs(10)), 20_000);
    assert_eq!(clock.step_left_ms(Color::Red, T0 - 1), 30_000);
    assert_eq!(clock.settle_move(Color::Red, T0 + secs(10)), Ok(10_000));
    assert_eq!(clock.config(), cfg());
}
