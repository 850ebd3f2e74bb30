use groovebox::timing::beats_to_millis;
use groovebox::timing::quantize;
use groovebox::timing::Meter;

#[test]
fn default_meter_has_eight_ticks_and_four_steps_per_beat() {
    let m = Meter::new(120, 8).unwrap();
    assert_eq!(m.bpm, 120);
    assert_eq!(m.loop_beats, 8);
    assert_eq!(m.ticks_per_beat, 8);
    assert_eq!(m.steps_per_beat, 4);
    assert_eq!(m.total_ticks(), 64);
    assert_eq!(m.total_steps(), 32);
}

#[test]
fn meter_refuses_zero() {
    assert!(Meter::new(0, 8).is_none());
    assert!(Meter::new(120, 0).is_none());
    assert!(Meter::with_resolution(120, 8, 0, 4).is_none());
    assert!(Meter::with_resolution(120, 8, 8, 0).is_none());
    assert!(Meter::with_resolution(1, 1, 1, 1).is_some());
}

#[test]
fn tick_lasts_a_sixteenth_of_a_second_at_120_bpm() {
    let m = Meter::new(120, 1).unwrap();
    assert_eq!(m.tick_duration_micros(), 62_500);
    assert_eq!(m.cycle_micros(), 500_000);
    assert_eq!(m.target_micros(0), 62_500);
    assert_eq!(m.target_micros(3), 250_000);
    assert_eq!(m.target_micros(7), 500_000);
}

#[test]
fn targets_do_not_accumulate_rounding() {
    // 7 bpm: a tick lasts 1071428.57 microseconds.
    let m = Meter::new(7, 2).unwrap();
    assert_eq!(m.tick_duration_micros(), 1_071_428);
    assert_eq!(m.target_micros(0), 1_071_428);
    assert_eq!(m.target_micros(1), 2_142_857);
    assert_eq!(m.target_micros(6), 7_500_000);
    assert_eq!(m.target_micros(15), 17_142_857);
    assert_eq!(m.cycle_micros(), 17_142_857);
}

#[test]
fn sleep_is_what_is_left_until_the_target() {
    let m = Meter::new(120, 1).unwrap();
    assert_eq!(m.sleep_micros(0, 0), 62_500);
    assert_eq!(m.sleep_micros(0, 2_500), 60_000);
    assert_eq!(m.sleep_micros(0, 62_500), 0);
    assert_eq!(m.sleep_micros(4, 300_000), 12_500);
}

#[test]
fn late_tick_does_not_sleep() {
    let m = Meter::new(120, 1).unwrap();
    assert_eq!(m.sleep_micros(0, 70_000), 0);
    assert_eq!(m.sleep_micros(7, u64::MAX), 0);
}

#[test]
fn largest_meter_does_not_overflow() {
    let m = Meter::with_resolution(1, u32::MAX, u32::MAX, 1).unwrap();
    let total = m.total_ticks();
    assert_eq!(total, (u32::MAX as u64) * (u32::MAX as u64));
    assert_eq!(m.target_micros(total - 1), (u32::MAX as u64) * 60_000_000);
    assert_eq!(m.cycle_micros(), (u32::MAX as u64) * 60_000_000);
}

#[test]
fn beats_to_millis_rounds_to_nearest() {
    // 2.5 beats at 120 bpm last 1.25 s.
    assert_eq!(beats_to_millis(2_500, 120), 1_250);
    // 0.25 beats at 90 bpm last 166.67 ms.
    assert_eq!(beats_to_millis(250, 90), 167);
    // 0.1 beats at 70 bpm last 85.71 ms.
    assert_eq!(beats_to_millis(100, 70), 86);
    // 0.001 beats at 80 bpm last 0.75 ms; at 240 bpm 0.25 ms.
    assert_eq!(beats_to_millis(1, 80), 1);
    assert_eq!(beats_to_millis(1, 240), 0);
    // A half rounds up: 0.001 beats at 120 bpm last 0.5 ms.
    assert_eq!(beats_to_millis(1, 120), 1);
    assert_eq!(beats_to_millis(0, 120), 0);
}

#[test]
fn beats_to_millis_at_tempo_zero() {
    assert_eq!(beats_to_millis(0, 0), 0);
    assert_eq!(beats_to_millis(1, 0), u64::MAX);
}

#[test]
fn quantize_rounds_to_the_nearest_step() {
    // 480 ticks per beat, quarter-beat steps of 120 ticks.
    assert_eq!(quantize(0, 480, 4), Some(0));
    assert_eq!(quantize(59, 480, 4), Some(0));
    assert_eq!(quantize(60, 480, 4), Some(1));
    assert_eq!(quantize(120, 480, 4), Some(1));
    assert_eq!(quantize(480, 480, 4), Some(4));
    assert_eq!(quantize(1000, 480, 4), Some(8));
    assert_eq!(quantize(u64::MAX, 1, 4), None);
    assert_eq!(quantize(u32::MAX as u64, 1, 1), Some(u32::MAX));
    assert_eq!(quantize(u32::MAX as u64 + 1, 1, 1), None);
}
