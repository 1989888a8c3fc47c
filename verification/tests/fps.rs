use rust_renderer::fps::FpsCounter;
use std::time::Duration;

#[test]
fn fps_counter_reports_count_after_one_second() {
    let mut counter = FpsCounter::new();
    for _ in 0..100 {
        counter.tick(Duration::from_millis(10));
    }
    assert_eq!(counter.fps(), 100);
}

#[test]
fn fps_counter_resets_after_boundary() {
    let mut counter = FpsCounter::new();
    for _ in 0..100 {
        counter.tick(Duration::from_millis(10));
    }
    assert_eq!(counter.fps(), 100);
    for _ in 0..50 {
        counter.tick(Duration::from_millis(20));
    }
    assert_eq!(counter.fps(), 50);
}

#[test]
fn fps_counter_accumulator_does_not_drift() {
    let mut counter = FpsCounter::new();
    for _ in 0..3000 {
        counter.tick(Duration::from_millis(10));
    }
    assert_eq!(counter.accumulated(), Duration::ZERO);
    assert_eq!(counter.fps(), 100);
}

#[test]
fn fps_counter_new_is_zero() {
    let counter = FpsCounter::new();
    assert_eq!(counter.fps(), 0);
    assert_eq!(counter.frame_count(), 0);
    assert_eq!(counter.accumulated_nanos(), 0);
    assert_eq!(counter.accumulated(), Duration::ZERO);
}

#[test]
fn fps_counter_keeps_the_remainder() {
    let mut counter = FpsCounter::new();
    counter.tick(Duration::from_millis(700));
    assert_eq!(counter.frame_count(), 1);
    assert_eq!(counter.fps(), 0);
    assert_eq!(counter.accumulated_nanos(), 700_000_000);
    counter.tick(Duration::from_millis(500));
    assert_eq!(counter.fps(), 2);
    assert_eq!(counter.frame_count(), 0);
    assert_eq!(counter.accumulated(), Duration::from_millis(200));
}

#[test]
fn fps_counter_long_frame_reports_zero() {
    let mut counter = FpsCounter::new();
    counter.tick(Duration::from_millis(300));
    counter.tick(Duration::from_millis(2500));
    assert_eq!(counter.fps(), 0);
    assert_eq!(counter.frame_count(), 0);
    assert_eq!(counter.accumulated_nanos(), 800_000_000);
}

#[test]
fn fps_counter_tick_nanos_matches_tick() {
    let mut a = FpsCounter::new();
    let mut b = FpsCounter::new();
    for ms in [16u64, 33, 250, 999, 1, 1200] {
        a.tick(Duration::from_millis(ms));
        b.tick_nanos(ms as u128 * 1_000_000);
        assert_eq!(a.fps(), b.fps());
        assert_eq!(a.frame_count(), b.frame_count());
        assert_eq!(a.accumulated_nanos(), b.accumulated_nanos());
    }
}
