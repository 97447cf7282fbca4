use render_loop::fps_counter::FpsCounter;

#[test]
fn fresh_counter_publishes_no_estimate() {
    let c = FpsCounter::new();
    assert_eq!(c.current_fps, 0);
    let c2 = FpsCounter::starting_at(123);
    assert_eq!(c2.current_fps, 0);
}

#[test]
fn delta_is_the_elapsed_nanoseconds() {
    let mut c = FpsCounter::starting_at(1_000);
    assert_eq!(c.on_frame_at(1_500), 500);
    assert_eq!(c.on_frame_at(1_500), 0);
    assert_eq!(c.on_frame_at(2_000), 500);
}

// A clock reading behind the previous one counts as no time passed.
#[test]
fn backwards_clock_reading_counts_as_zero() {
    let mut c = FpsCounter::starting_at(10_000);
    assert_eq!(c.on_frame_at(4_000), 0);
    // The counter re-bases on the reading it saw.
    assert_eq!(c.on_frame_at(4_250), 250);
}

// After accumulating exactly one second plus one nanosecond across three
// ticks, the published estimate is three and both accumulators reset.
#[test]
fn estimate_counts_the_ticks_of_the_first_second() {
    let mut c = FpsCounter::starting_at(0);
    assert_eq!(c.on_frame_at(500_000_000), 500_000_000);
    assert_eq!(c.current_fps, 0);
    assert_eq!(c.on_frame_at(1_000_000_000), 500_000_000);
    // Exactly one second accumulated: not yet over the threshold.
    assert_eq!(c.current_fps, 0);
    assert_eq!(c.on_frame_at(1_000_000_001), 1);
    assert_eq!(c.current_fps, 3);
}

// The accumulators restart from zero after a publish: the next second is
// counted on its own.
#[test]
fn accumulators_reset_after_publishing() {
    let mut c = FpsCounter::starting_at(0);
    for tick in 1..=4u64 {
        c.on_frame_at(tick * 300_000_000);
    }
    // 4 ticks, threshold crossed at 1_200_000_000 ns.
    assert_eq!(c.current_fps, 4);
    // Two more ticks within the next second leave the estimate untouched.
    c.on_frame_at(1_500_000_000);
    c.on_frame_at(1_800_000_000);
    assert_eq!(c.current_fps, 4);
    // Crossing the next threshold publishes the new count.
    c.on_frame_at(2_500_000_000);
    assert_eq!(c.current_fps, 3);
}

#[test]
fn on_frame_against_the_platform_clock_runs() {
    let mut c = FpsCounter::new();
    let _delta = c.on_frame();
    let _delta2 = c.on_frame();
}
