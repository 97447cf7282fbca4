use render_loop::renderer::{AcquireOutcome, FrameError, FrameOrchestrator};

fn fresh(num_images: usize) -> FrameOrchestrator {
    FrameOrchestrator::new(num_images).expect("swap chain of two or more images")
}

#[test]
fn construction_needs_two_images() {
    assert!(matches!(FrameOrchestrator::new(0), Err(FrameError::Configuration)));
    assert!(matches!(FrameOrchestrator::new(1), Err(FrameError::Configuration)));
    let o = fresh(2);
    assert_eq!(o.num_images(), 2);
    assert_eq!(o.in_flight_count(), 0);
}

#[test]
fn tick_books_one_submission() {
    let mut o = fresh(2);
    let outcome = o.tick(AcquireOutcome::Image { index: 1 }).unwrap();
    assert_eq!(outcome.image_index, 1);
    assert_eq!(outcome.submission_id, 0);
    assert_eq!(o.in_flight_count(), 1);
    let entry = o.submission_at(0).unwrap();
    assert_eq!(entry.id(), 0);
    assert_eq!(entry.image_index(), 1);
    assert!(!entry.is_complete());
}

#[test]
fn acquisition_timeout_is_fatal_and_books_nothing() {
    let mut o = fresh(2);
    let r = o.tick(AcquireOutcome::Timeout);
    assert_eq!(r.unwrap_err(), FrameError::AcquireTimeout);
    assert_eq!(o.in_flight_count(), 0);
}

#[test]
fn out_of_range_image_is_a_device_error() {
    let mut o = fresh(2);
    let r = o.tick(AcquireOutcome::Image { index: 2 });
    assert_eq!(r.unwrap_err(), FrameError::Device);
    assert_eq!(o.in_flight_count(), 0);
}

// End-to-end scenario: a 2-image swap chain ticked five times while no
// completion signal ever fires holds all five submissions — growth is
// unbounded when the presentation backend never signals completion.
#[test]
fn five_ticks_without_completions_keep_five_in_flight() {
    let mut o = fresh(2);
    for tick in 0..5u64 {
        let outcome = o.tick(AcquireOutcome::Image { index: (tick % 2) as usize }).unwrap();
        assert_eq!(outcome.submission_id, tick);
    }
    assert_eq!(o.in_flight_count(), 5);
}

// The bounded-growth side: when every submission's completion signal fires
// before the next tick, the collection never exceeds the number of
// swap-chain images.
#[test]
fn completed_submissions_are_reclaimed_on_the_next_tick() {
    let mut o = fresh(2);
    for tick in 0..10u64 {
        let outcome = o.tick(AcquireOutcome::Image { index: (tick % 2) as usize }).unwrap();
        assert!(o.in_flight_count() <= 2);
        o.mark_completed(outcome.submission_id);
    }
    // The last submission is still marked but not yet reclaimed.
    assert_eq!(o.in_flight_count(), 1);
    o.reclaim();
    assert_eq!(o.in_flight_count(), 0);
}

// Reclaim is idempotent: the completion check answers the same both times it
// is asked, and a second reclaim pass removes nothing.
#[test]
fn reclaim_is_idempotent() {
    let mut o = fresh(2);
    let first = o.tick(AcquireOutcome::Image { index: 0 }).unwrap();
    let _second = o.tick(AcquireOutcome::Image { index: 1 }).unwrap();
    o.mark_completed(first.submission_id);

    let marked = o.submission_at(0).unwrap();
    assert!(marked.is_complete());
    assert!(marked.is_complete());

    o.reclaim();
    assert_eq!(o.in_flight_count(), 1);
    o.reclaim();
    assert_eq!(o.in_flight_count(), 1);
    let survivor = o.submission_at(0).unwrap();
    assert!(!survivor.is_complete());
    assert_eq!(survivor.id(), 1);
}

#[test]
fn marking_an_unknown_id_changes_nothing() {
    let mut o = fresh(2);
    o.tick(AcquireOutcome::Image { index: 0 }).unwrap();
    o.mark_completed(99);
    assert_eq!(o.in_flight_count(), 1);
    assert!(!o.submission_at(0).unwrap().is_complete());
    o.reclaim();
    assert_eq!(o.in_flight_count(), 1);
}

#[test]
fn submissions_stay_in_tick_order() {
    let mut o = fresh(3);
    for tick in 0..3u64 {
        o.tick(AcquireOutcome::Image { index: tick as usize }).unwrap();
    }
    for i in 0..3usize {
        let entry = o.submission_at(i).unwrap();
        assert_eq!(entry.id(), i as u64);
        assert_eq!(entry.image_index(), i);
    }
    assert!(o.submission_at(3).is_none());
}
