//! Timeouts and deadlines.
use crossterm::time::{
    deadline_reached, shorter_limit, time_remaining, Clock, PollTimeout, MAX_NANOS, MILLISECOND,
};
use std::time::Duration;

#[test]
fn a_timeout_counts_from_when_the_call_began() {
    let timeout = PollTimeout::new(Some(10), 100);
    assert_eq!(timeout.leftover(100), Some(10));
    assert_eq!(timeout.leftover(104), Some(6));
    assert!(!timeout.elapsed(109));
    assert!(timeout.elapsed(110));
    assert_eq!(timeout.leftover(200), Some(0));
    let forever = PollTimeout::new(None, 100);
    assert_eq!(forever.leftover(200), None);
    assert!(!forever.elapsed(MAX_NANOS));
}

#[test]
fn deadlines_are_reached_at_their_moment() {
    assert!(!deadline_reached(Some(10), 9));
    assert!(deadline_reached(Some(10), 10));
    assert!(!deadline_reached(None, MAX_NANOS));
    assert_eq!(time_remaining(Some(10), 4), Some(6));
    assert_eq!(time_remaining(Some(10), 11), Some(0));
    assert_eq!(time_remaining(None, 4), None);
    assert_eq!(shorter_limit(Some(1), Some(2)), Some(1));
    assert_eq!(shorter_limit(None, Some(2)), Some(2));
    assert_eq!(shorter_limit(Some(1), None), Some(1));
    assert_eq!(shorter_limit(None, None), None);
}

#[test]
fn a_clock_counts_nanoseconds_and_does_not_run_back() {
    let mut clock = Clock::new();
    let first = clock.now();
    let mut last = first;
    while last < first + MILLISECOND {
        let now = clock.now();
        assert!(now >= last);
        last = now;
    }
    assert_eq!(clock.latest, last);
    // A moment that was seen elsewhere counts too, but not one that has passed.
    clock.see(last + 1_000_000 * MILLISECOND);
    assert_eq!(clock.now(), last + 1_000_000 * MILLISECOND);
    clock.see(last);
    assert_eq!(clock.latest, last + 1_000_000 * MILLISECOND);
    assert_eq!(Duration::MAX.as_nanos(), MAX_NANOS);
    assert_eq!(Duration::from_millis(1).as_nanos(), MILLISECOND);
}
