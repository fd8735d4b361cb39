use std::time::Duration;

use terminal_studio::debounce::Debouncer;

#[test]
fn fires_after_delay() {
    let mut d = Debouncer::new(Duration::from_millis(0));
    d.update("hello");
    // With a 0ms delay it should be ready immediately
    assert!(d.ready());
    // And not ready again until the query changes
    assert!(!d.ready());
}

#[test]
fn does_not_fire_without_change() {
    let mut d = Debouncer::new(Duration::from_millis(0));
    assert!(!d.ready());
}

#[test]
fn reset_clears_state() {
    let mut d = Debouncer::new(Duration::from_millis(0));
    d.update("hello");
    d.reset();
    assert!(!d.ready());
    assert!(d.last_query.is_empty());
}

// ---- further cases ----

#[test]
fn same_query_does_not_rearm() {
    let mut d = Debouncer::new(Duration::from_millis(0));
    d.update("abc");
    assert!(d.ready());
    d.update("abc");
    assert!(!d.pending());
    assert!(!d.ready());
    d.update("abcd");
    // With a 0ms delay the new trigger is due at once, so not pending.
    assert!(!d.pending());
    assert!(d.ready());
}

#[test]
fn long_delay_keeps_trigger_pending() {
    let mut d = Debouncer::new(Duration::from_secs(3600));
    d.update("q");
    assert!(d.pending());
    assert!(!d.ready());
    assert!(d.pending());
    assert_eq!(d.last_query, "q");
}

#[test]
fn ready_at_fires_once_when_elapsed() {
    let mut d = Debouncer::new(Duration::from_secs(3600));
    assert!(!d.ready_at(u128::MAX));
    d.update("x");
    assert!(!d.ready_at(0));
    assert!(d.pending());
    assert!(d.pending_at(0));
    assert!(!d.pending_at(u128::MAX));
    assert!(d.ready_at(u128::MAX));
    assert!(!d.pending());
    assert!(!d.ready_at(u128::MAX));
}

#[test]
fn update_at_starts_the_timer_at_the_reading() {
    let mut d = Debouncer::new(Duration::from_millis(5));
    d.update_at("q", 1_000_000);
    assert!(d.pending_at(1_000_000));
    assert!(d.pending_at(5_999_999));
    assert!(!d.pending_at(6_000_000));
    assert!(!d.ready_at(5_999_999));
    assert!(d.ready_at(6_000_000));
    d.update_at("q", 9_000_000);
    assert!(!d.ready_at(u128::MAX));
}
