use rewind::rewindable::Event;
use rewind::sorting::sort_events;
use rewind::waiter::wait_duration_micros;

fn ev(data: &str, ts: i64) -> Event {
    Event { data: data.to_string(), timestamp_micros: ts }
}

#[test]
fn sort_is_stable() {
    let mut batch = vec![ev("b1", 2), ev("a1", 1), ev("b2", 2), ev("a2", 1), ev("c", 0)];
    sort_events(&mut batch);
    let names: Vec<&str> = batch.iter().map(|e| e.data.as_str()).collect();
    assert_eq!(names, vec!["c", "a1", "a2", "b1", "b2"]);
}

#[test]
fn sort_handles_empty_and_singleton() {
    let mut empty: Vec<Event> = Vec::new();
    sort_events(&mut empty);
    assert!(empty.is_empty());

    let mut one = vec![ev("x", 7)];
    sort_events(&mut one);
    assert_eq!(one, vec![ev("x", 7)]);
}

#[test]
fn past_due_targets_wait_for_nothing() {
    assert_eq!(wait_duration_micros(100, 200), 0);
    assert_eq!(wait_duration_micros(200, 200), 0);
    assert_eq!(wait_duration_micros(-5, 0), 0);
}

#[test]
fn future_targets_wait_exactly_the_distance() {
    assert_eq!(wait_duration_micros(300, 200), 100);
    assert_eq!(wait_duration_micros(1, -1), 2);
    // The farthest possible distance still fits, untruncated.
    assert_eq!(wait_duration_micros(i64::MAX, i64::MIN), u64::MAX);
}
