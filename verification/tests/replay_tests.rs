use rewind::replay::{ReplayError, ReplayRun, SendOutcome};
use rewind::rewindable::Event;

fn ev(data: &str, ts: i64) -> Event {
    Event { data: data.to_string(), timestamp_micros: ts }
}

fn recv_all(r: &kanal::AsyncReceiver<Event>) -> Vec<String> {
    let mut out = Vec::new();
    while let Ok(Some(e)) = r.try_recv() {
        out.push(e.data);
    }
    out
}

#[test]
fn ordering_with_ties() {
    // Unordered input with a duplicate timestamp: delivery must be sorted by
    // ascending timestamp, ties kept in input order.
    let batch = vec![ev("C", 5), ev("A1", 1), ev("B", 3), ev("A2", 1)];
    let mut run = ReplayRun::start_at(batch, 100).unwrap();
    let (s, r) = kanal::unbounded_async::<Event>();
    while run.remaining() > 0 {
        let outcome = run.dispatch(&s);
        assert_eq!(outcome, Some(SendOutcome::Delivered));
    }
    assert_eq!(run.dispatch(&s), None);
    assert_eq!(recv_all(&r), vec!["A1", "A2", "B", "C"]);
}

#[test]
fn empty_batch_is_a_no_op() {
    let mut run = ReplayRun::start_at(Vec::new(), 50).unwrap();
    let (s, r) = kanal::unbounded_async::<Event>();
    assert_eq!(run.remaining(), 0);
    assert_eq!(run.next_deadline(), None);
    assert_eq!(run.dispatch(&s), None);
    // Zero channel interactions took place.
    assert_eq!(r.try_recv().unwrap(), None);
}

#[test]
fn single_event_is_due_at_start_time() {
    // One event, originally far in the past: due exactly at the run's start.
    let mut run = ReplayRun::start_at(vec![ev("only", -500)], 1234).unwrap();
    let (s, r) = kanal::unbounded_async::<Event>();
    assert_eq!(run.next_deadline(), Some(1234));
    assert_eq!(run.dispatch(&s), Some(SendOutcome::Delivered));
    assert_eq!(run.next_deadline(), None);
    assert_eq!(run.dispatch(&s), None);
    assert_eq!(recv_all(&r), vec!["only"]);
}

#[test]
fn relative_spacing_is_preserved() {
    // Original gaps of 20 and 50 microseconds reappear between deadlines.
    let batch = vec![ev("a", 10), ev("b", 30), ev("c", 80)];
    let mut run = ReplayRun::start_at(batch, 1000).unwrap();
    let (s, _r) = kanal::unbounded_async::<Event>();
    assert_eq!(run.next_deadline(), Some(1000));
    run.dispatch(&s);
    assert_eq!(run.next_deadline(), Some(1020));
    run.dispatch(&s);
    assert_eq!(run.next_deadline(), Some(1070));
}

#[test]
fn backpressure_drops_and_continues() {
    // A bounded channel of capacity one: the second send would block, the
    // event is dropped, and the third is still attempted on its own.
    let batch = vec![ev("A", 1), ev("B", 2), ev("C", 3)];
    let mut run = ReplayRun::start_at(batch, 0).unwrap();
    let (s, r) = kanal::bounded_async::<Event>(1);
    assert_eq!(run.dispatch(&s), Some(SendOutcome::Delivered));
    assert_eq!(run.dispatch(&s), Some(SendOutcome::WouldBlock));
    // B was dropped, never retried; C's attempt happens regardless.
    assert_eq!(run.remaining(), 1);
    assert_eq!(r.try_recv().unwrap(), Some(ev("A", 1)));
    assert_eq!(run.dispatch(&s), Some(SendOutcome::Delivered));
    assert_eq!(recv_all(&r), vec!["C"]);
    assert_eq!(run.dispatch(&s), None);
}

#[test]
fn closed_channel_reports_closed() {
    let batch = vec![ev("A", 1), ev("B", 2)];
    let mut run = ReplayRun::start_at(batch, 0).unwrap();
    let (s, r) = kanal::unbounded_async::<Event>();
    drop(r);
    assert_eq!(run.dispatch(&s), Some(SendOutcome::Closed));
    // The run keeps going after a closed-channel drop.
    assert_eq!(run.dispatch(&s), Some(SendOutcome::Closed));
    assert_eq!(run.dispatch(&s), None);
}

#[test]
fn concrete_scenario_three_events() {
    // Events at T+0s, T+2s, T+5s for a fixed past instant T, replayed with a
    // start time of `now`: due at now+0s, now+2s, now+5s, each via a single
    // successful send on an unbounded channel.
    let t: i64 = 1_000_000;
    let now: i64 = 9_000_000;
    let batch = vec![ev("A", t), ev("B", t + 2_000_000), ev("C", t + 5_000_000)];
    let mut run = ReplayRun::start_at(batch, now).unwrap();
    let (s, r) = kanal::unbounded_async::<Event>();
    assert_eq!(run.next_deadline(), Some(now));
    assert_eq!(run.dispatch(&s), Some(SendOutcome::Delivered));
    assert_eq!(run.next_deadline(), Some(now + 2_000_000));
    assert_eq!(run.dispatch(&s), Some(SendOutcome::Delivered));
    assert_eq!(run.next_deadline(), Some(now + 5_000_000));
    assert_eq!(run.dispatch(&s), Some(SendOutcome::Delivered));
    assert_eq!(run.next_deadline(), None);
    assert_eq!(recv_all(&r), vec!["A", "B", "C"]);
}

#[test]
fn start_anchors_to_the_present() {
    // The wall-clock entry point: timestamps far in the past replay at once,
    // and the original ten-microsecond gap survives the anchoring.
    let batch = vec![ev("x", 10), ev("y", 20)];
    let mut run = ReplayRun::start(batch).unwrap();
    let (s, r) = kanal::unbounded_async::<Event>();
    let d0 = run.next_deadline().unwrap();
    assert_eq!(run.dispatch(&s), Some(SendOutcome::Delivered));
    let d1 = run.next_deadline().unwrap();
    assert_eq!(d1 - d0, 10);
    assert_eq!(run.dispatch(&s), Some(SendOutcome::Delivered));
    assert_eq!(run.dispatch(&s), None);
    assert_eq!(recv_all(&r), vec!["x", "y"]);
}

#[test]
fn unrepresentable_shift_fails_loudly() {
    // Anchoring the earliest event to `now` would push the latest one past
    // the representable range: the run is refused before any dispatch.
    let batch = vec![ev("old", i64::MIN), ev("new", i64::MAX)];
    let r = ReplayRun::start_at(batch, 1);
    assert_eq!(r.err(), Some(ReplayError::ClockOverflow));
}
