//! The replay scheduler: one run over one batch of events.
//!
//! A run owns the batch, stably sorted by ascending timestamp, anchored so
//! that the earliest event is due exactly at the run's start time and every
//! later event keeps its original distance from the earliest one. The caller
//! drives the run: ask for the next deadline, suspend until it, then dispatch.
//! A dispatch hands the head event to the outbound channel without blocking;
//! whatever the outcome, the event is consumed — a failed delivery is dropped,
//! never retried, and never stalls the run.

use vstd::prelude::*;

use crate::rewindable::Rewindable;
use crate::sorting::{sort_events, sorted_by_ts, stable_sorted, with_ts};

verus! {

/// The outcome of one non-blocking send attempt.
#[derive(Clone, Copy, Debug, PartialEq, Eq, Structural)]
pub enum SendOutcome {
    /// The channel accepted the event.
    Delivered,
    /// The channel was full: the event is dropped, never retried.
    WouldBlock,
    /// The channel was closed: the event is dropped.
    Closed,
}

/// Why a replay run could not be set up.
#[derive(Clone, Copy, Debug, PartialEq, Eq, Structural)]
pub enum ReplayError {
    /// Some shifted delivery instant falls outside the representable range of
    /// instants: the run fails loudly rather than truncate or wrap, since a
    /// silent truncation would corrupt the scheduling order.
    ClockOverflow,
}

/// The wall-clock instant at which an event originally stamped `ts` is due,
/// when the earliest timestamp of its batch is `anchor` and the run started
/// at `start_time`: the event keeps its original distance from the earliest
/// one, and the earliest one is due exactly at `start_time`.
pub open spec fn shifted_instant(ts: int, anchor: int, start_time: int) -> int {
    ts - anchor + start_time
}

/// Every shifted delivery instant of the sorted batch `s` is representable
/// as a microsecond instant when the run starts at `start_time`.
pub open spec fn replay_fits<T: Rewindable>(s: Seq<T>, start_time: int) -> bool {
    forall|i: int|
        0 <= i < s.len() ==> i64::MIN <= #[trigger] shifted_instant(
            s[i].ts(),
            s[0].ts(),
            start_time,
        ) <= i64::MAX
}

#[verifier::external_type_specification]
#[verifier::external_body]
#[verifier::reject_recursive_types(T)]
pub struct ExAsyncSender<T>(kanal::AsyncSender<T>);

/// Relies on kanal::AsyncSender::try_send: a non-blocking send that returns
/// Ok(true) when the channel accepted the value, Ok(false) when it would
/// block (full), and an error when it is closed; it never suspends the
/// caller. Which outcome comes back depends on the channel's state, so
/// nothing is promised of the result.
#[verifier::external_body]
fn try_send_event<T>(channel: &kanal::AsyncSender<T>, event: T) -> (r: SendOutcome) {
    match channel.try_send(event) {
        Ok(true) => SendOutcome::Delivered,
        Ok(false) => SendOutcome::WouldBlock,
        Err(_) => SendOutcome::Closed,
    }
}

/// Relies on chrono::Utc::now and chrono::DateTime::timestamp_micros: the
/// current wall-clock time in microseconds since the Unix epoch. Nothing can
/// be promised of a clock reading.
#[verifier::external_body]
fn now_micros() -> i64 {
    chrono::Utc::now().timestamp_micros()
}

/// One replay run over one batch.
pub struct ReplayRun<T> {
    /// The events not yet dispatched, in stably sorted timestamp order.
    pub events: Vec<T>,
    /// The events already handed to the channel (delivered or dropped), in
    /// dispatch order.
    pub attempted: Ghost<Seq<T>>,
    /// The earliest timestamp of the batch (0 for an empty batch).
    pub anchor: i64,
    /// The wall-clock instant the run started.
    pub start_time: i64,
}

impl<T: Rewindable> ReplayRun<T> {
    /// The whole batch: already dispatched events followed by pending ones.
    pub open spec fn full_batch(self) -> Seq<T> {
        self.attempted@ + self.events@
    }

    /// The wall-clock instant the pending event at index `i` is due.
    pub open spec fn deadline_of(self, i: int) -> int {
        shifted_instant(self.events@[i].ts(), self.anchor as int, self.start_time as int)
    }

    /// Every run established by `start_at` satisfies this and every dispatch
    /// preserves it: the batch is sorted, the anchor is the earliest
    /// timestamp, and every pending deadline is a representable instant.
    pub open spec fn wf(self) -> bool {
        &&& sorted_by_ts(self.full_batch())
        &&& self.full_batch().len() > 0 ==> self.anchor as int == self.full_batch()[0].ts()
        &&& forall|i: int|
            0 <= i < self.events@.len() ==> i64::MIN <= #[trigger] self.deadline_of(i) <= i64::MAX
    }

    /// Set up a replay run over `batch`, anchored at `start_time`: sort the
    /// batch stably by ascending timestamp and check that every shifted
    /// delivery instant is representable. An empty batch starts successfully
    /// with nothing pending. A batch with an unrepresentable shifted instant
    /// is refused whole, before any waiting or sending.
    #[verifier::loop_isolation(false)]
    pub fn start_at(batch: Vec<T>, start_time: i64) -> (r: Result<ReplayRun<T>, ReplayError>)
        ensures
            match r {
                Ok(run) => {
                    &&& run.wf()
                    &&& run.events@ == stable_sorted(batch@)
                    &&& run.attempted@ == Seq::<T>::empty()
                    &&& run.start_time == start_time
                    &&& replay_fits(stable_sorted(batch@), start_time as int)
                },
                Err(e) => {
                    &&& e == ReplayError::ClockOverflow
                    &&& !replay_fits(stable_sorted(batch@), start_time as int)
                },
            },
    {
        let ghost input = batch@;
        let mut events = batch;
        sort_events(&mut events);
        proof {
            crate::sorting::lemma_stable_sorted_sorted(input);
        }
        let anchor: i64 = if events.len() > 0 {
            events[0].timestamp()
        } else {
            0
        };
        let mut i: usize = 0;
        while i < events.len()
            invariant
                i <= events@.len(),
                events@ == stable_sorted(input),
                events@.len() > 0 ==> anchor as int == events@[0].ts(),
                forall|m: int|
                    0 <= m < i ==> i64::MIN <= #[trigger] shifted_instant(
                        events@[m].ts(),
                        events@[0].ts(),
                        start_time as int,
                    ) <= i64::MAX,
            decreases events@.len() - i,
        {
            let t = events[i].timestamp();
            let shifted: i128 = t as i128 - anchor as i128 + start_time as i128;
            if shifted < i64::MIN as i128 || shifted > i64::MAX as i128 {
                proof {
                    let s = stable_sorted(input);
                    assert(events@ == s);
                    assert(!(i64::MIN <= shifted_instant(
                        s[i as int].ts(),
                        s[0].ts(),
                        start_time as int,
                    ) <= i64::MAX));
                    assert(!replay_fits(s, start_time as int));
                }
                return Err(ReplayError::ClockOverflow);
            }
            i = i + 1;
        }
        let run = ReplayRun { events, attempted: Ghost(Seq::empty()), anchor, start_time };
        proof {
            assert(run.full_batch() =~= run.events@);
            assert forall|m: int| 0 <= m < run.events@.len() implies i64::MIN
                <= #[trigger] run.deadline_of(m) <= i64::MAX by {
                assert(run.deadline_of(m) == shifted_instant(
                    run.events@[m].ts(),
                    run.events@[0].ts(),
                    start_time as int,
                ));
            }
        }
        Ok(run)
    }

    /// Set up a replay run anchored to the present wall-clock moment.
    pub fn start(batch: Vec<T>) -> (r: Result<ReplayRun<T>, ReplayError>)
        ensures
            match r {
                Ok(run) => {
                    &&& run.wf()
                    &&& run.events@ == stable_sorted(batch@)
                    &&& run.attempted@ == Seq::<T>::empty()
                },
                Err(e) => {
                    &&& e == ReplayError::ClockOverflow
                    &&& exists|st: int| !replay_fits(stable_sorted(batch@), st)
                },
            },
    {
        let now = now_micros();
        Self::start_at(batch, now)
    }

    /// How many events are still pending.
    pub fn remaining(&self) -> (r: usize)
        ensures
            r == self.events@.len(),
    {
        self.events.len()
    }

    /// The wall-clock instant the next pending event is due, or `None` once
    /// the batch is exhausted. An instant not later than "now" asks for no
    /// suspension at all.
    pub fn next_deadline(&self) -> (r: Option<i64>)
        requires
            self.wf(),
        ensures
            match r {
                Some(d) => self.events@.len() > 0 && d as int == self.deadline_of(0),
                None => self.events@.len() == 0,
            },
    {
        if self.events.len() > 0 {
            let t = self.events[0].timestamp();
            let shifted: i128 = t as i128 - self.anchor as i128 + self.start_time as i128;
            proof {
                assert(self.deadline_of(0) == shifted as int);
            }
            Some(shifted as i64)
        } else {
            None
        }
    }

    /// Hand the next pending event to the channel without blocking. The
    /// event is consumed whatever the outcome: on backpressure or a closed
    /// channel it is dropped, never retried, and the following event is
    /// still attempted at its own deadline. Returns `None` once the batch is
    /// exhausted, without touching the channel.
    pub fn dispatch(&mut self, channel: &kanal::AsyncSender<T>) -> (r: Option<SendOutcome>)
        ensures
            final(self).anchor == old(self).anchor,
            final(self).start_time == old(self).start_time,
            final(self).full_batch() == old(self).full_batch(),
            old(self).events@.len() > 0 ==> {
                &&& final(self).events@ == old(self).events@.drop_first()
                &&& final(self).attempted@ == old(self).attempted@.push(old(self).events@[0])
                &&& r is Some
            },
            old(self).events@.len() == 0 ==> *final(self) == *old(self) && r is None,
            old(self).wf() ==> final(self).wf(),
    {
        if self.events.len() > 0 {
            let ev = self.events.remove(0);
            proof {
                self.attempted@ = self.attempted@.push(ev);
            }
            let outcome = try_send_event(channel, ev);
            proof {
                assert(final(self).events@ =~= old(self).events@.drop_first());
                assert(final(self).full_batch() =~= old(self).full_batch());
                if old(self).wf() {
                    assert forall|m: int| 0 <= m < final(self).events@.len() implies i64::MIN
                        <= #[trigger] final(self).deadline_of(m) <= i64::MAX by {
                        assert(final(self).events@[m] == old(self).events@[m + 1]);
                        assert(old(self).deadline_of(m + 1) == final(self).deadline_of(m));
                    }
                }
            }
            Some(outcome)
        } else {
            None
        }
    }
}

/// Ordering invariant: the stably sorted batch every run dispatches in order
/// has ascending timestamps, is a permutation of the input batch, and keeps
/// the original input order among events sharing a timestamp.
pub proof fn lemma_replay_ordering<T: Rewindable>(batch: Seq<T>)
    ensures
        sorted_by_ts(stable_sorted(batch)),
        stable_sorted(batch).len() == batch.len(),
        stable_sorted(batch).to_multiset() =~= batch.to_multiset(),
        forall|k: int| #[trigger] stable_sorted(batch).filter(with_ts(k)) == batch.filter(
            with_ts(k),
        ),
{
    crate::sorting::lemma_stable_sorted_sorted(batch);
    crate::sorting::lemma_stable_sorted_len(batch);
    crate::sorting::lemma_stable_sorted_multiset(batch);
    assert forall|k: int| #[trigger] stable_sorted(batch).filter(with_ts(k)) == batch.filter(
        with_ts(k),
    ) by {
        crate::sorting::lemma_stable_sorted_stable(batch, k);
    }
}

/// The dispatch order of a well-formed run is itself sorted by ascending
/// timestamp: what was observed on the channel so far never goes backwards.
pub proof fn lemma_attempted_ordered<T: Rewindable>(run: ReplayRun<T>)
    requires
        run.wf(),
    ensures
        sorted_by_ts(run.attempted@),
{
    assert forall|i: int, j: int|
        0 <= i <= j < run.attempted@.len() implies #[trigger] run.attempted@[i].ts()
        <= #[trigger] run.attempted@[j].ts() by {
        assert(run.full_batch()[i] == run.attempted@[i]);
        assert(run.full_batch()[j] == run.attempted@[j]);
    }
}

/// Empty-batch idempotence: an empty batch always starts successfully, with
/// nothing pending — so a replay of it makes no channel interaction and
/// waits for nothing.
pub proof fn lemma_empty_batch<T: Rewindable>(batch: Seq<T>, start_time: int)
    requires
        batch.len() == 0,
    ensures
        stable_sorted(batch) =~= Seq::<T>::empty(),
        replay_fits(stable_sorted(batch), start_time),
{
}

/// Single-event immediacy: a run over a batch of one event has exactly one
/// pending dispatch, due exactly at the run's start time — no unbounded wait
/// can precede it.
pub proof fn lemma_single_event_immediate<T: Rewindable>(run: ReplayRun<T>, batch: Seq<T>)
    requires
        batch.len() == 1,
        run.wf(),
        run.attempted@ == Seq::<T>::empty(),
        run.events@ == stable_sorted(batch),
    ensures
        run.events@.len() == 1,
        run.deadline_of(0) == run.start_time as int,
{
    crate::sorting::lemma_stable_sorted_len(batch);
    assert(run.full_batch() =~= run.events@);
}

/// Backpressure drop: a dispatch consumes exactly the head event, whatever
/// the send's outcome, and every event behind it keeps its own deadline —
/// a dropped event is never retried and never delays its successors.
pub proof fn lemma_drop_never_retries<T: Rewindable>(
    before: ReplayRun<T>,
    after: ReplayRun<T>,
    m: int,
)
    requires
        after.events@ == before.events@.drop_first(),
        after.anchor == before.anchor,
        after.start_time == before.start_time,
        before.events@.len() > 0,
        0 <= m < after.events@.len(),
    ensures
        after.deadline_of(m) == before.deadline_of(m + 1),
{
}

/// Relative-spacing preservation: any two pending deadlines of a run differ
/// by exactly the original timestamp gap of their events.
pub proof fn lemma_relative_spacing<T: Rewindable>(run: ReplayRun<T>, i: int, j: int)
    requires
        0 <= i < run.events@.len(),
        0 <= j < run.events@.len(),
    ensures
        run.deadline_of(j) - run.deadline_of(i) == run.events@[j].ts() - run.events@[i].ts(),
{
}

} // verus!
