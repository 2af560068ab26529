//! Replay timing: the gaps between historical events and the span they cover.
use vstd::prelude::*;
use crate::time::{Timestamp, trunc_div};
use crate::event::Event;

verus! {

/// Statistics from a replay session.
#[derive(Clone, Copy, Debug, PartialEq, Eq, Structural)]
pub struct ReplayStats {
    pub events_replayed: u64,
    pub wall_time_ms: u64,
    pub original_duration_ms: u64,
}

/// Whole milliseconds from `from` to `to`, rounded toward zero.
pub open spec fn span_ms(from: Timestamp, to: Timestamp) -> int {
    trunc_div(to.nanos - from.nanos, 1_000_000)
}

/// The length in milliseconds of the recording from `first` to `last`
/// (its absolute value, should `last` come first).
pub fn original_duration_ms(first: Timestamp, last: Timestamp) -> (r: u64)
    requires
        first.wf(),
        last.wf(),
    ensures
        r == (if span_ms(first, last) < 0 { -span_ms(first, last) } else { span_ms(first, last) }),
{
    let d: i64 = last.signed_duration_since(first).num_milliseconds();
    if d < 0 {
        (0i128 - (d as i128)) as u64
    } else {
        d as u64
    }
}

/// The wait in milliseconds between replaying an event at `prev` and one
/// at `next` in real time: the gap, or zero where `next` is not later.
pub open spec fn gap_spec(prev: Timestamp, next: Timestamp) -> int {
    if span_ms(prev, next) < 0 { 0 } else { span_ms(prev, next) }
}

/// The wait in milliseconds between replaying an event at `prev` and one
/// at `next` in real time: the gap, or zero where `next` is not later.
pub fn gap_ms(prev: Timestamp, next: Timestamp) -> (r: u64)
    requires
        prev.wf(),
        next.wf(),
    ensures
        r == gap_spec(prev, next),
{
    let d: i64 = next.signed_duration_since(prev).num_milliseconds();
    if d < 0 {
        0
    } else {
        d as u64
    }
}

/// The waits in milliseconds before each of `events` when they are
/// replayed in real time: none before the first, then the gap from the
/// event before it.
pub fn replay_gaps(events: &Vec<Event>) -> (r: Vec<u64>)
    requires
        forall|i: int| 0 <= i < events@.len() ==> #[trigger] events@[i].wf(),
    ensures
        r@.len() == events@.len(),
        events@.len() > 0 ==> r@[0] == 0,
        forall|i: int|
            0 < i < events@.len() ==> #[trigger] r@[i] == gap_spec(events@[i - 1].timestamp, events@[i].timestamp),
{
    let mut r: Vec<u64> = Vec::new();
    let mut i: usize = 0;
    while i < events.len()
        invariant
            i <= events@.len(),
            r@.len() == i,
            forall|k: int| 0 <= k < events@.len() ==> #[trigger] events@[k].wf(),
            i > 0 ==> r@[0] == 0,
            forall|k: int| 0 < k < i ==> #[trigger] r@[k] == gap_spec(events@[k - 1].timestamp, events@[k].timestamp),
        decreases events@.len() - i,
    {
        if i == 0 {
            r.push(0);
        } else {
            assert(events@[i - 1].wf() && events@[i as int].wf());
            let g: u64 = gap_ms(events[i - 1].timestamp, events[i].timestamp);
            r.push(g);
        }
        i = i + 1;
    }
    r
}

} // verus!
