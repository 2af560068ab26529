//! Watermark tracking for event-time progress.
use vstd::prelude::*;
use crate::time::{Timestamp, TimeDelta, instant_in_range};

verus! {

/// Tracks the progress of event time across a stream. Events with
/// timestamps older than the watermark are considered late.
pub struct Watermark {
    /// Current watermark position.
    current: Timestamp,
    /// Maximum allowed lateness before events are dropped.
    max_lateness: TimeDelta,
    /// How many late events have been observed.
    late_count: u64,
}

/// The content of a [`Watermark`].
pub struct WatermarkView {
    pub current: Timestamp,
    pub max_lateness: TimeDelta,
    pub late_count: u64,
}

impl View for Watermark {
    type V = WatermarkView;

    closed spec fn view(&self) -> WatermarkView {
        WatermarkView { current: self.current, max_lateness: self.max_lateness, late_count: self.late_count }
    }
}

/// Can `advance(t)` run on `w` without overflow (of time or of the late count)?
pub open spec fn advance_ok(w: WatermarkView, t: Timestamp) -> bool {
    if t.nanos >= w.current.nanos {
        instant_in_range(t.nanos - w.max_lateness.nanos)
    } else {
        &&& instant_in_range(w.current.nanos - w.max_lateness.nanos)
        &&& w.late_count < u64::MAX
    }
}

/// Is `t` on time for `w`: not older than the watermark less the allowed lateness?
pub open spec fn accepted(w: WatermarkView, t: Timestamp) -> bool {
    t.nanos >= w.current.nanos || t.nanos >= w.current.nanos - w.max_lateness.nanos
}

/// The watermark after observing `t`: an event at or after the watermark
/// moves it up to the event time less the allowed lateness (it never moves
/// back); an earlier event is counted as late.
pub open spec fn advanced(w: WatermarkView, t: Timestamp) -> WatermarkView {
    if t.nanos >= w.current.nanos {
        if t.nanos - w.max_lateness.nanos > w.current.nanos {
            WatermarkView { current: Timestamp { nanos: (t.nanos - w.max_lateness.nanos) as i128 }, ..w }
        } else {
            w
        }
    } else {
        WatermarkView { late_count: (w.late_count + 1) as u64, ..w }
    }
}

impl Watermark {
    /// A watermark at the Unix epoch with no late events yet.
    pub fn new(max_lateness: TimeDelta) -> (r: Watermark)
        ensures
            r@ == (WatermarkView { current: Timestamp { nanos: 0 }, max_lateness, late_count: 0 }),
    {
        Watermark { current: Timestamp::from_timestamp(0, 0).unwrap(), max_lateness, late_count: 0 }
    }

    /// Observes an event time: an event at or after the watermark moves the
    /// watermark up to its time less the allowed lateness (never back); an
    /// earlier one is counted as late. Returns whether the event is accepted.
    pub fn advance(&mut self, event_time: &Timestamp) -> (r: bool)
        requires
            advance_ok(old(self)@, *event_time),
        ensures
            r == accepted(old(self)@, *event_time),
            final(self)@ == advanced(old(self)@, *event_time),
    {
        if event_time.nanos >= self.current.nanos {
            let candidate: Timestamp = event_time.sub(self.max_lateness);
            if candidate.nanos > self.current.nanos {
                self.current = candidate;
            }
            true
        } else if event_time.nanos >= self.current.sub(self.max_lateness).nanos {
            self.late_count = self.late_count + 1;
            true
        } else {
            self.late_count = self.late_count + 1;
            false
        }
    }

    /// The current watermark position.
    pub fn current(&self) -> (r: &Timestamp)
        ensures
            *r == self@.current,
    {
        &self.current
    }

    /// The number of late events observed.
    pub fn late_count(&self) -> (r: u64)
        ensures
            r == self@.late_count,
    {
        self.late_count
    }

    /// Is `ts` before the current watermark?
    pub fn is_late(&self, ts: &Timestamp) -> (r: bool)
        ensures
            r == (ts.nanos < self@.current.nanos),
    {
        ts.nanos < self.current.nanos
    }
}

/// The watermark only advances: observing any event never moves it back
/// in event time.
pub proof fn law_watermark_never_moves_back(w: WatermarkView, t: Timestamp)
    requires
        advance_ok(w, t),
    ensures
        advanced(w, t).current.nanos >= w.current.nanos,
{
}

/// A late event never moves the watermark, and an event at or after the
/// watermark never counts as late.
pub proof fn law_late_events_keep_watermark(w: WatermarkView, t: Timestamp)
    requires
        w.late_count < u64::MAX,
    ensures
        t.nanos < w.current.nanos ==> advanced(w, t).current == w.current && advanced(w, t).late_count == w.late_count + 1,
        t.nanos >= w.current.nanos ==> advanced(w, t).late_count == w.late_count,
{
}

/// An event is refused exactly when it is older than the watermark less the
/// allowed lateness, for a watermark whose lateness is not negative.
pub proof fn law_refused_iff_beyond_tolerance(w: WatermarkView, t: Timestamp)
    requires
        w.max_lateness.nanos >= 0,
    ensures
        !accepted(w, t) <==> t.nanos < w.current.nanos - w.max_lateness.nanos,
{
}

} // verus!
