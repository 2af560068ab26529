//! Temporal joins: correlate events of two streams by entity and time proximity.
use vstd::prelude::*;
use std::collections::VecDeque;
use crate::time::{Timestamp, Duration, trunc_div};
use crate::event::{Event, EventView, OutputEvent, OutputView, Payload, JoinedEvent};
use crate::window::events_view;

verus! {

/// Join semantics.
#[derive(Clone, Copy, Debug, PartialEq, Eq, Structural)]
pub enum JoinType {
    /// Both sides must match within the window.
    Inner,
    /// The left side always emits; the right side is optional.
    LeftOuter,
}

/// A temporal join operator that correlates events from two streams by
/// entity id and temporal proximity.
pub struct TemporalJoin {
    name: String,
    window: Duration,
    join_type: JoinType,
    /// Buffered left-side events waiting for a match.
    left_buffer: VecDeque<Event>,
    /// Buffered right-side events waiting for a match.
    right_buffer: VecDeque<Event>,
}

/// The content of a [`TemporalJoin`].
pub struct JoinView {
    pub name: Seq<char>,
    pub window: Duration,
    pub join_type: JoinType,
    pub left: Seq<EventView>,
    pub right: Seq<EventView>,
}

impl View for TemporalJoin {
    type V = JoinView;

    closed spec fn view(&self) -> JoinView {
        JoinView {
            name: self.name@,
            window: self.window,
            join_type: self.join_type,
            left: events_view(self.left_buffer@),
            right: events_view(self.right_buffer@),
        }
    }
}

/// Whole milliseconds from `b` to `a`, rounded toward zero.
pub open spec fn diff_ms(a: Timestamp, b: Timestamp) -> int {
    trunc_div(a.nanos - b.nanos, 1_000_000)
}

/// The absolute value of `x`.
pub open spec fn abs(x: int) -> int {
    if x < 0 { -x } else { x }
}

/// The join window in whole milliseconds, as `u64` (truncated as `as` does).
pub open spec fn window_ms_u64(j: JoinView) -> u64 {
    (j.window.spec_nanos() / 1_000_000) as u64
}

/// The join window in whole milliseconds, as `i64` (truncated as `as` does).
pub open spec fn window_ms_i64(j: JoinView) -> i64 {
    (j.window.spec_nanos() / 1_000_000) as i64
}

/// Does buffered event `c` match `e`: same entity, and at most the window apart?
pub open spec fn is_match(j: JoinView, e: EventView, c: EventView) -> bool {
    c.entity_id == e.entity_id && abs(diff_ms(e.timestamp, c.timestamp)) <= window_ms_u64(j)
}

/// Is `e` still kept at time `now`: no older than twice the window?
pub open spec fn is_kept(j: JoinView, now: Timestamp, e: EventView) -> bool {
    diff_ms(now, e.timestamp) <= window_ms_i64(j) * 2
}

/// Do all events in a buffer have representable times?
pub open spec fn buffer_wf(b: Seq<EventView>) -> bool {
    forall|i: int| 0 <= i < b.len() ==> #[trigger] b[i].timestamp.wf()
}

/// The join's buffers hold representable times and its window is well formed.
pub open spec fn join_wf(j: JoinView) -> bool {
    &&& j.window.wf()
    &&& buffer_wf(j.left)
    &&& buffer_wf(j.right)
}

/// The join after dropping the events that are no longer kept at `now`.
pub open spec fn expired_at(j: JoinView, now: Timestamp) -> JoinView {
    JoinView {
        left: j.left.filter(|e: EventView| is_kept(j, now, e)),
        right: j.right.filter(|e: EventView| is_kept(j, now, e)),
        ..j
    }
}

/// The events of `buffer` that match `e`, in buffer order.
pub open spec fn matches_in(j: JoinView, e: EventView, buffer: Seq<EventView>) -> Seq<EventView> {
    buffer.filter(|c: EventView| is_match(j, e, c))
}

/// Does `o` report the join of `left` with `right` by the join `j`?
pub open spec fn is_join_output(o: OutputView, j: JoinView, left: EventView, right: Option<EventView>) -> bool {
    &&& o.source_event == left
    &&& o.operator == j.name
    &&& match o.payload {
        Payload::Join { join_type, left_entity, left_time, right: r } => {
            &&& join_type == j.join_type
            &&& left_entity@ == left.entity_id
            &&& left_time == left.timestamp
            &&& match (r, right) {
                (Some(x), Some(y)) => x.entity@ == y.entity_id && x.time == y.timestamp && x.lon == y.lon
                    && x.lat == y.lat,
                (None, None) => true,
                _ => false,
            }
        },
        _ => false,
    }
}

/// Matching is symmetric: an event matches a buffered one exactly when the
/// buffered one, arriving on the other side, would match it.
pub proof fn law_match_symmetric(j: JoinView, a: EventView, b: EventView)
    ensures
        is_match(j, a, b) == is_match(j, b, a),
{
    let x = a.timestamp.nanos - b.timestamp.nanos;
    assert(diff_ms(a.timestamp, b.timestamp) == trunc_div(x, 1_000_000));
    assert(diff_ms(b.timestamp, a.timestamp) == trunc_div(-x, 1_000_000));
    assert(trunc_div(-x, 1_000_000) == -trunc_div(x, 1_000_000));
}

/// Can `now` be compared with every buffered event without overflow?
pub open spec fn expire_ok(j: JoinView, now: Timestamp) -> bool {
    &&& now.wf()
    &&& i64::MIN <= window_ms_i64(j) * 2 <= i64::MAX
}

impl TemporalJoin {
    /// A join with empty buffers.
    pub fn new(name: &str, window: Duration, join_type: JoinType) -> (r: TemporalJoin)
        ensures
            r@ == (JoinView { name: name@, window, join_type, left: Seq::empty(), right: Seq::empty() }),
    {
        let r = TemporalJoin {
            name: name.to_owned(),
            window,
            join_type,
            left_buffer: VecDeque::new(),
            right_buffer: VecDeque::new(),
        };
        assert(events_view(r.left_buffer@) =~= Seq::<EventView>::empty());
        assert(events_view(r.right_buffer@) =~= Seq::<EventView>::empty());
        r
    }

    /// The join output for `left` and an optional `right`.
    fn emit_join(&self, left: &Event, right: Option<&Event>) -> (r: OutputEvent)
        ensures
            is_join_output(r@, self@, left@, match right { Some(e) => Some(e@), None => None }),
    {
        let joined: Option<JoinedEvent> = match right {
            Some(e) => Some(JoinedEvent { entity: e.entity_id.clone(), time: e.timestamp, lon: e.lon, lat: e.lat }),
            None => None,
        };
        OutputEvent {
            source_event: left.clone(),
            operator: self.name.clone(),
            payload: Payload::Join {
                join_type: self.join_type,
                left_entity: left.entity_id.clone(),
                left_time: left.timestamp,
                right: joined,
            },
        }
    }
}

/// Keeps the buffered events that are kept at `now` (see `is_kept`), in order.
fn retain_kept(buffer: &mut VecDeque<Event>, now: Timestamp, limit: i64, ghost_j: Ghost<JoinView>)
    requires
        now.wf(),
        buffer_wf(events_view(old(buffer)@)),
        limit == window_ms_i64(ghost_j@) * 2,
    ensures
        events_view(final(buffer)@) == events_view(old(buffer)@).filter(|e: EventView| is_kept(ghost_j@, now, e)),
        buffer_wf(events_view(final(buffer)@)),
{
    let ghost src = events_view(buffer@);
    let ghost pred = |e: EventView| is_kept(ghost_j@, now, e);
    let mut rest: VecDeque<Event> = VecDeque::new();
    std::mem::swap(&mut rest, buffer);
    let ghost mut i: int = 0;
    while rest.len() > 0
        invariant
            0 <= i <= src.len(),
            rest@.len() == src.len() - i,
            events_view(rest@) == src.subrange(i, src.len() as int),
            events_view(buffer@) == src.subrange(0, i).filter(pred),
            buffer_wf(src),
            now.wf(),
            limit == window_ms_i64(ghost_j@) * 2,
            pred == (|e: EventView| is_kept(ghost_j@, now, e)),
        decreases rest@.len(),
    {
        let ghost before = rest@;
        assert(events_view(before)[0] == src[i]);
        let e: Event = rest.pop_front().unwrap();
        assert forall|k: int| 0 <= k < rest@.len() implies events_view(rest@)[k] == src.subrange(i + 1, src.len() as int)[k] by {
            assert(rest@[k] == before[k + 1]);
            assert(events_view(before)[k + 1] == src.subrange(i, src.len() as int)[k + 1]);
        }
        assert(events_view(rest@) =~= src.subrange(i + 1, src.len() as int));
        assert(src.subrange(0, i + 1).drop_last() =~= src.subrange(0, i));
        assert(src.subrange(0, i + 1).last() == src[i]);
        assert(src[i].timestamp.wf());
        proof {
            reveal_with_fuel(Seq::<_>::filter, 1);
        }
        let age = now.signed_duration_since(e.timestamp);
        if age.num_milliseconds() <= limit {
            let ghost b = buffer@;
            buffer.push_back(e);
            assert(events_view(buffer@) =~= events_view(b).push(src[i]));
        }
        proof {
            i = i + 1;
        }
    }
    assert(src.subrange(0, i) =~= src);
    proof {
        let f = src.filter(pred);
        assert forall|k: int| 0 <= k < f.len() implies #[trigger] f[k].timestamp.wf() by {
            assert(f.contains(f[k]));
            src.lemma_filter_contains_rev(pred, f[k]);
        }
    }
}

/// Is `e` overdue at `now`: more than the window old?
pub open spec fn is_overdue(j: JoinView, now: Timestamp, e: EventView) -> bool {
    diff_ms(now, e.timestamp) > window_ms_i64(j)
}

/// The number of leading events of `b` that are overdue at `now`.
pub open spec fn overdue_prefix(j: JoinView, now: Timestamp, b: Seq<EventView>) -> nat
    decreases b.len(),
{
    if b.len() == 0 {
        0
    } else if is_overdue(j, now, b[0]) {
        1 + overdue_prefix(j, now, b.subrange(1, b.len() as int))
    } else {
        0
    }
}

proof fn lemma_overdue_prefix_bound(j: JoinView, now: Timestamp, b: Seq<EventView>)
    ensures
        overdue_prefix(j, now, b) <= b.len(),
    decreases b.len(),
{
    if b.len() > 0 && is_overdue(j, now, b[0]) {
        lemma_overdue_prefix_bound(j, now, b.subrange(1, b.len() as int));
    }
}

impl TemporalJoin {
    /// The buffered events of `buffer` that match `event`, in order.
    fn find_matches(&self, event: &Event, buffer: &VecDeque<Event>) -> (r: Vec<Event>)
        requires
            event.wf(),
            buffer_wf(events_view(buffer@)),
            self@.window.wf(),
        ensures
            events_view(r@) == matches_in(self@, event@, events_view(buffer@)),
            buffer_wf(events_view(r@)),
    {
        let ghost src = events_view(buffer@);
        let ghost pred = |c: EventView| is_match(self@, event@, c);
        let w: u64 = self.window.as_millis() as u64;
        let mut out: Vec<Event> = Vec::new();
        let mut i: usize = 0;
        while i < buffer.len()
            invariant
                i <= src.len(),
                src == events_view(buffer@),
                buffer_wf(src),
                event.wf(),
                w == window_ms_u64(self@),
                pred == (|c: EventView| is_match(self@, event@, c)),
                events_view(out@) == src.subrange(0, i as int).filter(pred),
                buffer_wf(events_view(out@)),
            decreases src.len() - i,
        {
            let c: &Event = &buffer[i];
            assert(c@ == src[i as int]);
            assert(src[i as int].timestamp.wf());
            assert(src.subrange(0, i as int + 1).drop_last() =~= src.subrange(0, i as int));
            assert(src.subrange(0, i as int + 1).last() == src[i as int]);
            proof {
                reveal_with_fuel(Seq::<_>::filter, 1);
            }
            if c.entity_id == event.entity_id {
                let d: i64 = event.timestamp.signed_duration_since(c.timestamp).num_milliseconds();
                let a: u64 = if d < 0 { (0i128 - (d as i128)) as u64 } else { d as u64 };
                if a <= w {
                    let ghost o = out@;
                    out.push(c.clone());
                    assert(events_view(out@) =~= events_view(o).push(src[i as int]));
                }
            }
            i = i + 1;
        }
        assert(src.subrange(0, i as int) =~= src);
        out
    }

    /// Drops buffered events more than twice the window older than `now`.
    fn expire_old(&mut self, now: Timestamp)
        requires
            join_wf(old(self)@),
            expire_ok(old(self)@, now),
        ensures
            final(self)@ == expired_at(old(self)@, now),
            join_wf(final(self)@),
    {
        let w: i64 = self.window.as_millis() as i64;
        let limit: i64 = w * 2;
        let ghost j = self@;
        retain_kept(&mut self.left_buffer, now, limit, Ghost(j));
        retain_kept(&mut self.right_buffer, now, limit, Ghost(j));
    }

    /// Joins a left-stream event: buffers it if no buffered right event
    /// matches, or else emits one join per match, in buffer order. Events
    /// more than twice the window older than it are dropped first.
    pub fn push_left(&mut self, event: Event) -> (r: Vec<OutputEvent>)
        requires
            join_wf(old(self)@),
            event.wf(),
            expire_ok(old(self)@, event.timestamp),
        ensures
            join_wf(final(self)@),
            ({
                let s = expired_at(old(self)@, event.timestamp);
                let m = matches_in(s, event@, s.right);
                if m.len() == 0 {
                    &&& final(self)@ == (JoinView { left: s.left.push(event@), ..s })
                    &&& r@.len() == 0
                } else {
                    &&& final(self)@ == s
                    &&& r@.len() == m.len()
                    &&& forall|i: int| 0 <= i < m.len() ==> is_join_output(#[trigger] r@[i]@, old(self)@, event@, Some(m[i]))
                }
            }),
    {
        self.expire_old(event.timestamp);
        let matches: Vec<Event> = self.find_matches(&event, &self.right_buffer);
        let mut out: Vec<OutputEvent> = Vec::new();
        if matches.len() == 0 {
            let ghost b = self.left_buffer@;
            self.left_buffer.push_back(event);
            assert(events_view(self.left_buffer@) =~= events_view(b).push(event@));
            return out;
        }
        let mut i: usize = 0;
        while i < matches.len()
            invariant
                i <= matches@.len(),
                out@.len() == i,
                forall|k: int| 0 <= k < i ==> is_join_output(#[trigger] out@[k]@, self@, event@, Some(matches@[k]@)),
            decreases matches@.len() - i,
        {
            let o: OutputEvent = self.emit_join(&event, Some(&matches[i]));
            out.push(o);
            i = i + 1;
        }
        out
    }

    /// Joins a right-stream event: buffers it if no buffered left event
    /// matches, or else emits one join per match (the left event as the
    /// source), in buffer order. Events more than twice the window older than
    /// it are dropped first.
    pub fn push_right(&mut self, event: Event) -> (r: Vec<OutputEvent>)
        requires
            join_wf(old(self)@),
            event.wf(),
            expire_ok(old(self)@, event.timestamp),
        ensures
            join_wf(final(self)@),
            ({
                let s = expired_at(old(self)@, event.timestamp);
                let m = matches_in(s, event@, s.left);
                if m.len() == 0 {
                    &&& final(self)@ == (JoinView { right: s.right.push(event@), ..s })
                    &&& r@.len() == 0
                } else {
                    &&& final(self)@ == s
                    &&& r@.len() == m.len()
                    &&& forall|i: int| 0 <= i < m.len() ==> is_join_output(#[trigger] r@[i]@, old(self)@, m[i], Some(event@))
                }
            }),
    {
        self.expire_old(event.timestamp);
        let matches: Vec<Event> = self.find_matches(&event, &self.left_buffer);
        let mut out: Vec<OutputEvent> = Vec::new();
        if matches.len() == 0 {
            let ghost b = self.right_buffer@;
            self.right_buffer.push_back(event);
            assert(events_view(self.right_buffer@) =~= events_view(b).push(event@));
            return out;
        }
        let mut i: usize = 0;
        while i < matches.len()
            invariant
                i <= matches@.len(),
                out@.len() == i,
                forall|k: int| 0 <= k < i ==> is_join_output(#[trigger] out@[k]@, self@, matches@[k]@, Some(event@)),
            decreases matches@.len() - i,
        {
            let o: OutputEvent = self.emit_join(&matches[i], Some(&event));
            out.push(o);
            i = i + 1;
        }
        out
    }

    /// For a left-outer join, emits (with no right side) and drops the
    /// leading left events that are more than the window older than `now`;
    /// an inner join emits nothing and keeps its buffers.
    pub fn flush_expired(&mut self, now: Timestamp) -> (r: Vec<OutputEvent>)
        requires
            join_wf(old(self)@),
            now.wf(),
        ensures
            join_wf(final(self)@),
            old(self)@.join_type != JoinType::LeftOuter ==> final(self)@ == old(self)@ && r@.len() == 0,
            old(self)@.join_type == JoinType::LeftOuter ==> ({
                let k = overdue_prefix(old(self)@, now, old(self)@.left) as int;
                &&& final(self)@ == (JoinView { left: old(self)@.left.subrange(k, old(self)@.left.len() as int), ..old(self)@ })
                &&& r@.len() == k
                &&& forall|i: int| 0 <= i < k ==> is_join_output(#[trigger] r@[i]@, old(self)@, old(self)@.left[i], None)
            }),
    {
        let mut out: Vec<OutputEvent> = Vec::new();
        if self.join_type != JoinType::LeftOuter {
            return out;
        }
        let ghost j0 = self@;
        let w: i64 = self.window.as_millis() as i64;
        let ghost mut k: int = 0;
        proof {
            lemma_overdue_prefix_bound(j0, now, j0.left);
        }
        assert(j0.left.subrange(0, j0.left.len() as int) =~= j0.left);
        loop
            invariant
                0 <= k <= j0.left.len(),
                k <= overdue_prefix(j0, now, j0.left),
                overdue_prefix(j0, now, j0.left) == k + overdue_prefix(j0, now, j0.left.subrange(k, j0.left.len() as int)),
                self@ == (JoinView { left: j0.left.subrange(k, j0.left.len() as int), ..j0 }),
                join_wf(j0),
                join_wf(self@),
                now.wf(),
                w == window_ms_i64(j0),
                out@.len() == k,
                forall|i: int| 0 <= i < k ==> is_join_output(#[trigger] out@[i]@, j0, j0.left[i], None),
            ensures
                k == overdue_prefix(j0, now, j0.left),
                self@ == (JoinView { left: j0.left.subrange(k, j0.left.len() as int), ..j0 }),
                join_wf(self@),
                out@.len() == k,
                forall|i: int| 0 <= i < k ==> is_join_output(#[trigger] out@[i]@, j0, j0.left[i], None),
            decreases j0.left.len() - k,
        {
            if self.left_buffer.len() == 0 {
                break;
            }
            let ghost rest = j0.left.subrange(k, j0.left.len() as int);
            assert(events_view(self.left_buffer@)[0] == rest[0]);
            assert(rest[0].timestamp.wf());
            let age: i64 = now.signed_duration_since(self.left_buffer[0].timestamp).num_milliseconds();
            if age <= w {
                break;
            }
            let ghost before = self.left_buffer@;
            let expired: Event = self.left_buffer.pop_front().unwrap();
            assert(rest.subrange(1, rest.len() as int) =~= j0.left.subrange(k + 1, j0.left.len() as int));
            assert forall|m: int| 0 <= m < self.left_buffer@.len() implies events_view(self.left_buffer@)[m] == j0.left.subrange(k + 1, j0.left.len() as int)[m] by {
                assert(self.left_buffer@[m] == before[m + 1]);
            }
            assert(events_view(self.left_buffer@) =~= j0.left.subrange(k + 1, j0.left.len() as int));
            let o: OutputEvent = self.emit_join(&expired, None);
            out.push(o);
            proof {
                k = k + 1;
            }
        }
        out
    }
}

} // verus!
