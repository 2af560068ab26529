//! Windowing strategies for stream aggregation.
use vstd::prelude::*;
use crate::time::{Timestamp, TimeDelta, trunc_div, instant_in_range, NANOS_PER_MILLI};
use crate::event::{Event, EventView};
use crate::keyed::{
    key_index, keys_of, view_keys, find_key, lemma_key_index, lemma_key_index_at, lemma_key_index_absent,
    lemma_update_keeps_keys, lemma_push_new_key,
};

verus! {

/// Window assignment strategy.
#[allow(inconsistent_fields)]
#[derive(Clone, Copy, Debug, PartialEq, Eq, Structural)]
pub enum WindowStrategy {
    /// Fixed-size non-overlapping windows.
    Tumbling { duration: TimeDelta },
    /// Overlapping windows with a slide interval.
    Sliding { size: TimeDelta, slide: TimeDelta },
    /// Session windows that close after inactivity.
    Session { gap: TimeDelta },
    /// Count-based windows.
    Count { size: usize },
}

/// A window instance holding accumulated events.
#[derive(Debug)]
pub struct Window {
    /// Window start time.
    pub start: Timestamp,
    /// Window end time.
    pub end: Timestamp,
    /// Events in this window per entity id, one entry per entity, in order
    /// of the entity's first event.
    pub events: Vec<(String, Vec<Event>)>,
}

/// The mathematical content of a [`Window`].
pub struct WindowView {
    pub start: Timestamp,
    pub end: Timestamp,
    pub events: Seq<(Seq<char>, Seq<EventView>)>,
}

/// Views of a sequence of events.
pub open spec fn events_view(es: Seq<Event>) -> Seq<EventView> {
    es.map_values(|e: Event| e@)
}

/// Views of per-entity event lists.
pub open spec fn entries_view(es: Seq<(String, Vec<Event>)>) -> Seq<(Seq<char>, Seq<EventView>)> {
    es.map_values(|p: (String, Vec<Event>)| (p.0@, events_view(p.1@)))
}

impl View for Window {
    type V = WindowView;

    open spec fn view(&self) -> WindowView {
        WindowView { start: self.start, end: self.end, events: entries_view(self.events@) }
    }
}

/// The per-entity lists after appending `e` to the list of its entity
/// (a new list at the end if the entity has none yet).
pub open spec fn add_to_entries(
    es: Seq<(Seq<char>, Seq<EventView>)>,
    e: EventView,
) -> Seq<(Seq<char>, Seq<EventView>)> {
    let i = key_index(view_keys(es), e.entity_id);
    if i >= 0 {
        es.update(i, (es[i].0, es[i].1.push(e)))
    } else {
        es.push((e.entity_id, seq![e]))
    }
}

/// The number of events over all entities.
pub open spec fn total_count(es: Seq<(Seq<char>, Seq<EventView>)>) -> nat
    decreases es.len(),
{
    if es.len() == 0 {
        0
    } else {
        total_count(es.drop_last()) + es.last().1.len()
    }
}

impl WindowView {
    /// An empty window over `[start, end)`.
    pub open spec fn empty(start: Timestamp, end: Timestamp) -> WindowView {
        WindowView { start, end, events: Seq::empty() }
    }

    /// The window with `e` added.
    pub open spec fn add(self, e: EventView) -> WindowView {
        WindowView { events: add_to_entries(self.events, e), ..self }
    }

    /// Total event count across all entities.
    pub open spec fn count(self) -> nat {
        total_count(self.events)
    }

    /// The latest event of entity `id` in this window, if any.
    pub open spec fn last_of(self, id: Seq<char>) -> Option<EventView> {
        let i = key_index(view_keys(self.events), id);
        if i >= 0 && self.events[i].1.len() > 0 {
            Some(self.events[i].1.last())
        } else {
            None
        }
    }

    /// Do all events in this window have representable times?
    pub open spec fn events_wf(self) -> bool {
        forall|i: int, j: int|
            0 <= i < self.events.len() && 0 <= j < self.events[i].1.len()
                ==> #[trigger] self.events[i].1[j].timestamp.wf()
    }
}

/// A window keeps one entry per entity: adding an event to a window whose
/// entities are listed once each leaves them listed once each.
pub proof fn law_window_one_entry_per_entity(w: WindowView, e: EventView)
    requires
        view_keys(w.events).no_duplicates(),
    ensures
        view_keys(w.add(e).events).no_duplicates(),
{
    let keys = view_keys(w.events);
    lemma_key_index(keys, e.entity_id);
    let i = key_index(keys, e.entity_id);
    if i >= 0 {
        lemma_update_keeps_keys(w.events, i, w.events[i].1.push(e));
    } else {
        assert(view_keys(w.add(e).events) =~= keys.push(e.entity_id));
        lemma_push_new_key(keys, e.entity_id);
    }
}

proof fn lemma_total_count_split(es: Seq<(Seq<char>, Seq<EventView>)>, i: int)
    requires
        0 <= i <= es.len(),
    ensures
        total_count(es) == total_count(es.subrange(0, i)) + total_count(es.subrange(i, es.len() as int)),
    decreases es.len(),
{
    if i == es.len() {
        assert(es.subrange(0, i) =~= es);
        assert(es.subrange(i, es.len() as int) =~= Seq::<(Seq<char>, Seq<EventView>)>::empty());
    } else {
        lemma_total_count_split(es.drop_last(), i);
        assert(es.drop_last().subrange(0, i) =~= es.subrange(0, i));
        assert(es.subrange(i, es.len() as int).drop_last() =~= es.drop_last().subrange(
            i,
            es.drop_last().len() as int,
        ));
    }
}

proof fn lemma_total_count_update(
    es: Seq<(Seq<char>, Seq<EventView>)>,
    i: int,
    x: (Seq<char>, Seq<EventView>),
)
    requires
        0 <= i < es.len(),
    ensures
        total_count(es.update(i, x)) == total_count(es) - es[i].1.len() + x.1.len(),
    decreases es.len(),
{
    if i == es.len() - 1 {
        assert(es.update(i, x).drop_last() =~= es.drop_last());
    } else {
        lemma_total_count_update(es.drop_last(), i, x);
        assert(es.update(i, x).drop_last() =~= es.drop_last().update(i, x));
    }
}

/// Adding an event adds one to the count.
pub proof fn lemma_add_count(w: WindowView, e: EventView)
    ensures
        w.add(e).count() == w.count() + 1,
{
    lemma_key_index(view_keys(w.events), e.entity_id);
    let i = key_index(view_keys(w.events), e.entity_id);
    if i >= 0 {
        lemma_total_count_update(w.events, i, (w.events[i].0, w.events[i].1.push(e)));
    } else {
        assert(w.events.push((e.entity_id, seq![e])).drop_last() =~= w.events);
    }
}

impl Window {
    /// An empty window over `[start, end)`.
    pub fn new(start: Timestamp, end: Timestamp) -> (r: Window)
        ensures
            r@ == WindowView::empty(start, end),
    {
        let w = Window { start, end, events: Vec::new() };
        assert(w@.events =~= Seq::<(Seq<char>, Seq<EventView>)>::empty());
        w
    }

    /// Adds an event to this window, under its entity.
    pub fn add(&mut self, event: Event)
        ensures
            final(self)@ == old(self)@.add(event@),
    {
        let ghost ev = event@;
        let found = find_key(&self.events, &event.entity_id);
        assert(keys_of(self.events@) =~= view_keys(entries_view(self.events@)));
        match found {
            Some(i) => {
                proof {
                    lemma_key_index(keys_of(self.events@), event.entity_id@);
                }
                let mut entry: (String, Vec<Event>) = self.events.remove(i);
                entry.1.push(event);
                self.events.insert(i, entry);
                assert(events_view(entry.1@) =~= events_view(old(self).events@[i as int].1@).push(ev));
            },
            None => {
                let id: String = event.entity_id.clone();
                let mut list: Vec<Event> = Vec::new();
                list.push(event);
                assert(events_view(list@) =~= seq![ev]);
                self.events.push((id, list));
            },
        }
        assert(entries_view(self.events@) =~= add_to_entries(entries_view(old(self).events@), ev));
    }

    /// Total event count across all entities.
    pub fn count(&self) -> (r: usize)
        requires
            self@.count() <= usize::MAX,
        ensures
            r == self@.count(),
    {
        let ghost es = self@.events;
        let mut sum: usize = 0;
        let mut i: usize = 0;
        while i < self.events.len()
            invariant
                i <= self.events@.len(),
                es == entries_view(self.events@),
                es.len() == self.events@.len(),
                total_count(es) <= usize::MAX,
                sum == total_count(es.subrange(0, i as int)),
            decreases self.events@.len() - i,
        {
            proof {
                lemma_total_count_split(es, i as int + 1);
                assert(es.subrange(0, i as int + 1).drop_last() =~= es.subrange(0, i as int));
                lemma_total_count_split(es.subrange(0, i as int + 1), i as int);
            }
            sum = sum + self.events[i].1.len();
            i = i + 1;
        }
        assert(es.subrange(0, i as int) =~= es);
        sum
    }

    /// Does `ts` fall within `[start, end)`?
    pub fn contains(&self, ts: &Timestamp) -> (r: bool)
        ensures
            r == (self.start.nanos <= ts.nanos < self.end.nanos),
    {
        ts.nanos >= self.start.nanos && ts.nanos < self.end.nanos
    }

    /// The entity ids in this window, in order of their first event.
    pub fn entities(&self) -> (r: Vec<&str>)
        ensures
            r@.map_values(|s: &str| s@) == view_keys(self@.events),
    {
        let mut r: Vec<&str> = Vec::new();
        let mut i: usize = 0;
        while i < self.events.len()
            invariant
                i <= self.events@.len(),
                r@.map_values(|s: &str| s@) == view_keys(entries_view(self.events@)).subrange(0, i as int),
            decreases self.events@.len() - i,
        {
            let s: &str = self.events[i].0.as_str();
            let ghost prev = r@;
            r.push(s);
            assert(r@.map_values(|s: &str| s@) =~= prev.map_values(|s: &str| s@).push(s@));
            assert(r@.map_values(|s: &str| s@) =~= view_keys(entries_view(self.events@)).subrange(0, i as int + 1));
            i = i + 1;
        }
        assert(view_keys(entries_view(self.events@)).subrange(0, i as int) =~= view_keys(self@.events));
        r
    }
}

/// Views of a sequence of windows.
pub open spec fn windows_view(ws: Seq<Window>) -> Seq<WindowView> {
    ws.map_values(|w: Window| w@)
}

/// The start instants of a sequence of windows.
pub open spec fn starts_of(ws: Seq<WindowView>) -> Seq<Timestamp> {
    ws.map_values(|w: WindowView| w.start)
}

/// Do all events in all windows have representable times?
pub open spec fn all_events_wf(ws: Seq<WindowView>) -> bool {
    forall|i: int| 0 <= i < ws.len() ==> #[trigger] ws[i].events_wf()
}

/// Adds `e` to the first window that starts at `start`, or to a new window
/// `[start, end)` appended at the end; also gives the window's index.
pub open spec fn place(ws: Seq<WindowView>, start: Timestamp, end: Timestamp, e: EventView) -> (
    Seq<WindowView>,
    int,
) {
    let i = key_index(starts_of(ws), start);
    if i >= 0 {
        (ws.update(i, ws[i].add(e)), i)
    } else {
        (ws.push(WindowView::empty(start, end).add(e)), ws.len() as int)
    }
}

/// Whole milliseconds since the epoch, rounded toward the past.
pub open spec fn floor_millis(t: Timestamp) -> int {
    t.nanos / 1_000_000
}

/// Whole milliseconds in a span, rounded toward zero.
pub open spec fn delta_millis(d: TimeDelta) -> int {
    trunc_div(d.nanos as int, 1_000_000)
}

/// The start, in milliseconds, of the tumbling window of length `d_ms`
/// holding time `t` (the millisecond count divided with truncation).
pub open spec fn tumbling_start_ms(t: Timestamp, d_ms: int) -> int {
    trunc_div(floor_millis(t), d_ms) * d_ms
}

/// The first sliding-window start, in milliseconds, that is tried for an event at `ts_ms`.
pub open spec fn sliding_earliest(ts_ms: int, size_ms: int, slide_ms: int) -> int {
    trunc_div(ts_ms - size_ms + slide_ms, slide_ms) * slide_ms
}

/// The `j`-th sliding-window start tried after `earliest`.
pub open spec fn nth_start(earliest: int, slide_ms: int, j: int) -> int {
    earliest + j * slide_ms
}

/// Is trying the sliding window that starts at `k` milliseconds free of overflow?
pub open spec fn sliding_start_ok(k: int, size: TimeDelta, slide_ms: int) -> bool {
    &&& instant_in_range(k * 1_000_000)
    &&& instant_in_range(k * 1_000_000 + size.nanos)
    &&& k + slide_ms <= i64::MAX
}

/// Adds `e` to every sliding window it falls in, trying the starts
/// `start_ms, start_ms + slide_ms, ...` up to `ts_ms`; gives the windows and
/// the indices of the windows `e` went to, in order.
pub open spec fn sliding_steps(
    ws: Seq<WindowView>,
    e: EventView,
    start_ms: int,
    ts_ms: int,
    slide_ms: int,
    size: TimeDelta,
) -> (Seq<WindowView>, Seq<usize>)
    decreases (if start_ms <= ts_ms && slide_ms > 0 { ts_ms - start_ms + 1 } else { 0 }),
{
    if start_ms > ts_ms || slide_ms <= 0 {
        (ws, Seq::empty())
    } else {
        let s = start_ms * 1_000_000;
        let en = s + size.nanos;
        let step: (Seq<WindowView>, Seq<usize>) = if s <= e.timestamp.nanos < en {
            let p = place(ws, Timestamp { nanos: s as i128 }, Timestamp { nanos: en as i128 }, e);
            (p.0, seq![p.1 as usize])
        } else {
            (ws, Seq::empty())
        };
        let rest = sliding_steps(step.0, e, start_ms + slide_ms, ts_ms, slide_ms, size);
        (rest.0, step.1 + rest.1)
    }
}

/// Is `e` within `gap` of the latest event of its entity in `w`?
pub open spec fn session_within(w: WindowView, e: EventView, gap: TimeDelta) -> bool {
    match w.last_of(e.entity_id) {
        Some(l) => e.timestamp.nanos - l.timestamp.nanos < gap.nanos,
        None => false,
    }
}

/// The first window within `gap` of `e`'s entity, or -1.
pub open spec fn session_index(ws: Seq<WindowView>, e: EventView, gap: TimeDelta) -> int
    decreases ws.len(),
{
    if ws.len() == 0 {
        -1
    } else {
        let i = session_index(ws.drop_last(), e, gap);
        if i >= 0 {
            i
        } else if session_within(ws.last(), e, gap) {
            ws.len() - 1
        } else {
            -1
        }
    }
}

/// The content of a window manager.
pub struct ManagerView {
    pub strategy: WindowStrategy,
    pub windows: Seq<WindowView>,
}

/// Where `e` goes under `strategy`, given the windows `ws`: the new windows
/// and the indices of the windows `e` went to. `now` is the instant that
/// stamps a new count window.
pub open spec fn assign_spec(strategy: WindowStrategy, ws: Seq<WindowView>, e: EventView, now: Timestamp) -> (
    Seq<WindowView>,
    Seq<usize>,
) {
    match strategy {
        WindowStrategy::Tumbling { duration } => {
            let d = delta_millis(duration);
            if d <= 0 {
                (ws, Seq::empty())
            } else {
                let s = tumbling_start_ms(e.timestamp, d) * 1_000_000;
                let p = place(
                    ws,
                    Timestamp { nanos: s as i128 },
                    Timestamp { nanos: (s + duration.nanos) as i128 },
                    e,
                );
                (p.0, seq![p.1 as usize])
            }
        },
        WindowStrategy::Sliding { size, slide } => {
            let size_ms = delta_millis(size);
            let slide_ms = delta_millis(slide);
            if size_ms <= 0 || slide_ms <= 0 {
                (ws, Seq::empty())
            } else {
                let ts_ms = floor_millis(e.timestamp);
                sliding_steps(ws, e, sliding_earliest(ts_ms, size_ms, slide_ms), ts_ms, slide_ms, size)
            }
        },
        WindowStrategy::Session { gap } => {
            let i = session_index(ws, e, gap);
            let end = Timestamp { nanos: (e.timestamp.nanos + gap.nanos) as i128 };
            if i >= 0 {
                (ws.update(i, WindowView { end, ..ws[i] }.add(e)), seq![i as usize])
            } else {
                (ws.push(WindowView::empty(e.timestamp, end).add(e)), seq![ws.len() as usize])
            }
        },
        WindowStrategy::Count { size } => {
            if ws.len() > 0 && ws.last().count() < size {
                (ws.update(ws.len() - 1, ws.last().add(e)), seq![(ws.len() - 1) as usize])
            } else {
                (ws.push(WindowView::empty(now, now).add(e)), seq![ws.len() as usize])
            }
        },
    }
}

/// Can `e` be assigned without overflow (of time, of `i64` milliseconds, or
/// of a window's count)?
pub open spec fn assign_ok(m: ManagerView, e: EventView) -> bool {
    &&& e.timestamp.wf()
    &&& match m.strategy {
        WindowStrategy::Tumbling { duration } => {
            &&& duration.wf()
            &&& delta_millis(duration) > 0 ==> instant_in_range(
                tumbling_start_ms(e.timestamp, delta_millis(duration)) * 1_000_000 + duration.nanos,
            )
        },
        WindowStrategy::Sliding { size, slide } => {
            &&& size.wf()
            &&& slide.wf()
            &&& (delta_millis(size) > 0 && delta_millis(slide) > 0) ==> {
                let ts_ms = floor_millis(e.timestamp);
                let earliest = sliding_earliest(ts_ms, delta_millis(size), delta_millis(slide));
                &&& i64::MIN <= ts_ms - delta_millis(size) <= i64::MAX
                &&& i64::MIN <= ts_ms - delta_millis(size) + delta_millis(slide) <= i64::MAX
                &&& forall|j: int|
                    0 <= j && nth_start(earliest, delta_millis(slide), j) <= ts_ms ==> #[trigger] sliding_start_ok(
                        nth_start(earliest, delta_millis(slide), j),
                        size,
                        delta_millis(slide),
                    )
            }
        },
        WindowStrategy::Session { gap } => {
            &&& gap.wf()
            &&& instant_in_range(e.timestamp.nanos + gap.nanos)
        },
        WindowStrategy::Count { size } => m.windows.len() > 0 ==> m.windows.last().count() < usize::MAX,
    }
}

/// Manages window lifecycle: creation, assignment, expiration.
pub struct WindowManager {
    strategy: WindowStrategy,
    windows: Vec<Window>,
}

impl View for WindowManager {
    type V = ManagerView;

    closed spec fn view(&self) -> ManagerView {
        ManagerView { strategy: self.strategy, windows: windows_view(self.windows@) }
    }
}

/// Every tumbling window spans one window length from its start.
pub open spec fn spans(ws: Seq<WindowView>, duration: TimeDelta) -> bool {
    forall|i: int| 0 <= i < ws.len() ==> #[trigger] ws[i].end.nanos == ws[i].start.nanos + duration.nanos
}

/// A tumbling window covers the time of each event at or after the epoch
/// that it receives: the event goes to exactly one window, whose
/// `[start, end)` holds the event's time, and every window keeps spanning
/// one window length.
pub proof fn law_tumbling_window_covers_event(ws: Seq<WindowView>, e: EventView, duration: TimeDelta, now: Timestamp)
    requires
        e.timestamp.wf(),
        duration.wf(),
        e.timestamp.nanos >= 0,
        delta_millis(duration) > 0,
        spans(ws, duration),
        ws.len() < usize::MAX,
    ensures
        ({
            let r = assign_spec(WindowStrategy::Tumbling { duration }, ws, e, now);
            &&& r.1.len() == 1
            &&& 0 <= r.1[0] < r.0.len()
            &&& r.0[r.1[0] as int].start.nanos <= e.timestamp.nanos < r.0[r.1[0] as int].end.nanos
            &&& spans(r.0, duration)
        }),
{
    let ts = e.timestamp.nanos as int;
    let fm = floor_millis(e.timestamp);
    let d = delta_millis(duration);
    assert(d == duration.nanos / 1_000_000);
    assert(fm * 1_000_000 <= ts < fm * 1_000_000 + 1_000_000 && fm >= 0) by (nonlinear_arith)
        requires fm == ts / 1_000_000, ts >= 0;
    assert(d * 1_000_000 <= duration.nanos) by (nonlinear_arith)
        requires d == duration.nanos / 1_000_000, d > 0;
    let sm = tumbling_start_ms(e.timestamp, d);
    assert(sm == (fm / d) * d);
    assert(sm <= fm < sm + d && sm >= 0) by (nonlinear_arith)
        requires sm == (fm / d) * d, fm >= 0, d > 0;
    let s = sm * 1_000_000;
    assert(s <= fm * 1_000_000) by (nonlinear_arith)
        requires sm <= fm, s == sm * 1_000_000;
    assert(fm * 1_000_000 + 1_000_000 <= s + d * 1_000_000) by (nonlinear_arith)
        requires fm + 1 <= sm + d, s == sm * 1_000_000;
    let start = Timestamp { nanos: s as i128 };
    let end = Timestamp { nanos: (s + duration.nanos) as i128 };
    assert(start.nanos == s && end.nanos == s + duration.nanos);
    let keys = starts_of(ws);
    lemma_key_index(keys, start);
    let i = key_index(keys, start);
    let r = assign_spec(WindowStrategy::Tumbling { duration }, ws, e, now);
    if i >= 0 {
        assert(keys[i] == ws[i].start);
        assert(r.0 == ws.update(i, ws[i].add(e)));
        assert(r.0[i].start == start && r.0[i].end == ws[i].end);
        assert(r.1[0] as int == i);
        assert forall|k: int| 0 <= k < r.0.len() implies #[trigger] r.0[k].end.nanos == r.0[k].start.nanos + duration.nanos by {
            assert(ws[k].end.nanos == ws[k].start.nanos + duration.nanos);
        }
    } else {
        assert(r.0 == ws.push(WindowView::empty(start, end).add(e)));
        assert(r.1[0] as int == ws.len());
        assert forall|k: int| 0 <= k < r.0.len() implies #[trigger] r.0[k].end.nanos == r.0[k].start.nanos + duration.nanos by {
            if k < ws.len() {
                assert(ws[k].end.nanos == ws[k].start.nanos + duration.nanos);
            }
        }
    }
}

/// Count windows never hold more than their size: assigning an event keeps
/// every window at or below `size` events.
pub proof fn law_count_windows_bounded(ws: Seq<WindowView>, e: EventView, size: usize, now: Timestamp)
    requires
        size > 0,
        forall|i: int| 0 <= i < ws.len() ==> #[trigger] ws[i].count() <= size,
    ensures
        forall|i: int|
            0 <= i < assign_spec(WindowStrategy::Count { size }, ws, e, now).0.len() ==> #[trigger] assign_spec(
                WindowStrategy::Count { size },
                ws,
                e,
                now,
            ).0[i].count() <= size,
{
    let r = assign_spec(WindowStrategy::Count { size }, ws, e, now).0;
    if ws.len() > 0 && ws.last().count() < size {
        lemma_add_count(ws.last(), e);
        assert forall|i: int| 0 <= i < r.len() implies #[trigger] r[i].count() <= size by {
            if i < ws.len() - 1 {
                assert(r[i] == ws[i]);
            }
        }
    } else {
        lemma_add_count(WindowView::empty(now, now), e);
        assert(WindowView::empty(now, now).count() == 0);
        assert forall|i: int| 0 <= i < r.len() implies #[trigger] r[i].count() <= size by {
            if i < ws.len() {
                assert(r[i] == ws[i]);
            }
        }
    }
}

/// The windows after count-window assignments of `es` in order, from no
/// windows, where `nows[i]` stamps a window that `es[i]` opens.
pub open spec fn count_run(size: usize, es: Seq<EventView>, nows: Seq<Timestamp>) -> Seq<WindowView>
    decreases es.len(),
{
    if es.len() == 0 {
        Seq::empty()
    } else {
        assign_spec(WindowStrategy::Count { size }, count_run(size, es.drop_last(), nows), es.last(), nows[es.len() - 1]).0
    }
}

/// The number of events in all of `ws`.
pub open spec fn counts_total(ws: Seq<WindowView>) -> nat
    decreases ws.len(),
{
    if ws.len() == 0 {
        0
    } else {
        counts_total(ws.drop_last()) + ws.last().count()
    }
}

proof fn lemma_count_run_shape(size: usize, es: Seq<EventView>, nows: Seq<Timestamp>)
    requires
        size >= 1,
    ensures
        ({
            let ws = count_run(size, es, nows);
            let n = es.len();
            &&& n == 0 ==> ws.len() == 0
            &&& n > 0 ==> ws.len() >= 1 && (ws.len() - 1) * size < n <= ws.len() * size
            &&& n > 0 ==> ws.last().count() == n - (ws.len() - 1) * size
            &&& forall|i: int| 0 <= i < ws.len() - 1 ==> #[trigger] ws[i].count() == size
            &&& counts_total(ws) == n
        }),
    decreases es.len(),
{
    if es.len() > 0 {
        let p = es.drop_last();
        let e = es.last();
        let now = nows[es.len() - 1];
        lemma_count_run_shape(size, p, nows);
        let w0 = count_run(size, p, nows);
        let ws = count_run(size, es, nows);
        let l = w0.len();
        let n = es.len();
        if l > 0 && w0.last().count() < size {
            lemma_add_count(w0.last(), e);
            assert(ws == w0.update(l - 1, w0.last().add(e)));
            assert(ws.drop_last() =~= w0.drop_last());
            assert forall|i: int| 0 <= i < ws.len() - 1 implies #[trigger] ws[i].count() == size by {
                assert(ws[i] == w0[i]);
            }
            assert((l - 1) * size < n <= l * size) by (nonlinear_arith)
                requires
                    (l - 1) * size < n - 1,
                    w0.last().count() == n - 1 - (l - 1) * size,
                    w0.last().count() < size;
        } else {
            let w = WindowView::empty(now, now);
            lemma_add_count(w, e);
            assert(w.count() == 0);
            assert(ws == w0.push(w.add(e)));
            assert(ws.drop_last() =~= w0);
            if l > 0 {
                assert(l * size == (l - 1) * size + size) by (nonlinear_arith);
                assert(w0.last().count() == size);
                assert forall|i: int| 0 <= i < ws.len() - 1 implies #[trigger] ws[i].count() == size by {
                    assert(ws[i] == w0[i]);
                }
                assert(l * size < n <= (l + 1) * size) by (nonlinear_arith)
                    requires
                        w0.last().count() == n - 1 - (l - 1) * size,
                        w0.last().count() == size,
                        size >= 1;
            }
        }
    }
}

/// Count windows fill up one at a time: after `n >= 1` events from no
/// windows there are `(n + size - 1) / size` windows, all full but the last,
/// which holds between one and `size` events; together they hold the `n`
/// events, and the last event went to the last window.
pub proof fn law_count_windows_fill_in_turn(size: usize, es: Seq<EventView>, nows: Seq<Timestamp>)
    requires
        size >= 1,
        es.len() >= 1,
    ensures
        ({
            let ws = count_run(size, es, nows);
            let n = es.len();
            &&& ws.len() == (n + size - 1) / (size as int)
            &&& forall|i: int| 0 <= i < ws.len() - 1 ==> #[trigger] ws[i].count() == size
            &&& 1 <= ws.last().count() <= size
            &&& counts_total(ws) == n
            &&& assign_spec(
                WindowStrategy::Count { size },
                count_run(size, es.drop_last(), nows),
                es.last(),
                nows[n - 1],
            ).1 == seq![(ws.len() - 1) as usize]
        }),
{
    lemma_count_run_shape(size, es, nows);
    lemma_count_run_shape(size, es.drop_last(), nows);
    let ws = count_run(size, es, nows);
    let n = es.len() as int;
    let l = ws.len() as int;
    assert(l == (n + size - 1) / (size as int)) by (nonlinear_arith)
        requires
            (l - 1) * size < n <= l * size,
            size >= 1;
}

proof fn lemma_trunc_mul_between(x: int, d: int)
    requires
        d > 0,
    ensures
        x >= 0 ==> 0 <= trunc_div(x, d) * d <= x,
        x < 0 ==> x <= trunc_div(x, d) * d <= 0,
{
    if x >= 0 {
        assert(0 <= (x / d) * d <= x) by (nonlinear_arith)
            requires x >= 0, d > 0;
    } else {
        assert(0 <= ((-x) / d) * d <= -x) by (nonlinear_arith)
            requires -x > 0, d > 0;
        assert(-((-x) / d) * d == -(((-x) / d) * d)) by (nonlinear_arith);
    }
}

proof fn lemma_floor_millis_in_range(t: Timestamp)
    requires
        t.wf(),
    ensures
        instant_in_range(floor_millis(t) * 1_000_000),
        floor_millis(t) * 1_000_000 <= t.nanos,
{
    let n = t.nanos as int;
    assert(floor_millis(t) * 1_000_000 <= n && n < floor_millis(t) * 1_000_000 + 1_000_000) by (nonlinear_arith)
        requires floor_millis(t) == n / 1_000_000;
    assert(floor_millis(t) * 1_000_000 >= crate::time::MIN_NANOS) by (nonlinear_arith)
        requires
            floor_millis(t) * 1_000_000 + 1_000_000 > n,
            n >= crate::time::MIN_NANOS,
            crate::time::MIN_NANOS == -8_334_601_228_800i64 * 1_000_000_000,
    {
        let q = floor_millis(t);
        assert(q > -8_334_601_228_800i64 * 1000 - 1);
    }
}

proof fn lemma_add_wf(w: WindowView, e: EventView)
    requires
        w.events_wf(),
        e.timestamp.wf(),
    ensures
        w.add(e).events_wf(),
{
    lemma_key_index(view_keys(w.events), e.entity_id);
    let es2 = w.add(e).events;
    assert forall|i: int, j: int| 0 <= i < es2.len() && 0 <= j < es2[i].1.len() implies #[trigger] es2[i].1[j].timestamp.wf() by {
        let k = key_index(view_keys(w.events), e.entity_id);
        if i < w.events.len() && i != k {
            assert(es2[i] == w.events[i]);
        } else if i == k {
            if j < w.events[i].1.len() {
                assert(es2[i].1[j] == w.events[i].1[j]);
            }
        }
    }
}

/// Puts `event` into the first window starting at `start`, or into a new
/// window `[start, end)`; gives that window's index.
fn place_event(windows: &mut Vec<Window>, start: Timestamp, end: Timestamp, event: Event) -> (idx: usize)
    requires
        event.wf(),
        all_events_wf(windows_view(old(windows)@)),
    ensures
        (windows_view(final(windows)@), idx as int) == place(windows_view(old(windows)@), start, end, event@),
        all_events_wf(windows_view(final(windows)@)),
{
    let ghost ws = windows_view(windows@);
    let ghost ev = event@;
    let mut i: usize = 0;
    while i < windows.len()
        invariant
            i <= windows@.len(),
            ws == windows_view(windows@),
            ws == windows_view(old(windows)@),
            all_events_wf(ws),
            ev == event@,
            event.wf(),
            forall|j: int| 0 <= j < i ==> starts_of(ws)[j] != start,
        decreases windows@.len() - i,
    {
        if windows[i].start.nanos == start.nanos {
            assert(starts_of(ws)[i as int] == start);
            assert(ws[i as int].events_wf());
            proof {
                lemma_key_index_at(starts_of(ws), start, i as int);
                lemma_add_wf(ws[i as int], ev);
            }
            let ghost before = windows@;
            let mut w: Window = windows.remove(i);
            assert(w@ == ws[i as int]);
            w.add(event);
            windows.insert(i, w);
            assert(windows@ =~= before.update(i as int, w));
            assert(windows_view(windows@) =~= ws.update(i as int, ws[i as int].add(ev)));
            return i;
        }
        i = i + 1;
    }
    proof {
        lemma_key_index_absent(starts_of(ws), start);
    }
    let mut w: Window = Window::new(start, end);
    w.add(event);
    proof {
        lemma_add_wf(WindowView::empty(start, end), ev);
    }
    windows.push(w);
    assert(windows_view(windows@) =~= ws.push(WindowView::empty(start, end).add(ev)));
    i
}

fn assign_tumbling(windows: &mut Vec<Window>, duration: TimeDelta, event: Event) -> (r: Vec<usize>)
    requires
        all_events_wf(windows_view(old(windows)@)),
        assign_ok(
            ManagerView {
                strategy: WindowStrategy::Tumbling { duration },
                windows: windows_view(old(windows)@),
            },
            event@,
        ),
    ensures
        (windows_view(final(windows)@), r@) == assign_spec(
            WindowStrategy::Tumbling { duration },
            windows_view(old(windows)@),
            event@,
            Timestamp { nanos: 0 },
        ),
        all_events_wf(windows_view(final(windows)@)),
{
    let mut assigned: Vec<usize> = Vec::new();
    let d: i64 = duration.num_milliseconds();
    if d <= 0 {
        return assigned;
    }
    let ts_ms: i64 = event.timestamp.timestamp_millis();
    proof {
        lemma_trunc_mul_between(ts_ms as int, d as int);
        lemma_floor_millis_in_range(event.timestamp);
    }
    let q: i64 = ts_ms / d;
    let start_ms: i64 = q * d;
    assert(start_ms == tumbling_start_ms(event.timestamp, d as int));
    let window_start: Timestamp = Timestamp::from_timestamp_millis(start_ms).unwrap();
    let window_end: Timestamp = window_start.add(duration);
    let idx: usize = place_event(windows, window_start, window_end, event);
    assigned.push(idx);
    assert(assigned@ =~= seq![idx]);
    assigned
}

fn assign_sliding(windows: &mut Vec<Window>, size: TimeDelta, slide: TimeDelta, event: Event) -> (r: Vec<usize>)
    requires
        all_events_wf(windows_view(old(windows)@)),
        assign_ok(
            ManagerView {
                strategy: WindowStrategy::Sliding { size, slide },
                windows: windows_view(old(windows)@),
            },
            event@,
        ),
    ensures
        (windows_view(final(windows)@), r@) == assign_spec(
            WindowStrategy::Sliding { size, slide },
            windows_view(old(windows)@),
            event@,
            Timestamp { nanos: 0 },
        ),
        all_events_wf(windows_view(final(windows)@)),
{
    let mut assigned: Vec<usize> = Vec::new();
    let size_ms: i64 = size.num_milliseconds();
    let slide_ms: i64 = slide.num_milliseconds();
    if size_ms <= 0 || slide_ms <= 0 {
        return assigned;
    }
    let ts_ms: i64 = event.timestamp.timestamp_millis();
    let x: i64 = ts_ms - size_ms + slide_ms;
    proof {
        lemma_trunc_mul_between(x as int, slide_ms as int);
    }
    let q: i64 = x / slide_ms;
    let earliest: i64 = q * slide_ms;
    assert(earliest == sliding_earliest(ts_ms as int, size_ms as int, slide_ms as int));
    let ghost ev = event@;
    let ghost ws0 = windows_view(windows@);
    let ghost goal = sliding_steps(ws0, ev, earliest as int, ts_ms as int, slide_ms as int, size);
    let ghost mut j: int = 0;
    let mut start_ms: i64 = earliest;
    assert(nth_start(earliest as int, slide_ms as int, 0) == earliest) by (nonlinear_arith);
    assert(assigned@ + goal.1 =~= goal.1);
    while start_ms <= ts_ms
        invariant
            slide_ms > 0,
            size.wf(),
            event.wf(),
            ev == event@,
            ts_ms == floor_millis(event.timestamp),
            j >= 0,
            start_ms == nth_start(earliest as int, slide_ms as int, j),
            forall|jj: int|
                0 <= jj && nth_start(earliest as int, slide_ms as int, jj) <= ts_ms ==> #[trigger] sliding_start_ok(
                    nth_start(earliest as int, slide_ms as int, jj),
                    size,
                    slide_ms as int,
                ),
            all_events_wf(windows_view(windows@)),
            goal == (
                sliding_steps(windows_view(windows@), ev, start_ms as int, ts_ms as int, slide_ms as int, size).0,
                assigned@ + sliding_steps(
                    windows_view(windows@),
                    ev,
                    start_ms as int,
                    ts_ms as int,
                    slide_ms as int,
                    size,
                ).1,
            ),
        decreases (ts_ms as int) + (slide_ms as int) - (start_ms as int),
    {
        assert(sliding_start_ok(nth_start(earliest as int, slide_ms as int, j), size, slide_ms as int));
        let ghost wsc = windows_view(windows@);
        let ghost prev = assigned@;
        let window_start: Timestamp = Timestamp::from_timestamp_millis(start_ms).unwrap();
        let window_end: Timestamp = window_start.add(size);
        if event.timestamp.nanos >= window_start.nanos && event.timestamp.nanos < window_end.nanos {
            let copy: Event = event.clone();
            let idx: usize = place_event(windows, window_start, window_end, copy);
            assigned.push(idx);
            assert(assigned@ =~= prev + seq![idx]);
        }
        let ghost rest = sliding_steps(
            windows_view(windows@),
            ev,
            start_ms + slide_ms,
            ts_ms as int,
            slide_ms as int,
            size,
        );
        assert(prev + sliding_steps(wsc, ev, start_ms as int, ts_ms as int, slide_ms as int, size).1 =~= assigned@ + rest.1);
        start_ms = start_ms + slide_ms;
        proof {
            assert(nth_start(earliest as int, slide_ms as int, j + 1) == nth_start(earliest as int, slide_ms as int, j) + slide_ms) by (nonlinear_arith);
            j = j + 1;
        }
    }
    assert(assigned@ + Seq::<usize>::empty() =~= assigned@);
    assigned
}

fn assign_session(windows: &mut Vec<Window>, gap: TimeDelta, event: Event) -> (r: Vec<usize>)
    requires
        all_events_wf(windows_view(old(windows)@)),
        assign_ok(
            ManagerView { strategy: WindowStrategy::Session { gap }, windows: windows_view(old(windows)@) },
            event@,
        ),
    ensures
        (windows_view(final(windows)@), r@) == assign_spec(
            WindowStrategy::Session { gap },
            windows_view(old(windows)@),
            event@,
            Timestamp { nanos: 0 },
        ),
        all_events_wf(windows_view(final(windows)@)),
{
    let ghost ws = windows_view(windows@);
    let ghost ev = event@;
    let ts: Timestamp = event.timestamp;
    let mut found: Option<usize> = None;
    let mut i: usize = 0;
    while found.is_none() && i < windows.len()
        invariant
            i <= windows@.len(),
            ws == windows_view(windows@),
            all_events_wf(ws),
            ev == event@,
            ts == event.timestamp,
            event.wf(),
            gap.wf(),
            forall|j: int| 0 <= j < i ==> !session_within(#[trigger] ws[j], ev, gap),
            found is Some ==> found == Some(i) && i < windows@.len() && session_within(ws[i as int], ev, gap),
        decreases windows@.len() - i + (if found is Some { 0int } else { 1int }),
    {
        let k = find_key(&windows[i].events, &event.entity_id);
        assert(keys_of(windows@[i as int].events@) =~= view_keys(ws[i as int].events));
        match k {
            Some(k) => {
                proof {
                    lemma_key_index(view_keys(ws[i as int].events), ev.entity_id);
                }
                let n: usize = windows[i].events[k].1.len();
                if n > 0 {
                    let last_ts: Timestamp = windows[i].events[k].1[n - 1].timestamp;
                    assert(ws[i as int].events[k as int].1[n - 1] == windows@[i as int].events@[k as int].1@[n - 1]@);
                    assert(ws[i as int].events_wf());
                    assert(ws[i as int].events[k as int].1[n - 1].timestamp.wf());
                    if ts.nanos - last_ts.nanos < gap.nanos {
                        found = Some(i);
                    }
                }
            },
            None => {},
        }
        if found.is_none() {
            i = i + 1;
        }
    }
    let end: Timestamp = ts.add(gap);
    let mut assigned: Vec<usize> = Vec::new();
    match found {
        Some(i) => {
            proof {
                assert forall|j: int| 0 <= j < i implies !session_within(#[trigger] ws[j], ev, gap) by {}
                lemma_session_index_at(ws, ev, gap, i as int);
                assert(ws[i as int].events_wf());
                lemma_add_wf(WindowView { end, ..ws[i as int] }, ev);
            }
            let ghost before = windows@;
            let mut w: Window = windows.remove(i);
            w.end = end;
            w.add(event);
            windows.insert(i, w);
            assert(windows@ =~= before.update(i as int, w));
            assert(windows_view(windows@) =~= ws.update(i as int, WindowView { end, ..ws[i as int] }.add(ev)));
            assigned.push(i);
        },
        None => {
            proof {
                lemma_session_index_absent(ws, ev, gap);
                lemma_add_wf(WindowView::empty(ts, end), ev);
            }
            let mut w: Window = Window::new(ts, end);
            w.add(event);
            let n: usize = windows.len();
            windows.push(w);
            assert(windows_view(windows@) =~= ws.push(WindowView::empty(ts, end).add(ev)));
            assigned.push(n);
        },
    }
    assert(assigned@ =~= assign_spec(WindowStrategy::Session { gap }, ws, ev, Timestamp { nanos: 0 }).1);
    assigned
}

proof fn lemma_session_index_at(ws: Seq<WindowView>, e: EventView, gap: TimeDelta, i: int)
    requires
        0 <= i < ws.len(),
        session_within(ws[i], e, gap),
        forall|j: int| 0 <= j < i ==> !session_within(#[trigger] ws[j], e, gap),
    ensures
        session_index(ws, e, gap) == i,
    decreases ws.len(),
{
    if i < ws.len() - 1 {
        assert forall|j: int| 0 <= j < i implies !session_within(#[trigger] ws.drop_last()[j], e, gap) by {
            assert(ws.drop_last()[j] == ws[j]);
        }
        assert(ws.drop_last()[i] == ws[i]);
        lemma_session_index_at(ws.drop_last(), e, gap, i);
    } else {
        assert forall|j: int| 0 <= j < ws.len() - 1 implies !session_within(#[trigger] ws.drop_last()[j], e, gap) by {
            assert(ws.drop_last()[j] == ws[j]);
        }
        lemma_session_index_absent(ws.drop_last(), e, gap);
    }
}

proof fn lemma_session_index_absent(ws: Seq<WindowView>, e: EventView, gap: TimeDelta)
    requires
        forall|j: int| 0 <= j < ws.len() ==> !session_within(#[trigger] ws[j], e, gap),
    ensures
        session_index(ws, e, gap) == -1,
    decreases ws.len(),
{
    if ws.len() > 0 {
        assert forall|j: int| 0 <= j < ws.len() - 1 implies !session_within(#[trigger] ws.drop_last()[j], e, gap) by {
            assert(ws.drop_last()[j] == ws[j]);
        }
        lemma_session_index_absent(ws.drop_last(), e, gap);
        assert(!session_within(ws[ws.len() - 1], e, gap));
    }
}

/// After `e` is added to a window, it is the latest event of its entity there.
pub proof fn lemma_add_last_of(w: WindowView, e: EventView)
    ensures
        w.add(e).last_of(e.entity_id) == Some(e),
        w.add(e).start == w.start,
        w.add(e).end == w.end,
{
    let keys = view_keys(w.events);
    lemma_key_index(keys, e.entity_id);
    let i = key_index(keys, e.entity_id);
    if i >= 0 {
        lemma_update_keeps_keys(w.events, i, w.events[i].1.push(e));
    } else {
        assert(view_keys(w.add(e).events) =~= keys.push(e.entity_id));
        lemma_key_index_at(keys.push(e.entity_id), e.entity_id, keys.len() as int);
    }
}

/// `place` puts `e` into a window starting at `start`, leaving every other
/// window as it was and removing none.
proof fn lemma_place(ws: Seq<WindowView>, start: Timestamp, end: Timestamp, e: EventView)
    ensures
        ({
            let p = place(ws, start, end, e);
            &&& 0 <= p.1 < p.0.len()
            &&& p.0.len() == ws.len() || p.0.len() == ws.len() + 1
            &&& p.0[p.1].start == start
            &&& p.0[p.1].last_of(e.entity_id) == Some(e)
            &&& forall|j: int| 0 <= j < ws.len() && j != p.1 ==> #[trigger] p.0[j] == ws[j]
            &&& p.1 < ws.len() ==> ws[p.1].start == start
        }),
{
    let keys = starts_of(ws);
    lemma_key_index(keys, start);
    let i = key_index(keys, start);
    if i >= 0 {
        lemma_add_last_of(ws[i], e);
    } else {
        lemma_add_last_of(WindowView::empty(start, end), e);
    }
}

/// Are instants `k` milliseconds from the epoch, moved by up to the longest
/// span, free of `i128` overflow?
pub open spec fn ms_fits(k: int) -> bool {
    &&& i128::MIN <= k * 1_000_000 - crate::time::MAX_DELTA_NANOS
    &&& k * 1_000_000 + crate::time::MAX_DELTA_NANOS <= i128::MAX
}

/// The sliding steps from `start_ms` on leave alone a window that starts
/// before `start_ms`, and remove no window.
proof fn lemma_steps_keep(
    ws: Seq<WindowView>,
    e: EventView,
    start_ms: int,
    ts_ms: int,
    slide_ms: int,
    size: TimeDelta,
    idx: int,
)
    requires
        slide_ms > 0,
        0 <= idx < ws.len(),
        ws[idx].start.nanos < start_ms * 1_000_000,
        ms_fits(ts_ms),
    ensures
        sliding_steps(ws, e, start_ms, ts_ms, slide_ms, size).0.len() >= ws.len(),
        sliding_steps(ws, e, start_ms, ts_ms, slide_ms, size).0[idx] == ws[idx],
    decreases (if start_ms <= ts_ms { ts_ms - start_ms + 1 } else { 0 }),
{
    if start_ms <= ts_ms {
        let s = start_ms * 1_000_000;
        let en = s + size.nanos;
        assert(start_ms * 1_000_000 <= ts_ms * 1_000_000) by (nonlinear_arith)
            requires start_ms <= ts_ms;
        let st = Timestamp { nanos: s as i128 };
        assert(st.nanos == s);
        if s <= e.timestamp.nanos < en {
            let p = place(ws, st, Timestamp { nanos: en as i128 }, e);
            lemma_place(ws, st, Timestamp { nanos: en as i128 }, e);
            assert(p.1 != idx);
            assert(p.0[idx] == ws[idx]);
            assert(start_ms * 1_000_000 < (start_ms + slide_ms) * 1_000_000) by (nonlinear_arith)
                requires slide_ms > 0;
            lemma_steps_keep(p.0, e, start_ms + slide_ms, ts_ms, slide_ms, size, idx);
        } else {
            assert(start_ms * 1_000_000 < (start_ms + slide_ms) * 1_000_000) by (nonlinear_arith)
                requires slide_ms > 0;
            lemma_steps_keep(ws, e, start_ms + slide_ms, ts_ms, slide_ms, size, idx);
        }
    }
}

/// The sliding steps from `start_ms` put `e` into a window at every start
/// `s_ms` that is reached (a whole number of slides on, up to `ts_ms`) and
/// whose window `[s_ms, s_ms + size)` holds the event's time.
proof fn lemma_steps_reach(
    ws: Seq<WindowView>,
    e: EventView,
    start_ms: int,
    ts_ms: int,
    slide_ms: int,
    size: TimeDelta,
    s_ms: int,
)
    requires
        slide_ms > 0,
        start_ms <= s_ms <= ts_ms,
        (s_ms - start_ms) % slide_ms == 0,
        s_ms * 1_000_000 <= e.timestamp.nanos < s_ms * 1_000_000 + size.nanos,
        ms_fits(start_ms),
        ms_fits(ts_ms),
        ws.len() + (ts_ms - start_ms) / slide_ms + 1 < usize::MAX,
    ensures
        ({
            let r = sliding_steps(ws, e, start_ms, ts_ms, slide_ms, size);
            exists|k: int|
                0 <= k < r.1.len() && 0 <= #[trigger] r.1[k] < r.0.len() && r.0[r.1[k] as int].start.nanos == s_ms
                    * 1_000_000 && r.0[r.1[k] as int].last_of(e.entity_id) == Some(e)
        }),
    decreases s_ms - start_ms,
{
    let r = sliding_steps(ws, e, start_ms, ts_ms, slide_ms, size);
    let s = start_ms * 1_000_000;
    let en = s + size.nanos;
    assert(start_ms * 1_000_000 <= ts_ms * 1_000_000) by (nonlinear_arith)
        requires start_ms <= ts_ms;
    let st = Timestamp { nanos: s as i128 };
    assert(st.nanos == s);
    let step: (Seq<WindowView>, Seq<usize>) = if s <= e.timestamp.nanos < en {
        let p = place(ws, st, Timestamp { nanos: en as i128 }, e);
        (p.0, seq![p.1 as usize])
    } else {
        (ws, Seq::empty())
    };
    let rest = sliding_steps(step.0, e, start_ms + slide_ms, ts_ms, slide_ms, size);
    assert(r == (rest.0, step.1 + rest.1));
    if start_ms == s_ms {
        let p = place(ws, st, Timestamp { nanos: en as i128 }, e);
        lemma_place(ws, st, Timestamp { nanos: en as i128 }, e);
        assert(p.1 < usize::MAX);
        assert((p.1 as usize) as int == p.1);
        assert(start_ms * 1_000_000 < (start_ms + slide_ms) * 1_000_000) by (nonlinear_arith)
            requires slide_ms > 0;
        lemma_steps_keep(p.0, e, start_ms + slide_ms, ts_ms, slide_ms, size, p.1);
        assert(r.1[0] == p.1 as usize);
        assert(r.0[r.1[0] as int] == p.0[p.1]);
    } else {
        assert(start_ms + slide_ms <= s_ms) by (nonlinear_arith)
            requires
                start_ms < s_ms,
                (s_ms - start_ms) % slide_ms == 0,
                slide_ms > 0;
        assert((s_ms - (start_ms + slide_ms)) % slide_ms == 0) by (nonlinear_arith)
            requires
                (s_ms - start_ms) % slide_ms == 0,
                slide_ms > 0;
        assert((ts_ms - (start_ms + slide_ms)) / slide_ms + 1 == (ts_ms - start_ms) / slide_ms) by (nonlinear_arith)
            requires slide_ms > 0;
        assert(start_ms * 1_000_000 <= (start_ms + slide_ms) * 1_000_000 <= ts_ms * 1_000_000) by (nonlinear_arith)
            requires
                slide_ms > 0,
                start_ms + slide_ms <= ts_ms;
        assert(ms_fits(start_ms + slide_ms));
        if s <= e.timestamp.nanos < en {
            lemma_place(ws, st, Timestamp { nanos: en as i128 }, e);
        }
        lemma_steps_reach(step.0, e, start_ms + slide_ms, ts_ms, slide_ms, size, s_ms);
        let k = choose|k: int|
            0 <= k < rest.1.len() && 0 <= #[trigger] rest.1[k] < rest.0.len() && rest.0[rest.1[k] as int].start.nanos
                == s_ms * 1_000_000 && rest.0[rest.1[k] as int].last_of(e.entity_id) == Some(e);
        assert(r.1[step.1.len() + k] == rest.1[k]);
    }
}

/// A sliding window holds every event whose time it covers: for every start
/// `s` at or after the epoch that is a whole number of slides, with
/// `s <= t < s + size` for the event's time `t` (in whole milliseconds), the
/// event goes to a window that starts at `s`, where it becomes its entity's
/// latest event.
pub proof fn law_sliding_windows_cover_event(
    ws: Seq<WindowView>,
    e: EventView,
    size: TimeDelta,
    slide: TimeDelta,
    now: Timestamp,
    s_ms: int,
)
    requires
        e.timestamp.wf(),
        size.wf(),
        slide.wf(),
        delta_millis(size) > 0,
        delta_millis(slide) > 0,
        0 <= s_ms,
        s_ms % delta_millis(slide) == 0,
        s_ms <= floor_millis(e.timestamp) < s_ms + delta_millis(size),
        ws.len() + delta_millis(size) / delta_millis(slide) + 2 < usize::MAX,
    ensures
        ({
            let r = assign_spec(WindowStrategy::Sliding { size, slide }, ws, e, now);
            exists|k: int|
                0 <= k < r.1.len() && 0 <= #[trigger] r.1[k] < r.0.len() && r.0[r.1[k] as int].start.nanos == s_ms
                    * 1_000_000 && r.0[r.1[k] as int].last_of(e.entity_id) == Some(e)
        }),
{
    let size_ms = delta_millis(size);
    let slide_ms = delta_millis(slide);
    let ts_ms = floor_millis(e.timestamp);
    let t = e.timestamp.nanos as int;
    assert(size_ms == size.nanos / 1_000_000);
    assert(size_ms * 1_000_000 <= size.nanos) by (nonlinear_arith)
        requires size_ms == size.nanos / 1_000_000, size_ms > 0;
    assert(ts_ms * 1_000_000 <= t < ts_ms * 1_000_000 + 1_000_000) by (nonlinear_arith)
        requires ts_ms == t / 1_000_000;
    assert(s_ms * 1_000_000 <= t) by (nonlinear_arith)
        requires s_ms <= ts_ms, ts_ms * 1_000_000 <= t;
    assert(t < s_ms * 1_000_000 + size.nanos) by (nonlinear_arith)
        requires
            ts_ms + 1 <= s_ms + size_ms,
            t < ts_ms * 1_000_000 + 1_000_000,
            size_ms * 1_000_000 <= size.nanos;
    let x = ts_ms - size_ms + slide_ms;
    let earliest = sliding_earliest(ts_ms, size_ms, slide_ms);
    lemma_trunc_mul_between(x, slide_ms);
    // The first start tried is a whole number of slides, no later than `s_ms`
    // and less than one window length before the event.
    let a = s_ms / slide_ms;
    vstd::arithmetic::div_mod::lemma_fundamental_div_mod(s_ms, slide_ms);
    assert(s_ms == a * slide_ms) by (nonlinear_arith)
        requires s_ms == slide_ms * a + s_ms % slide_ms, s_ms % slide_ms == 0;
    let c = if x >= 0 { x / slide_ms } else { -((-x) / slide_ms) };
    if x >= 0 {
        assert(earliest == c * slide_ms);
        vstd::arithmetic::div_mod::lemma_fundamental_div_mod(x, slide_ms);
        assert(earliest > x - slide_ms) by (nonlinear_arith)
            requires
                earliest == c * slide_ms,
                x == slide_ms * c + x % slide_ms,
                x % slide_ms < slide_ms;
        assert(a >= c) by (nonlinear_arith)
            requires
                s_ms == a * slide_ms,
                earliest == c * slide_ms,
                s_ms > x - slide_ms,
                earliest <= x,
                slide_ms > 0;
    } else {
        assert(earliest == c * slide_ms) by (nonlinear_arith)
            requires earliest == -((-x) / slide_ms) * slide_ms, c == -((-x) / slide_ms);
        assert(a >= c) by (nonlinear_arith)
            requires
                s_ms == a * slide_ms,
                earliest == c * slide_ms,
                s_ms >= 0,
                earliest <= 0,
                slide_ms > 0;
    }
    assert(s_ms - earliest == (a - c) * slide_ms) by (nonlinear_arith)
        requires s_ms == a * slide_ms, earliest == c * slide_ms;
    vstd::arithmetic::div_mod::lemma_mod_multiples_basic(a - c, slide_ms);
    assert(earliest <= s_ms) by (nonlinear_arith)
        requires s_ms - earliest == (a - c) * slide_ms, a >= c, slide_ms > 0;
    assert(ts_ms - earliest < size_ms);
    assert((ts_ms - earliest) / slide_ms <= size_ms / slide_ms) by (nonlinear_arith)
        requires
            0 <= ts_ms - earliest < size_ms,
            slide_ms > 0;
    lemma_floor_millis_in_range(e.timestamp);
    assert(ms_fits(ts_ms)) by (nonlinear_arith)
        requires
            ts_ms * 1_000_000 <= t,
            t <= crate::time::MAX_NANOS,
            instant_in_range(ts_ms * 1_000_000);
    assert(earliest > ts_ms - size_ms);
    assert(earliest * 1_000_000 >= (ts_ms - size_ms) * 1_000_000 && earliest * 1_000_000 <= ts_ms * 1_000_000)
        by (nonlinear_arith)
        requires
            earliest > ts_ms - size_ms,
            earliest <= ts_ms;
    assert((ts_ms - size_ms) * 1_000_000 == ts_ms * 1_000_000 - size_ms * 1_000_000) by (nonlinear_arith);
    assert(ms_fits(earliest));
    lemma_steps_reach(ws, e, earliest, ts_ms, slide_ms, size, s_ms);
    let r = assign_spec(WindowStrategy::Sliding { size, slide }, ws, e, now);
    assert(r == sliding_steps(ws, e, earliest, ts_ms, slide_ms, size));
}

/// Is `e` less than `gap` after the latest event of its entity in `w` (the
/// last event on the entity's list there)?
pub open spec fn follows_latest(w: WindowView, e: EventView, gap: TimeDelta) -> bool {
    let k = key_index(view_keys(w.events), e.entity_id);
    &&& k >= 0
    &&& w.events[k].1.len() > 0
    &&& e.timestamp.nanos - w.events[k].1.last().timestamp.nanos < gap.nanos
}

/// A session continues from the entity's latest event: where `ws[i]` is the
/// first window in which the entity's latest event lies less than `gap`
/// before `e`, the event goes to that window, whose end moves to `gap`
/// after the event; no window is added and the others stay as they were.
pub proof fn law_session_joins_latest_event(ws: Seq<WindowView>, e: EventView, gap: TimeDelta, now: Timestamp, i: int)
    requires
        0 <= i < ws.len(),
        ws.len() <= usize::MAX,
        follows_latest(ws[i], e, gap),
        forall|j: int| 0 <= j < i ==> !follows_latest(#[trigger] ws[j], e, gap),
    ensures
        ({
            let r = assign_spec(WindowStrategy::Session { gap }, ws, e, now);
            &&& r.1 == seq![i as usize]
            &&& r.0.len() == ws.len()
            &&& r.0[i] == (WindowView { end: Timestamp { nanos: (e.timestamp.nanos + gap.nanos) as i128 }, ..ws[i] }).add(e)
            &&& forall|j: int| 0 <= j < ws.len() && j != i ==> #[trigger] r.0[j] == ws[j]
        }),
{
    assert forall|j: int| 0 <= j < ws.len() implies (session_within(#[trigger] ws[j], e, gap) <==> follows_latest(ws[j], e, gap)) by {}
    lemma_session_index_at(ws, e, gap, i);
}

/// An event that follows no latest event of its entity closely enough opens
/// a new session: a window from the event's time to `gap` after it, added
/// at the end.
pub proof fn law_session_opens_new_window(ws: Seq<WindowView>, e: EventView, gap: TimeDelta, now: Timestamp)
    requires
        forall|j: int| 0 <= j < ws.len() ==> !follows_latest(#[trigger] ws[j], e, gap),
    ensures
        ({
            let r = assign_spec(WindowStrategy::Session { gap }, ws, e, now);
            &&& r.1 == seq![ws.len() as usize]
            &&& r.0 == ws.push(WindowView::empty(e.timestamp, Timestamp { nanos: (e.timestamp.nanos + gap.nanos) as i128 }).add(e))
        }),
{
    assert forall|j: int| 0 <= j < ws.len() implies (session_within(#[trigger] ws[j], e, gap) <==> follows_latest(ws[j], e, gap)) by {}
    lemma_session_index_absent(ws, e, gap);
}

fn assign_count(windows: &mut Vec<Window>, size: usize, event: Event) -> (r: Vec<usize>)
    requires
        all_events_wf(windows_view(old(windows)@)),
        assign_ok(
            ManagerView { strategy: WindowStrategy::Count { size }, windows: windows_view(old(windows)@) },
            event@,
        ),
    ensures
        exists|now: Timestamp|
            now.wf() && (windows_view(final(windows)@), r@) == #[trigger] assign_spec(
                WindowStrategy::Count { size },
                windows_view(old(windows)@),
                event@,
                now,
            ),
        all_events_wf(windows_view(final(windows)@)),
{
    let ghost ws = windows_view(windows@);
    let ghost ev = event@;
    let mut assigned: Vec<usize> = Vec::new();
    let n: usize = windows.len();
    let mut room: bool = false;
    if n > 0 {
        assert(windows@[n - 1]@ == ws.last());
        let c: usize = windows[n - 1].count();
        room = c < size;
    }
    if room {
        proof {
            assert(ws[n - 1].events_wf());
            lemma_add_wf(ws[n - 1], ev);
        }
        let ghost before = windows@;
        let mut w: Window = windows.remove(n - 1);
        w.add(event);
        windows.insert(n - 1, w);
        assert(windows@ =~= before.update(n - 1, w));
        assert(windows_view(windows@) =~= ws.update(n - 1, ws.last().add(ev)));
        assigned.push(n - 1);
        assert(assigned@ =~= seq![(n - 1) as usize]);
        assert((windows_view(windows@), assigned@) == assign_spec(WindowStrategy::Count { size }, ws, ev, Timestamp { nanos: 0 }));
    } else {
        let now: Timestamp = Timestamp::now();
        proof {
            lemma_add_wf(WindowView::empty(now, now), ev);
        }
        let mut w: Window = Window::new(now, now);
        w.add(event);
        windows.push(w);
        assert(windows_view(windows@) =~= ws.push(WindowView::empty(now, now).add(ev)));
        assigned.push(n);
        assert(assigned@ =~= seq![n]);
        assert((windows_view(windows@), assigned@) == assign_spec(WindowStrategy::Count { size }, ws, ev, now));
    }
    assigned
}

impl WindowManager {
    /// A manager with no windows yet.
    pub fn new(strategy: WindowStrategy) -> (r: WindowManager)
        ensures
            r@ == (ManagerView { strategy, windows: Seq::empty() }),
    {
        let r = WindowManager { strategy, windows: Vec::new() };
        assert(windows_view(r.windows@) =~= Seq::<WindowView>::empty());
        r
    }

    /// Assigns `event` to the window(s) it belongs in under the strategy,
    /// creating windows as needed; gives the indices of those windows.
    pub fn assign(&mut self, event: Event) -> (r: Vec<usize>)
        requires
            all_events_wf(old(self)@.windows),
            assign_ok(old(self)@, event@),
        ensures
            final(self)@.strategy == old(self)@.strategy,
            all_events_wf(final(self)@.windows),
            !(old(self)@.strategy is Count) ==> (final(self)@.windows, r@) == assign_spec(
                old(self)@.strategy,
                old(self)@.windows,
                event@,
                Timestamp { nanos: 0 },
            ),
            old(self)@.strategy is Count ==> exists|now: Timestamp|
                now.wf() && (final(self)@.windows, r@) == #[trigger] assign_spec(
                    old(self)@.strategy,
                    old(self)@.windows,
                    event@,
                    now,
                ),
    {
        match self.strategy {
            WindowStrategy::Tumbling { duration } => assign_tumbling(&mut self.windows, duration, event),
            WindowStrategy::Sliding { size, slide } => assign_sliding(&mut self.windows, size, slide, event),
            WindowStrategy::Session { gap } => assign_session(&mut self.windows, gap, event),
            WindowStrategy::Count { size } => assign_count(&mut self.windows, size, event),
        }
    }

    /// Removes and returns the windows whose end is at or before
    /// `watermark`, in their order; the others stay, in their order.
    pub fn expire(&mut self, watermark: &Timestamp) -> (r: Vec<Window>)
        requires
            all_events_wf(old(self)@.windows),
        ensures
            final(self)@.strategy == old(self)@.strategy,
            windows_view(r@) == old(self)@.windows.filter(|w: WindowView| w.end.nanos <= watermark.nanos),
            final(self)@.windows == old(self)@.windows.filter(|w: WindowView| w.end.nanos > watermark.nanos),
            all_events_wf(final(self)@.windows),
    {
        let ghost ws = self@.windows;
        let ghost expired_pred = |w: WindowView| w.end.nanos <= watermark.nanos;
        let ghost active_pred = |w: WindowView| w.end.nanos > watermark.nanos;
        let mut taken: Vec<Window> = Vec::new();
        std::mem::swap(&mut taken, &mut self.windows);
        let mut expired: Vec<Window> = Vec::new();
        let mut active: Vec<Window> = Vec::new();
        let ghost mut i: int = 0;
        while taken.len() > 0
            invariant
                0 <= i <= ws.len(),
                taken@.len() == ws.len() - i,
                windows_view(taken@) == ws.subrange(i, ws.len() as int),
                windows_view(expired@) == ws.subrange(0, i).filter(expired_pred),
                windows_view(active@) == ws.subrange(0, i).filter(active_pred),
                all_events_wf(ws),
                expired_pred == (|w: WindowView| w.end.nanos <= watermark.nanos),
                active_pred == (|w: WindowView| w.end.nanos > watermark.nanos),
            decreases taken@.len(),
        {
            let ghost before = taken@;
            assert(windows_view(before)[0] == ws[i]);
            let w: Window = taken.remove(0);
            assert(taken@ =~= before.subrange(1, before.len() as int));
            assert(w@ == ws[i]);
            assert forall|k: int| 0 <= k < taken@.len() implies windows_view(taken@)[k] == ws.subrange(i + 1, ws.len() as int)[k] by {
                assert(taken@[k] == before[k + 1]);
                assert(windows_view(before)[k + 1] == ws.subrange(i, ws.len() as int)[k + 1]);
            }
            assert(windows_view(taken@) =~= ws.subrange(i + 1, ws.len() as int));
            proof {
                reveal_with_fuel(Seq::<_>::filter, 1);
            }
            assert(ws.subrange(0, i + 1).drop_last() =~= ws.subrange(0, i));
            assert(ws.subrange(0, i + 1).last() == ws[i]);
            if w.end.nanos <= watermark.nanos {
                expired.push(w);
                assert(windows_view(expired@) =~= ws.subrange(0, i).filter(expired_pred).push(ws[i]));
            } else {
                active.push(w);
                assert(windows_view(active@) =~= ws.subrange(0, i).filter(active_pred).push(ws[i]));
            }
            proof {
                i = i + 1;
            }
        }
        assert(ws.subrange(0, i) =~= ws);
        self.windows = active;
        proof {
            let f = ws.filter(active_pred);
            assert forall|k: int| 0 <= k < f.len() implies #[trigger] f[k].events_wf() by {
                assert(f.contains(f[k]));
                ws.lemma_filter_contains_rev(active_pred, f[k]);
                let m = choose|m: int| 0 <= m < ws.len() && ws[m] == f[k];
                assert(ws[m].events_wf());
            }
        }
        expired
    }

    /// A reference to all current windows.
    pub fn windows(&self) -> (r: &[Window])
        ensures
            windows_view(r@) == self@.windows,
    {
        self.windows.as_slice()
    }
}

} // verus!
