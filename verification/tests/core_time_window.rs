use fluvius::event::Event;
use fluvius::time::{Duration, TimeDelta, Timestamp, MAX_NANOS, MIN_NANOS};
use fluvius::watermark::Watermark;
use fluvius::window::{WindowManager, WindowStrategy};

fn ts(secs: i64) -> Timestamp {
    Timestamp::from_timestamp(secs, 0).unwrap()
}

fn at(entity: &str, lon: f64, lat: f64, t: Timestamp) -> Event {
    Event::new(entity, lon.to_bits(), lat.to_bits(), t)
}

#[test]
fn test_watermark_advance() {
    let mut wm = Watermark::new(TimeDelta::seconds(5));
    let ts1 = ts(100);
    let ts2 = ts(110);
    assert!(wm.advance(&ts1));
    assert!(wm.advance(&ts2));
    assert_eq!(*wm.current(), ts(105));
}

#[test]
fn test_late_events() {
    let mut wm = Watermark::new(TimeDelta::seconds(2));
    let ts1 = ts(100);
    let ts2 = ts(90);
    wm.advance(&ts1);
    let accepted = wm.advance(&ts2);
    assert!(!accepted);
    assert_eq!(wm.late_count(), 1);
}

#[test]
fn test_within_lateness_tolerance() {
    let mut wm = Watermark::new(TimeDelta::seconds(10));
    let ts1 = ts(100);
    let ts2 = ts(88);
    wm.advance(&ts1);
    let accepted = wm.advance(&ts2);
    assert!(accepted);
    assert_eq!(wm.late_count(), 1);
}

#[test]
fn watermark_is_late_before_its_position() {
    let mut wm = Watermark::new(TimeDelta::seconds(10));
    assert!(wm.advance(&ts(100)));
    assert!(wm.is_late(&ts(89)));
    assert!(!wm.is_late(&ts(90)));
    // an on-time event just at the watermark leaves it where it is
    assert!(wm.advance(&ts(90)));
    assert_eq!(*wm.current(), ts(90));
    assert_eq!(wm.late_count(), 0);
}

#[test]
fn test_tumbling_window() {
    let strategy = WindowStrategy::Tumbling { duration: TimeDelta::seconds(10) };
    let mut mgr = WindowManager::new(strategy);
    let t = ts(1000);
    let e1 = at("a", 0.0, 0.0, t);
    let e2 = at("b", 1.0, 1.0, t.add(TimeDelta::seconds(3)));
    let e3 = at("a", 2.0, 2.0, t.add(TimeDelta::seconds(11)));
    let idx1 = mgr.assign(e1);
    let idx2 = mgr.assign(e2);
    let idx3 = mgr.assign(e3);
    assert_eq!(idx1, idx2);
    assert_ne!(idx1, idx3);
    assert_eq!(mgr.windows().len(), 2);
    assert_eq!(mgr.windows()[0].count(), 2);
    assert_eq!(mgr.windows()[1].count(), 1);
}

#[test]
fn test_sliding_window() {
    let strategy = WindowStrategy::Sliding { size: TimeDelta::seconds(10), slide: TimeDelta::seconds(5) };
    let mut mgr = WindowManager::new(strategy);
    let e1 = at("a", 0.0, 0.0, ts(1007));
    let assigned = mgr.assign(e1);
    assert_eq!(assigned.len(), 2);
}

#[test]
fn sliding_window_bounds() {
    let strategy = WindowStrategy::Sliding { size: TimeDelta::seconds(10), slide: TimeDelta::seconds(5) };
    let mut mgr = WindowManager::new(strategy);
    mgr.assign(at("a", 0.0, 0.0, ts(1007)));
    let ws = mgr.windows();
    assert_eq!(ws[0].start, ts(1000));
    assert_eq!(ws[0].end, ts(1010));
    assert_eq!(ws[1].start, ts(1005));
    assert_eq!(ws[1].end, ts(1015));
    // an event on a window boundary belongs to the window starting there only once
    let assigned = mgr.assign(at("b", 0.0, 0.0, ts(1010)));
    assert_eq!(assigned, vec![1, 2]);
}

#[test]
fn test_session_window() {
    let strategy = WindowStrategy::Session { gap: TimeDelta::seconds(5) };
    let mut mgr = WindowManager::new(strategy);
    let t = ts(1000);
    mgr.assign(at("a", 0.0, 0.0, t));
    mgr.assign(at("a", 1.0, 1.0, t.add(TimeDelta::seconds(3))));
    mgr.assign(at("a", 2.0, 2.0, t.add(TimeDelta::seconds(20))));
    assert_eq!(mgr.windows().len(), 2);
    assert_eq!(mgr.windows()[0].count(), 2);
    assert_eq!(mgr.windows()[1].count(), 1);
    assert_eq!(mgr.windows()[0].end, t.add(TimeDelta::seconds(8)));
}

#[test]
fn session_windows_are_per_entity() {
    let strategy = WindowStrategy::Session { gap: TimeDelta::seconds(5) };
    let mut mgr = WindowManager::new(strategy);
    let t = ts(1000);
    assert_eq!(mgr.assign(at("a", 0.0, 0.0, t)), vec![0]);
    assert_eq!(mgr.assign(at("b", 0.0, 0.0, t.add(TimeDelta::seconds(1)))), vec![1]);
    assert_eq!(mgr.assign(at("a", 0.0, 0.0, t.add(TimeDelta::seconds(2)))), vec![0]);
    assert_eq!(mgr.windows()[0].entities(), vec!["a"]);
}

#[test]
fn test_count_window() {
    let strategy = WindowStrategy::Count { size: 3 };
    let mut mgr = WindowManager::new(strategy);
    for i in 0..7 {
        let name = format!("e{i}");
        let e = Event::now(&name, (i as f64).to_bits(), 0.0f64.to_bits());
        mgr.assign(e);
    }
    assert_eq!(mgr.windows().len(), 3);
    assert_eq!(mgr.windows()[0].count(), 3);
    assert_eq!(mgr.windows()[1].count(), 3);
    assert_eq!(mgr.windows()[2].count(), 1);
}

#[test]
fn test_window_expiration() {
    let strategy = WindowStrategy::Tumbling { duration: TimeDelta::seconds(10) };
    let mut mgr = WindowManager::new(strategy);
    let t = ts(1000);
    mgr.assign(at("a", 0.0, 0.0, t));
    mgr.assign(at("b", 0.0, 0.0, t.add(TimeDelta::seconds(15))));
    let watermark = t.add(TimeDelta::seconds(12));
    let expired = mgr.expire(&watermark);
    assert_eq!(expired.len(), 1);
    assert_eq!(expired[0].count(), 1);
    assert_eq!(mgr.windows().len(), 1);
}

#[test]
fn tumbling_windows_of_negative_times_truncate_toward_zero() {
    let strategy = WindowStrategy::Tumbling { duration: TimeDelta::seconds(10) };
    let mut mgr = WindowManager::new(strategy);
    mgr.assign(at("a", 0.0, 0.0, ts(-15)));
    assert_eq!(mgr.windows()[0].start, ts(-10));
    assert_eq!(mgr.windows()[0].end, ts(0));
}

#[test]
fn zero_length_windows_take_nothing() {
    let mut mgr = WindowManager::new(WindowStrategy::Tumbling { duration: TimeDelta::seconds(0) });
    assert!(mgr.assign(at("a", 0.0, 0.0, ts(5))).is_empty());
    assert!(mgr.windows().is_empty());
}

#[test]
fn window_contains_is_half_open() {
    let mut mgr = WindowManager::new(WindowStrategy::Tumbling { duration: TimeDelta::seconds(10) });
    mgr.assign(at("a", 0.0, 0.0, ts(1003)));
    let w = &mgr.windows()[0];
    assert!(w.contains(&ts(1000)));
    assert!(w.contains(&ts(1009)));
    assert!(!w.contains(&ts(1010)));
}

#[test]
fn time_conversions() {
    assert!(Timestamp::from_timestamp(0, 1_000_000_000).is_none());
    assert_eq!(Timestamp::from_timestamp(-1, 500_000_000).unwrap().timestamp_millis(), -500);
    assert_eq!(Timestamp { nanos: -1 }.timestamp_millis(), -1);
    assert_eq!(TimeDelta { nanos: -1_500_000 }.num_milliseconds(), -1);
    assert_eq!(Duration::from_millis(1500).as_millis(), 1500);
    assert_eq!(Duration::from_secs(5).as_millis(), 5000);
}

#[test]
fn time_range_matches_chrono() {
    let min = chrono::DateTime::<chrono::Utc>::MIN_UTC;
    let max = chrono::DateTime::<chrono::Utc>::MAX_UTC;
    let min_n = min.timestamp() as i128 * 1_000_000_000 + min.timestamp_subsec_nanos() as i128;
    let max_n = max.timestamp() as i128 * 1_000_000_000 + max.timestamp_subsec_nanos() as i128;
    assert_eq!(min_n, MIN_NANOS);
    assert_eq!(max_n, MAX_NANOS);
    assert!(Timestamp::from_timestamp(max.timestamp() + 1, 0).is_none());
}

#[test]
fn now_is_close_to_chrono_now() {
    let before = chrono::Utc::now().timestamp_millis();
    let t = Timestamp::now().timestamp_millis();
    let after = chrono::Utc::now().timestamp_millis();
    assert!(before <= t && t <= after);
}

#[test]
fn watermark_never_moves_back() {
    let mut wm = Watermark::new(TimeDelta::seconds(5));
    assert!(wm.advance(&ts(110)));
    assert_eq!(*wm.current(), ts(105));
    // An event at or after the watermark, but within the lateness, keeps it.
    assert!(wm.advance(&ts(106)));
    assert_eq!(*wm.current(), ts(105));
    assert_eq!(wm.late_count(), 0);
    assert!(wm.advance(&ts(120)));
    assert_eq!(*wm.current(), ts(115));
}

#[test]
fn count_windows_fill_in_turn() {
    let mut mgr = WindowManager::new(WindowStrategy::Count { size: 2 });
    for i in 0..5u64 {
        let r = mgr.assign(Event::now("e", i, 0));
        assert_eq!(r, vec![mgr.windows().len() - 1]);
    }
    assert_eq!(mgr.windows().len(), (5 + 2 - 1) / 2);
    let counts: Vec<usize> = mgr.windows().iter().map(|w| w.count()).collect();
    assert_eq!(counts, vec![2, 2, 1]);
}

#[test]
fn window_keeps_one_entry_per_entity() {
    let mut mgr = WindowManager::new(WindowStrategy::Tumbling { duration: TimeDelta::seconds(60) });
    mgr.assign(at("a", 1.0, 2.0, ts(0)));
    mgr.assign(at("b", 1.0, 2.0, ts(10)));
    mgr.assign(at("a", 3.0, 4.0, ts(20)));
    let w = &mgr.windows()[0];
    assert_eq!(w.count(), 3);
    assert_eq!(w.events.len(), 2);
    assert_eq!(w.events[0].0, "a");
    assert_eq!(w.events[0].1.len(), 2);
    assert_eq!(w.events[1].0, "b");
}

#[test]
fn unix_offsets_become_instants_within_range() {
    assert_eq!(Timestamp::from_unix_offset(false, 1, 5).nanos, 1_000_000_005);
    assert_eq!(Timestamp::from_unix_offset(true, 1, 5).nanos, -1_000_000_005);
    assert_eq!(Timestamp::from_unix_offset(false, 0, 0).nanos, 0);
    assert_eq!(Timestamp::from_unix_offset(false, u64::MAX, 0).nanos, MAX_NANOS);
    assert_eq!(Timestamp::from_unix_offset(true, u64::MAX, 999_999_999).nanos, MIN_NANOS);
    assert_eq!(Timestamp::from_unix_offset(false, 8_210_266_876_799, 999_999_999).nanos, MAX_NANOS);
}
