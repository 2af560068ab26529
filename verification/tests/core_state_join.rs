use fluvius::checkpoint::{restore_into, CheckpointManager};
use fluvius::event::{Event, Payload};
use fluvius::metrics::Metrics;
use fluvius::state::StateStore;
use fluvius::temporal_join::{JoinType, TemporalJoin};
use fluvius::time::{Duration, TimeDelta, Timestamp};
use serde_json::Value;

fn bits(x: f64) -> u64 {
    x.to_bits()
}

fn object(fields: &[(&str, Value)]) -> Value {
    let mut m = serde_json::Map::new();
    for (k, v) in fields {
        m.insert(k.to_string(), v.clone());
    }
    Value::Object(m)
}

#[test]
fn test_inner_join_match() {
    let mut join = TemporalJoin::new("test", Duration::from_secs(5), JoinType::Inner);
    let now = Timestamp::now();
    let left = Event::new("v1", bits(0.0), bits(0.0), now);
    let right = Event::new("v1", bits(1.0), bits(1.0), now.add(TimeDelta::seconds(2)));
    let r1 = join.push_left(left);
    assert!(r1.is_empty());
    let r2 = join.push_right(right);
    assert_eq!(r2.len(), 1);
}

#[test]
fn test_inner_join_no_match_different_entity() {
    let mut join = TemporalJoin::new("test", Duration::from_secs(5), JoinType::Inner);
    let now = Timestamp::now();
    let left = Event::new("v1", bits(0.0), bits(0.0), now);
    let right = Event::new("v2", bits(1.0), bits(1.0), now.add(TimeDelta::seconds(2)));
    join.push_left(left);
    let r = join.push_right(right);
    assert!(r.is_empty());
}

#[test]
fn test_left_outer_flush() {
    let mut join = TemporalJoin::new("test", Duration::from_secs(5), JoinType::LeftOuter);
    let now = Timestamp::now();
    let left = Event::new("v1", bits(0.0), bits(0.0), now);
    join.push_left(left);
    let expired = join.flush_expired(now.add(TimeDelta::seconds(10)));
    assert_eq!(expired.len(), 1);
}

#[test]
fn join_output_names_both_sides() {
    let t0 = Timestamp::from_timestamp(1_000, 0).unwrap();
    let mut join = TemporalJoin::new("j", Duration::from_secs(5), JoinType::Inner);
    let right = Event::new("v1", bits(1.0), bits(1.0), t0);
    assert!(join.push_right(right).is_empty());
    let left = Event::new("v1", bits(0.0), bits(0.0), t0.add(TimeDelta::seconds(3)));
    let out = join.push_left(left);
    assert_eq!(out.len(), 1);
    assert_eq!(out[0].operator, "j");
    match &out[0].payload {
        Payload::Join { join_type, left_entity, left_time, right } => {
            assert_eq!(*join_type, JoinType::Inner);
            assert_eq!(left_entity, "v1");
            assert_eq!(*left_time, t0.add(TimeDelta::seconds(3)));
            let r = right.as_ref().unwrap();
            assert_eq!(r.entity, "v1");
            assert_eq!(r.time, t0);
            assert_eq!(r.lon, bits(1.0));
        }
        other => panic!("unexpected payload {:?}", other),
    }
}

#[test]
fn join_outside_window_does_not_match() {
    let t0 = Timestamp::from_timestamp(1_000, 0).unwrap();
    let mut join = TemporalJoin::new("j", Duration::from_secs(5), JoinType::Inner);
    join.push_left(Event::new("v1", 0, 0, t0));
    let out = join.push_right(Event::new("v1", 0, 0, t0.add(TimeDelta::seconds(6))));
    assert!(out.is_empty());
}

#[test]
fn inner_join_flush_emits_nothing() {
    let t0 = Timestamp::from_timestamp(1_000, 0).unwrap();
    let mut join = TemporalJoin::new("j", Duration::from_secs(5), JoinType::Inner);
    join.push_left(Event::new("v1", 0, 0, t0));
    assert!(join.flush_expired(t0.add(TimeDelta::seconds(10))).is_empty());
}

#[test]
fn left_outer_flush_reports_no_match() {
    let t0 = Timestamp::from_timestamp(1_000, 0).unwrap();
    let mut join = TemporalJoin::new("j", Duration::from_secs(5), JoinType::LeftOuter);
    join.push_left(Event::new("v1", 0, 0, t0));
    join.push_left(Event::new("v2", 0, 0, t0.add(TimeDelta::seconds(8))));
    let out = join.flush_expired(t0.add(TimeDelta::seconds(10)));
    assert_eq!(out.len(), 1);
    match &out[0].payload {
        Payload::Join { join_type, left_entity, right, .. } => {
            assert_eq!(*join_type, JoinType::LeftOuter);
            assert_eq!(left_entity, "v1");
            assert!(right.is_none());
        }
        other => panic!("unexpected payload {:?}", other),
    }
    // The later event is still buffered and expires later.
    assert_eq!(join.flush_expired(t0.add(TimeDelta::seconds(20))).len(), 1);
}

#[test]
fn test_state_store_crud() {
    let mut store = StateStore::new();
    store.set("vehicle-1:position", object(&[("lon", Value::from(1.0)), ("lat", Value::from(2.0))]));
    store.set("vehicle-2:position", object(&[("lon", Value::from(3.0)), ("lat", Value::from(4.0))]));
    assert_eq!(store.len(), 2);
    let entry = store.get("vehicle-1:position").unwrap();
    assert_eq!(entry.value["lon"], 1.0);
    store.remove("vehicle-1:position");
    assert_eq!(store.len(), 1);
    assert!(store.get("vehicle-1:position").is_none());
}

#[test]
fn state_set_replaces_and_clear_empties() {
    let mut store = StateStore::default();
    assert!(store.is_empty());
    store.set("k", Value::from(1));
    store.set("k", Value::from(2));
    assert_eq!(store.len(), 1);
    assert_eq!(store.get("k").unwrap().value, Value::from(2));
    store.set("j", Value::from("x"));
    let mut keys = store.keys();
    keys.sort();
    assert_eq!(keys, vec!["j".to_string(), "k".to_string()]);
    assert_eq!(store.remove("k").map(|e| e.value), Some(Value::from(2)));
    assert!(store.remove("k").is_none());
    store.clear();
    assert!(store.is_empty());
    assert_eq!(store.len(), 0);
}

#[test]
fn test_metrics_basic() {
    let mut m = Metrics::new();
    m.inc_received();
    m.inc_received();
    m.inc_emitted();
    m.inc_filtered();
    m.inc_late();
    m.record_processing_time(100);
    m.record_processing_time(200);
    assert_eq!(m.events_received(), 2);
    assert_eq!(m.events_emitted(), 1);
    assert_eq!(m.events_filtered(), 1);
    assert_eq!(m.events_late(), 1);
    assert_eq!(m.avg_processing_time_hundredths() as f64 / 100.0, 150.0);
}

#[test]
fn test_prometheus_format() {
    let mut m = Metrics::new();
    m.inc_received();
    let output = m.to_prometheus("fluvius");
    assert!(output.contains("fluvius_events_received_total 1"));
    assert!(output.contains("# TYPE fluvius_events_received_total counter"));
}

#[test]
fn prometheus_text_is_exact() {
    let mut m = Metrics::default();
    m.inc_emitted();
    m.record_processing_time(1);
    m.record_processing_time(2);
    m.record_processing_time(2);
    let expected = "# HELP p_events_received_total Total events received\n\
# TYPE p_events_received_total counter\n\
p_events_received_total 0\n\
# HELP p_events_emitted_total Total events emitted\n\
# TYPE p_events_emitted_total counter\n\
p_events_emitted_total 1\n\
# HELP p_events_filtered_total Total events filtered out\n\
# TYPE p_events_filtered_total counter\n\
p_events_filtered_total 0\n\
# HELP p_events_late_total Total late events\n\
# TYPE p_events_late_total counter\n\
p_events_late_total 0\n\
# HELP p_processing_time_avg_us Average processing time in microseconds\n\
# TYPE p_processing_time_avg_us gauge\n\
p_processing_time_avg_us 1.67\n";
    assert_eq!(m.to_prometheus("p"), expected);
    assert_eq!(format!("{:.2}", 5.0f64 / 3.0), "1.67");
}

#[test]
fn average_rounds_like_two_decimals() {
    // 1/8 = 0.125 prints as 0.12, 3/8 = 0.375 as 0.38: ties go to the even digit.
    let mut m = Metrics::new();
    m.record_processing_time(1);
    for _ in 0..7 {
        m.record_processing_time(0);
    }
    assert_eq!(m.avg_processing_time_hundredths(), 12);
    assert_eq!(format!("{:.2}", 0.125f64), "0.12");
    let mut m = Metrics::new();
    m.record_processing_time(3);
    for _ in 0..7 {
        m.record_processing_time(0);
    }
    assert_eq!(m.avg_processing_time_hundredths(), 38);
    assert_eq!(format!("{:.2}", 0.375f64), "0.38");
    assert!(m.to_prometheus("x").ends_with("x_processing_time_avg_us 0.38\n"));
}

#[test]
fn metrics_reset_and_empty_average() {
    let mut m = Metrics::new();
    assert_eq!(m.avg_processing_time_hundredths(), 0);
    assert!(m.to_prometheus("z").ends_with("z_processing_time_avg_us 0.00\n"));
    m.inc_received();
    m.record_processing_time(7);
    assert_eq!(m.processing_time_us(), 7);
    assert_eq!(m.processing_count(), 1);
    m.reset();
    assert_eq!(m.events_received(), 0);
    assert_eq!(m.processing_count(), 0);
    assert_eq!(m.processing_time_us(), 0);
}

#[test]
fn test_checkpoint_and_restore() {
    let mut mgr = CheckpointManager::new("checkpoints", 3, vec![]);
    let mut state = StateStore::new();
    state.set("key1", Value::from("value1"));
    state.set("key2", Value::from(42));
    let cp = mgr.snapshot(&state);
    mgr.commit();
    assert_eq!(cp.id, 0);
    assert_eq!(cp.entries.len(), 2);
    let mut new_state = StateStore::new();
    restore_into(&cp, &mut new_state);
    assert_eq!(cp.id, 0);
    assert!(new_state.get("key1").is_some());
    assert!(new_state.get("key2").is_some());
    assert_eq!(new_state.get("key2").unwrap().value, Value::from(42));
    assert_eq!(mgr.next_id(), 1);
}

#[test]
fn test_checkpoint_gc() {
    let mgr = CheckpointManager::new("checkpoints", 2, vec![0, 1, 2]);
    let existing = vec![0u64, 1, 2];
    let victims = mgr.gc_victims(existing.clone());
    assert_eq!(existing.len() - victims.len(), 2);
    assert_eq!(victims, vec![0]);
}

#[test]
fn checkpoint_numbering_continues() {
    let mgr = CheckpointManager::new("d", 5, vec![3, 9, 4]);
    assert_eq!(mgr.next_id(), 10);
    assert_eq!(mgr.dir(), "d");
    assert_eq!(mgr.gc_victims(vec![9, 3, 4, 1]), Vec::<u64>::new());
    let mgr = CheckpointManager::new("d", 1, vec![]);
    assert_eq!(mgr.next_id(), 0);
    assert_eq!(mgr.gc_victims(vec![9, 3, 4, 1]), vec![1, 3, 4]);
}

#[test]
fn checkpoint_file_names() {
    assert_eq!(CheckpointManager::checkpoint_file_name(0), "checkpoint_00000000.json");
    assert_eq!(CheckpointManager::checkpoint_file_name(42), "checkpoint_00000042.json");
    assert_eq!(CheckpointManager::checkpoint_file_name(123_456_789), "checkpoint_123456789.json");
    assert_eq!(CheckpointManager::checkpoint_file_name(7), format!("checkpoint_{:08}.json", 7));
}

#[test]
fn restore_keeps_other_keys() {
    let mut src = StateStore::new();
    src.set("a", Value::from(1));
    let mgr = CheckpointManager::new("d", 2, vec![]);
    let cp = mgr.snapshot(&src);
    let mut dst = StateStore::new();
    dst.set("b", Value::from(2));
    dst.set("a", Value::from(0));
    restore_into(&cp, &mut dst);
    assert_eq!(dst.len(), 2);
    assert_eq!(dst.get("a").unwrap().value, Value::from(1));
    assert_eq!(dst.get("b").unwrap().value, Value::from(2));
}

fn metrics_with(total: u64, count: u64) -> Metrics {
    let mut m = Metrics::new();
    m.record_processing_time(total);
    for _ in 1..count {
        m.record_processing_time(0);
    }
    m
}

fn as_text(h: u128) -> String {
    format!("{}.{:02}", h / 100, h % 100)
}

#[test]
fn average_is_the_double_quotient_printed_with_two_decimals() {
    // 3.0 / 200.0 as a double lies just below 0.015.
    let m = metrics_with(3, 200);
    assert_eq!(m.avg_processing_time_hundredths(), 1);
    assert!(m.to_prometheus("p").ends_with("p_processing_time_avg_us 0.01\n"));
    assert_eq!(format!("{:.2}", 3.0f64 / 200.0), "0.01");
    let totals = [
        0u64, 1, 2, 3, 5, 7, 10, 99, 101, 12345, 1 << 52, (1 << 53) + 1, (1 << 53) + 3, 9_007_199_254_740_993,
        123_456_789_012_345_678, u64::MAX - 1, u64::MAX,
    ];
    for &total in totals.iter() {
        for count in 1..=40u64 {
            let m = metrics_with(total, count);
            let expected = format!("{:.2}", total as f64 / count as f64);
            assert_eq!(as_text(m.avg_processing_time_hundredths()), expected, "{total} / {count}");
        }
    }
}

#[test]
fn gc_victims_are_the_oldest_in_order_with_repeats() {
    let mgr = CheckpointManager::new("d", 1, vec![7, 2, 7]);
    assert_eq!(mgr.next_id(), 8);
    assert_eq!(mgr.gc_victims(vec![5, 2, 5, 1]), vec![1, 2, 5]);
    assert_eq!(mgr.gc_victims(vec![3, 3]), vec![3]);
}
