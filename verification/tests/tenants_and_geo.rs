use fluvius::event::{Event, Payload};
use fluvius::geofence::{GeofenceEvent, GeofenceTracker};
use fluvius::predict::{Trajectory, TrajectoryPoint, TrajectoryTracker};
use fluvius::proximity::PositionTable;
use fluvius::replay::{gap_ms, original_duration_ms, replay_gaps};
use fluvius::spatial_agg::{CellId, CellTally};
use fluvius::tenant::{RateBucket, TenantConfig, TenantError, TenantManager, TenantStats};
use fluvius::time::{TimeDelta, Timestamp};
use fluvius::topology::{
    default_interval_secs, default_max_retained, default_metrics_enabled, default_metrics_path,
    default_metrics_port, MetricsConfig,
};

fn test_tenant() -> TenantConfig {
    TenantConfig {
        id: "tenant-1".to_string(),
        name: "Test Corp".to_string(),
        api_key: "key-abc123".to_string(),
        rate_limit: 100,
        max_pipelines: 5,
        max_replay_buffer: 10_000,
        active: true,
    }
}

#[test]
fn test_register_and_authenticate() {
    let mut manager = TenantManager::new();
    manager.register(test_tenant());
    let result = manager.authenticate("key-abc123");
    assert_eq!(result.unwrap(), "tenant-1");
}

#[test]
fn test_invalid_key() {
    let manager = TenantManager::new();
    let result = manager.authenticate("invalid");
    assert!(result.is_err());
    assert_eq!(result, Err(TenantError::InvalidKey));
}

#[test]
fn test_rate_limiting() {
    let mut config = test_tenant();
    config.rate_limit = 2;
    let mut manager = TenantManager::new();
    manager.register(config);
    assert!(manager.check_rate_limit("tenant-1").is_ok());
    assert!(manager.check_rate_limit("tenant-1").is_ok());
    assert!(manager.check_rate_limit("tenant-1").is_err());
}

#[test]
fn rate_limit_refusal_is_counted() {
    let mut config = test_tenant();
    config.rate_limit = 1;
    let mut manager = TenantManager::default();
    manager.register(config);
    assert_eq!(manager.check_rate_limit("tenant-1"), Ok(()));
    assert_eq!(manager.check_rate_limit("tenant-1"), Err(TenantError::RateLimited(1)));
    assert_eq!(manager.get_stats("tenant-1").unwrap().events_rejected, 1);
    assert_eq!(manager.check_rate_limit("nobody"), Err(TenantError::NotFound("nobody".to_string())));
}

#[test]
fn test_record_event() {
    let mut manager = TenantManager::new();
    manager.register(test_tenant());
    manager.record_event("tenant-1", 256);
    manager.record_event("tenant-1", 512);
    let stats = manager.get_stats("tenant-1").unwrap();
    assert_eq!(stats.events_processed, 2);
    assert_eq!(stats.bytes_processed, 768);
}

#[test]
fn test_deactivate() {
    let mut manager = TenantManager::new();
    manager.register(test_tenant());
    manager.deactivate("tenant-1").unwrap();
    let tenant = manager.get_tenant("tenant-1").unwrap();
    assert!(!tenant.active);
}

#[test]
fn unknown_tenants() {
    let mut manager = TenantManager::new();
    assert_eq!(manager.deactivate("x"), Err(TenantError::NotFound("x".to_string())));
    assert!(manager.get_stats("x").is_none());
    assert!(manager.get_tenant("x").is_none());
    manager.record_event("x", 10);
    assert!(manager.list_tenants().is_empty());
    manager.register(test_tenant());
    assert_eq!(manager.list_tenants(), vec!["tenant-1".to_string()]);
    assert_eq!(
        manager.get_stats("tenant-1"),
        Some(TenantStats { events_processed: 0, events_rejected: 0, active_pipelines: 0, bytes_processed: 0 })
    );
}

#[test]
fn bucket_spends_exactly_its_tokens() {
    let mut b = RateBucket::new(3);
    let now = std::time::Instant::now();
    assert!(b.consume_after(0, now));
    assert!(b.consume_after(0, now));
    assert!(b.consume_after(0, now));
    assert!(!b.consume_after(0, now));
    // A third of a second at three tokens per second gives one token back.
    assert!(b.consume_after(333_333_334, now));
    assert!(!b.consume_after(0, now));
    // Refilling stops at twice the rate.
    assert!(b.consume_after(10_000_000_000, now));
    for _ in 0..5 {
        assert!(b.consume_after(0, now));
    }
    assert!(!b.consume_after(0, now));
}

fn inside(x: f64, y: f64, min: f64, max: f64) -> bool {
    min < x && x < max && min < y && y < max
}

fn checks(x: f64, y: f64, zones: &[(&str, f64, f64)]) -> Vec<(String, bool)> {
    zones.iter().map(|(n, lo, hi)| (n.to_string(), inside(x, y, *lo, *hi))).collect()
}

fn geofence_fields(p: &Payload) -> (String, GeofenceEvent, String) {
    match p {
        Payload::Geofence { zone, event, entity_id } => (zone.clone(), *event, entity_id.clone()),
        other => panic!("unexpected payload {:?}", other),
    }
}

#[test]
fn test_geofence_enter_exit() {
    let name = "geofence".to_string();
    let zones = [("zone_a", 0.0, 10.0)];
    let mut t = GeofenceTracker::new();
    let e1 = Event::now("car-1", (-5.0f64).to_bits(), (-5.0f64).to_bits());
    assert!(t.process_checks(&name, &e1, checks(-5.0, -5.0, &zones)).is_empty());
    let e2 = Event::now("car-1", 5.0f64.to_bits(), 5.0f64.to_bits());
    let out2 = t.process_checks(&name, &e2, checks(5.0, 5.0, &zones));
    assert_eq!(out2.len(), 1);
    let (zone, ev, _) = geofence_fields(&out2[0].payload);
    assert_eq!(ev, GeofenceEvent::Enter);
    assert_eq!(zone, "zone_a");
    let e3 = Event::now("car-1", 7.0f64.to_bits(), 7.0f64.to_bits());
    assert!(t.process_checks(&name, &e3, checks(7.0, 7.0, &zones)).is_empty());
    let e4 = Event::now("car-1", 15.0f64.to_bits(), 15.0f64.to_bits());
    let out4 = t.process_checks(&name, &e4, checks(15.0, 15.0, &zones));
    assert_eq!(out4.len(), 1);
    let (_, ev, _) = geofence_fields(&out4[0].payload);
    assert_eq!(ev, GeofenceEvent::Exit);
    assert_eq!(out4[0].operator, "geofence");
    assert_eq!(out4[0].source_event.id, e4.id);
}

#[test]
fn test_geofence_multiple_entities() {
    let name = "geofence".to_string();
    let zones = [("warehouse", 0.0, 10.0)];
    let mut t = GeofenceTracker::new();
    let out = t.process_checks(&name, &Event::now("car-1", 0, 0), checks(5.0, 5.0, &zones));
    assert_eq!(out.len(), 1);
    assert_eq!(geofence_fields(&out[0].payload).2, "car-1");
    let out = t.process_checks(&name, &Event::now("car-2", 0, 0), checks(3.0, 3.0, &zones));
    assert_eq!(out.len(), 1);
    assert_eq!(geofence_fields(&out[0].payload).2, "car-2");
}

#[test]
fn test_geofence_multiple_zones() {
    let name = "geofence".to_string();
    let zones = [("zone_a", 0.0, 10.0), ("zone_b", 5.0, 15.0)];
    let mut t = GeofenceTracker::new();
    let out = t.process_checks(&name, &Event::now("v1", 0, 0), checks(7.0, 7.0, &zones));
    assert_eq!(out.len(), 2);
    assert_eq!(geofence_fields(&out[0].payload).0, "zone_a");
    assert_eq!(geofence_fields(&out[1].payload).0, "zone_b");
}

#[test]
fn cell_tally_counts_and_starts_over() {
    let mut t = CellTally::new();
    let c = CellId { col: 19, row: 11 };
    let d = CellId { col: 0, row: 0 };
    let a = "a".to_string();
    let b = "b".to_string();
    let u = t.observe(c, &a, 3);
    assert_eq!((u.count, u.unique_entities, u.reached), (1, 1, false));
    let u = t.observe(d, &a, 3);
    assert_eq!((u.count, u.unique_entities, u.reached), (1, 1, false));
    let u = t.observe(c, &a, 3);
    assert_eq!((u.count, u.unique_entities, u.reached), (2, 1, false));
    assert_eq!(t.density_map(), vec![(c, 2), (d, 1)]);
    let u = t.observe(c, &b, 3);
    assert_eq!((u.count, u.unique_entities, u.reached), (3, 2, true));
    assert_eq!(t.density_map(), vec![(d, 1)]);
    let u = t.observe(c, &b, 3);
    assert_eq!((u.count, u.unique_entities, u.reached), (1, 1, false));
    t.reset();
    assert!(t.density_map().is_empty());
}

fn point(secs: i64) -> TrajectoryPoint {
    TrajectoryPoint {
        lon: 1.0f64.to_bits(),
        lat: 51.0f64.to_bits(),
        timestamp: Timestamp::from_timestamp(secs, 0).unwrap(),
        speed: None,
        heading: None,
    }
}

#[test]
fn trajectory_keeps_the_latest_points() {
    let mut t = Trajectory::new("s".to_string(), 2);
    t.add_point(point(1));
    t.add_point(point(2));
    t.add_point(point(3));
    assert_eq!(t.points.len(), 2);
    assert_eq!(t.points[0], point(2));
    assert_eq!(t.points[1], point(3));
}

#[test]
fn tracker_groups_points_by_entity() {
    let mut tracker = TrajectoryTracker::new(50);
    let t1 = Timestamp::from_timestamp(1_700_000_000, 0).unwrap();
    let t2 = Timestamp::from_timestamp(1_700_000_010, 0).unwrap();
    tracker.update(&Event::new("vessel-1", 1.0f64.to_bits(), 51.0f64.to_bits(), t1));
    tracker.update(&Event::new("vessel-1", 1.001f64.to_bits(), 51.0f64.to_bits(), t2));
    tracker.update(&Event::new("vessel-2", 0, 0, t2));
    assert_eq!(tracker.entity_count(), 2);
    let tr = tracker.trajectory(&"vessel-1".to_string()).unwrap();
    assert_eq!(tr.points.len(), 2);
    assert_eq!(tr.points[1].lon, 1.001f64.to_bits());
    assert_eq!(tr.max_points, 50);
    assert!(tracker.trajectory(&"nobody".to_string()).is_none());
    assert_eq!(tracker.trajectories().len(), 2);
}

#[test]
fn replay_gap_lengths() {
    let a = Timestamp::from_timestamp(100, 0).unwrap();
    let b = a.add(TimeDelta::milliseconds(2_500));
    assert_eq!(gap_ms(a, b), 2_500);
    assert_eq!(gap_ms(b, a), 0);
    assert_eq!(original_duration_ms(a, b), 2_500);
    assert_eq!(original_duration_ms(b, a), 2_500);
    let c = Timestamp::from_timestamp(100, 999_999).unwrap();
    assert_eq!(gap_ms(a, c), 0);
}

#[test]
fn topology_defaults() {
    assert!(default_metrics_enabled());
    assert_eq!(default_metrics_port(), 9090);
    assert_eq!(default_metrics_path(), "/metrics");
    assert_eq!(default_interval_secs(), 60);
    assert_eq!(default_max_retained(), 5);
    let m = MetricsConfig::default();
    assert!(m.enabled);
    assert_eq!(m.port, 9090);
    assert_eq!(m.path, "/metrics");
}

#[test]
fn position_table_excludes_self_and_keeps_latest() {
    let mut t = PositionTable::new();
    let a = "a".to_string();
    let b = "b".to_string();
    assert!(t.others(&a).is_empty());
    t.record(&a, 1, 2);
    assert!(t.others(&a).is_empty());
    assert_eq!(t.others(&b), vec![("a".to_string(), 1, 2)]);
    t.record(&b, 5, 6);
    t.record(&a, 3, 4);
    assert_eq!(t.others(&b), vec![("a".to_string(), 3, 4)]);
    assert_eq!(t.others(&"c".to_string()), vec![("a".to_string(), 3, 4), ("b".to_string(), 5, 6)]);
    t.clear();
    assert!(t.others(&"c".to_string()).is_empty());
}

#[test]
fn replay_waits_between_events() {
    let t = |ms: i64| Timestamp::from_timestamp_millis(ms).unwrap();
    let events = vec![
        Event::new("a", 0, 0, t(1_000)),
        Event::new("a", 0, 0, t(1_250)),
        Event::new("a", 0, 0, t(1_100)),
        Event::new("a", 0, 0, t(3_100)),
    ];
    assert_eq!(replay_gaps(&events), vec![0, 250, 0, 2_000]);
    assert!(replay_gaps(&Vec::new()).is_empty());
}

#[test]
fn test_tracker() {
    let mut tracker = TrajectoryTracker::new(50);
    let event1 = Event::new("vessel-1", 1.0f64.to_bits(), 51.0f64.to_bits(), Timestamp::from_timestamp(1_700_000_000, 0).unwrap());
    let event2 = Event::new("vessel-1", 1.001f64.to_bits(), 51.0f64.to_bits(), Timestamp::from_timestamp(1_700_000_010, 0).unwrap());
    tracker.update(&event1);
    tracker.update(&event2);
    assert_eq!(tracker.entity_count(), 1);
    // A prediction (computed in floating point outside the library) exists
    // exactly when the trajectory has two points with time between them.
    let tr = tracker.trajectory(&"vessel-1".to_string()).unwrap();
    assert_eq!(tr.points.len(), 2);
    assert!(tr.points[1].timestamp.nanos > tr.points[0].timestamp.nanos);
    assert_eq!(tr.entity_id, "vessel-1");
    assert_eq!(tr.max_points, 50);
}
