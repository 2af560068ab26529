use fluvius::edge::{flush_due, EdgeConfig, EdgeRuntime};
use fluvius::event::{format_id, Event, Payload};
use fluvius::operator::{FilterOperator, MapOperator, RateLimiter, StatefulOperator, TransformOperator};
use fluvius::pipeline::{Pipeline, PipelineMetrics};
use fluvius::time::Timestamp;

fn bits(x: f64) -> u64 {
    x.to_bits()
}

fn speed_of(e: &Event) -> f64 {
    e.speed.map(f64::from_bits).unwrap_or(0.0)
}

#[test]
fn test_event_creation() {
    let event = Event::now("vehicle-1", bits(-73.9857), bits(40.7484));
    assert_eq!(event.entity_id, "vehicle-1");
    assert!((f64::from_bits(event.lon) - (-73.9857)).abs() < 1e-10);
    assert!((f64::from_bits(event.lat) - 40.7484).abs() < 1e-10);
    assert!(!event.id.is_empty());
}

#[test]
fn test_event_with_properties() {
    let event = Event::now("drone-1", bits(0.0), bits(0.0))
        .with_speed(bits(15.0))
        .with_heading(bits(90.0))
        .with_property("battery", serde_json::Value::from(85));
    assert_eq!(event.speed.map(f64::from_bits), Some(15.0));
    assert_eq!(event.heading.map(f64::from_bits), Some(90.0));
    let battery = event.properties.iter().find(|(k, _)| k == "battery").map(|(_, v)| v.clone());
    assert_eq!(battery, Some(serde_json::Value::from(85)));
}

#[test]
fn with_property_replaces_in_place() {
    let event = Event::now("d", bits(0.0), bits(0.0))
        .with_property("a", serde_json::Value::from(1))
        .with_property("b", serde_json::Value::from(2))
        .with_property("a", serde_json::Value::from(3));
    assert_eq!(event.properties.len(), 2);
    assert_eq!(event.properties[0], ("a".to_string(), serde_json::Value::from(3)));
    assert_eq!(event.properties[1], ("b".to_string(), serde_json::Value::from(2)));
}

#[test]
fn event_ids_have_the_documented_shape() {
    assert_eq!(format_id(0), "deadbeefcafebabe-00000000");
    assert_eq!(format_id(999_999_999), format!("{:016x}-{:08x}", 999_999_999u64 ^ 0xDEAD_BEEF_CAFE_BABE, 999_999_999u32));
    let e = Event::now("x", 0, 0);
    assert_eq!(e.id.len(), 25);
    assert_eq!(&e.id[16..17], "-");
}

#[test]
fn event_clone_keeps_everything() {
    let e = Event::new("x", bits(1.5), bits(2.5), Timestamp::from_timestamp(7, 8).unwrap())
        .with_property("p", serde_json::Value::from("q"));
    let c = e.clone();
    assert_eq!(c.id, e.id);
    assert_eq!(c.timestamp, e.timestamp);
    assert_eq!(c.properties, e.properties);
    assert_eq!(c.lon, e.lon);
}

#[test]
fn test_filter_operator() {
    let filter = FilterOperator::new("speed_filter", |e: &Event| speed_of(e) > 10.0);
    let fast = Event::now("v1", 0, 0).with_speed(bits(20.0));
    let slow = Event::now("v2", 0, 0).with_speed(bits(5.0));
    assert!(filter.process(&fast).is_some());
    assert!(filter.process(&slow).is_none());
    let out = filter.process(&fast).unwrap();
    assert_eq!(out.operator, "speed_filter");
    assert!(matches!(out.payload, Payload::Pass));
}

#[test]
fn test_transform_operator() {
    let transform = TransformOperator::new("double_speed", |e: &Event| {
        let mut cloned = e.clone();
        cloned.speed = cloned.speed.map(|s| (f64::from_bits(s) * 2.0).to_bits());
        cloned
    });
    let event = Event::now("v1", 0, 0).with_speed(bits(10.0));
    let output = transform.process(&event).unwrap();
    assert_eq!(output.source_event.speed.map(f64::from_bits), Some(20.0));
    assert!(matches!(output.payload, Payload::Transform));
}

#[test]
fn test_rate_limiter() {
    let mut limiter = RateLimiter::new("limiter", 2);
    let e1 = Event::now("v1", bits(0.0), bits(0.0));
    let e2 = Event::now("v1", bits(1.0), bits(1.0));
    let e3 = Event::now("v1", bits(2.0), bits(2.0));
    let e4 = Event::now("v2", bits(3.0), bits(3.0));
    assert_eq!(limiter.process(&e1).len(), 1);
    assert_eq!(limiter.process(&e2).len(), 1);
    assert_eq!(limiter.process(&e3).len(), 0);
    assert_eq!(limiter.process(&e4).len(), 1);
    limiter.on_window_close();
    assert_eq!(limiter.process(&e1).len(), 1);
}

#[test]
fn rate_limiter_reports_counts() {
    let mut limiter = RateLimiter::new("limiter", 3);
    let e = Event::now("v1", 0, 0);
    let counts: Vec<usize> = (0..4)
        .map(|_| match limiter.process(&e).first().map(|o| o.payload.clone()) {
            Some(Payload::PassCounted { count }) => count,
            _ => 0,
        })
        .collect();
    assert_eq!(counts, vec![1, 2, 3, 0]);
    assert_eq!(limiter.name(), "limiter");
}

#[test]
fn test_edge_ingest() {
    let mut runtime = EdgeRuntime::new(EdgeConfig::default());
    runtime.ingest(Event::new("e1", bits(1.0), bits(51.0), Timestamp::now()));
    runtime.ingest(Event::new("e2", bits(1.0), bits(51.0), Timestamp::now()));
    assert_eq!(runtime.metrics().events_received, 2);
    assert_eq!(runtime.metrics().buffer_size, 2);
}

#[test]
fn test_edge_process() {
    let mut runtime = EdgeRuntime::new(EdgeConfig::default());
    runtime.ingest(Event::new("e1", bits(1.0), bits(51.0), Timestamp::now()));
    runtime.ingest(Event::new("e2", bits(1.0), bits(51.0), Timestamp::now()));
    let results = runtime.process();
    assert_eq!(results.len(), 2);
    assert_eq!(runtime.metrics().events_processed, 2);
    assert_eq!(results[0].operator, "passthrough");
    assert!(matches!(results[0].payload, Payload::Null));
}

#[test]
fn test_edge_buffer_overflow() {
    let config = EdgeConfig { max_buffer_size: 3, ..Default::default() };
    let mut runtime = EdgeRuntime::new(config);
    for _ in 0..5 {
        runtime.ingest(Event::new("e", bits(1.0), bits(51.0), Timestamp::now()));
    }
    assert_eq!(runtime.metrics().events_dropped, 2);
    assert_eq!(runtime.metrics().buffer_size, 3);
}

#[test]
fn test_edge_forward_queue() {
    let config = EdgeConfig { sync_batch_size: 2, store_and_forward: true, ..Default::default() };
    let mut runtime = EdgeRuntime::new(config);
    runtime.ingest(Event::new("e1", bits(1.0), bits(51.0), Timestamp::now()));
    runtime.ingest(Event::new("e2", bits(1.0), bits(51.0), Timestamp::now()));
    runtime.ingest(Event::new("e3", bits(1.0), bits(51.0), Timestamp::now()));
    runtime.process();
    assert!(runtime.should_flush());
    let batch = runtime.drain_forward_queue();
    assert_eq!(batch.len(), 2);
    assert_eq!(runtime.metrics().events_forwarded, 2);
    assert_eq!(batch[0].source_event.entity_id, "e1");
}

#[test]
fn edge_operators_filter_and_stop() {
    let mut runtime = EdgeRuntime::new(EdgeConfig::default());
    runtime.add_operator(Box::new(FilterOperator::new("keep_e1", |e: &Event| e.entity_id == "e1")));
    runtime.ingest(Event::now("e1", 0, 0));
    runtime.ingest(Event::now("e2", 0, 0));
    let results = runtime.process();
    assert_eq!(results.len(), 1);
    assert_eq!(results[0].operator, "keep_e1");
    assert_eq!(runtime.metrics().events_processed, 2);
}

#[test]
fn pipeline_chain_filters() {
    let mut pipeline = Pipeline::new("filtered");
    pipeline.add_operator(Box::new(FilterOperator::new("fast_only", |e: &Event| speed_of(e) > 10.0)));
    assert_eq!(pipeline.name(), "filtered");
    let fast = pipeline.run_chain(Event::now("v1", 0, 0).with_speed(bits(20.0)));
    assert!(!fast.filtered);
    assert_eq!(fast.outputs.len(), 1);
    let slow = pipeline.run_chain(Event::now("v2", 0, 0).with_speed(bits(5.0)));
    assert!(slow.filtered);
    assert!(slow.outputs.is_empty());
    let mut m = PipelineMetrics::default();
    m.record_received();
    m.record_emitted();
    m.record_filtered();
    assert_eq!((m.events_received, m.events_emitted, m.events_filtered), (1, 1, 1));
}

/// An operator written outside the library: renames the entity.
struct Rename;

impl MapOperator for Rename {
    fn process(&self, event: &Event) -> Option<fluvius::event::OutputEvent> {
        let mut e = event.clone();
        e.entity_id = format!("{}-renamed", e.entity_id);
        Some(fluvius::event::OutputEvent { source_event: e, operator: "rename".to_string(), payload: Payload::Null })
    }

    fn name(&self) -> &str {
        "rename"
    }
}

#[test]
fn pipeline_chain_feeds_each_operator_the_previous_output() {
    let mut pipeline = Pipeline::new("chain");
    pipeline.add_operator(Box::new(Rename));
    pipeline.add_operator(Box::new(FilterOperator::new("renamed_only", |e: &Event| e.entity_id.ends_with("-renamed"))));
    pipeline.add_operator(Box::new(TransformOperator::new("double_speed", |e: &Event| {
        e.clone().with_speed(bits(speed_of(e) * 2.0))
    })));
    let out = pipeline.run_chain(Event::now("v", 0, 0).with_speed(bits(3.0)));
    assert!(!out.filtered);
    assert_eq!(out.outputs.len(), 3);
    assert_eq!(out.outputs[0].operator, "rename");
    assert_eq!(out.outputs[1].operator, "renamed_only");
    assert_eq!(out.outputs[1].source_event.entity_id, "v-renamed");
    assert_eq!(out.outputs[2].source_event.speed, Some(bits(6.0)));
}

#[test]
fn edge_operators_each_see_the_buffered_event() {
    let mut runtime = EdgeRuntime::new(EdgeConfig::default());
    runtime.add_operator(Box::new(Rename));
    runtime.add_operator(Box::new(FilterOperator::new("keep_e1", |e: &Event| e.entity_id == "e1")));
    runtime.ingest(Event::now("e1", 0, 0));
    let results = runtime.process();
    assert_eq!(results.len(), 2);
    assert_eq!(results[0].source_event.entity_id, "e1-renamed");
    assert_eq!(results[1].source_event.entity_id, "e1");
}

#[test]
fn rate_limiter_passes_first_n_per_entity() {
    let mut limiter = RateLimiter::new("limiter", 2);
    let ids = ["a", "b", "a", "a", "b", "b", "c"];
    let passed: Vec<Option<usize>> = ids
        .iter()
        .map(|id| {
            let out = limiter.process(&Event::now(id, 0, 0));
            out.first().map(|o| match o.payload {
                Payload::PassCounted { count } => count,
                _ => panic!("unexpected payload"),
            })
        })
        .collect();
    assert_eq!(passed, vec![Some(1), Some(1), Some(2), None, Some(2), None, Some(1)]);
    let mut none = RateLimiter::new("none", 0);
    assert!(none.process(&Event::now("a", 0, 0)).is_empty());
}

#[test]
fn flush_is_due_by_time_or_batch() {
    assert!(!flush_due(4_999_999_999, 5000, 99, 100));
    assert!(flush_due(5_000_000_000, 5000, 0, 100));
    assert!(flush_due(0, 5000, 100, 100));
}
