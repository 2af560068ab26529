//! Topology configuration: sources, sinks, metrics endpoint and checkpoints
//! of a pipeline, with the defaults the TOML form fills in.
use vstd::prelude::*;

verus! {

/// Source configuration.
#[derive(Debug)]
pub enum SourceConfig {
    WebSocket { url: String },
    File { path: String },
    Kafka { brokers: Vec<String>, topic: String, group_id: Option<String> },
    Mqtt { broker_url: String, topic: String },
}

/// Sink configuration.
#[derive(Debug)]
pub enum SinkConfig {
    WebSocket { url: String },
    File { path: String },
    Kafka { brokers: Vec<String>, topic: String },
    Mqtt { broker_url: String, topic: String },
    Stdout,
}

/// Metrics endpoint configuration.
#[derive(Debug)]
pub struct MetricsConfig {
    pub enabled: bool,
    pub port: u16,
    pub path: String,
}

/// Checkpoint configuration.
#[derive(Debug)]
pub struct CheckpointConfig {
    pub dir: String,
    pub interval_secs: u64,
    pub max_retained: usize,
}

/// The metrics endpoint is on unless configured off.
pub fn default_metrics_enabled() -> (r: bool)
    ensures
        r,
{
    true
}

/// The metrics endpoint's default port.
pub fn default_metrics_port() -> (r: u16)
    ensures
        r == 9090,
{
    9090
}

/// The metrics endpoint's default path, `/metrics`.
pub fn default_metrics_path() -> (r: String)
    ensures
        r@ == "/metrics"@,
{
    "/metrics".to_string()
}

/// The default checkpoint interval in seconds.
pub fn default_interval_secs() -> (r: u64)
    ensures
        r == 60,
{
    60
}

/// The default number of checkpoints kept.
pub fn default_max_retained() -> (r: usize)
    ensures
        r == 5,
{
    5
}

impl Default for MetricsConfig {
    fn default() -> (r: MetricsConfig)
        ensures
            r.enabled,
            r.port == 9090,
            r.path@ == "/metrics"@,
    {
        MetricsConfig { enabled: default_metrics_enabled(), port: default_metrics_port(), path: default_metrics_path() }
    }
}

} // verus!
