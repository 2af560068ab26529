//! Kafka connector configuration; the consumer and producer are not wired
//! to a broker and say so.
use vstd::prelude::*;
use crate::time::Duration;

verus! {

/// Kafka connection configuration.
#[derive(Clone, Debug)]
pub struct KafkaConfig {
    pub brokers: Vec<String>,
    pub topic: String,
    pub group_id: Option<String>,
    pub client_id: String,
    /// Consumer poll interval.
    pub poll_interval: Duration,
}

/// Kafka-related errors.
#[derive(Debug, PartialEq, Eq)]
pub enum KafkaError {
    NotConfigured(String),
    Connection(String),
    Serialization(String),
}

/// The message of a connector that is not wired to a broker.
pub open spec fn not_configured_text(role: Seq<char>, topic: Seq<char>, dependency: Seq<char>) -> Seq<char> {
    role + " for topic '"@ + topic + "' — add "@ + dependency + " dependency for production use"@
}

/// Builds the message of a connector that is not wired to a broker.
pub fn not_configured_message(role: &str, topic: &str, dependency: &str) -> (r: String)
    ensures
        r@ == not_configured_text(role@, topic@, dependency@),
{
    let mut s: String = String::from_str(role);
    s.append(" for topic '");
    s.append(topic);
    s.append("' — add ");
    s.append(dependency);
    s.append(" dependency for production use");
    assert(s@ =~= not_configured_text(role@, topic@, dependency@));
    s
}

impl KafkaConfig {
    /// A configuration for `topic` on `brokers`, with no group, client id
    /// `fluvius` and a 100 ms poll interval.
    pub fn new(brokers: Vec<String>, topic: &str) -> (r: KafkaConfig)
        ensures
            r.brokers@ == brokers@,
            r.topic@ == topic@,
            r.group_id is None,
            r.client_id@ == "fluvius"@,
            r.poll_interval.spec_nanos() == 100_000_000,
            r.poll_interval.wf(),
    {
        KafkaConfig {
            brokers,
            topic: topic.to_owned(),
            group_id: None,
            client_id: "fluvius".to_string(),
            poll_interval: Duration::from_millis(100),
        }
    }

    /// The configuration with consumer group `group`.
    pub fn with_group(self, group: &str) -> (r: KafkaConfig)
        ensures
            r.group_id matches Some(g) && g@ == group@,
            r.brokers == self.brokers,
            r.topic == self.topic,
            r.client_id == self.client_id,
            r.poll_interval == self.poll_interval,
    {
        let mut c = self;
        c.group_id = Some(group.to_owned());
        c
    }
}

/// Kafka consumer source.
#[derive(Debug)]
pub struct KafkaSource {
    config: KafkaConfig,
}

impl KafkaSource {
    /// A source with the given configuration.
    pub fn new(config: KafkaConfig) -> (r: KafkaSource)
        ensures
            r.spec_config() == config,
    {
        KafkaSource { config }
    }

    /// The configuration.
    pub closed spec fn spec_config(&self) -> KafkaConfig {
        self.config
    }

    /// The configuration.
    pub fn config(&self) -> (r: &KafkaConfig)
        ensures
            *r == self.spec_config(),
    {
        &self.config
    }

    /// Starting is refused: no broker client is wired in.
    pub fn start(&self) -> (r: Result<(), KafkaError>)
        ensures
            r matches Err(KafkaError::NotConfigured(m)) && m@ == not_configured_text(
                "Kafka consumer"@,
                self.spec_config().topic@,
                "rdkafka"@,
            ),
    {
        Err(KafkaError::NotConfigured(not_configured_message("Kafka consumer", self.config.topic.as_str(), "rdkafka")))
    }
}

/// Kafka producer sink.
#[derive(Debug)]
pub struct KafkaSink {
    config: KafkaConfig,
}

impl KafkaSink {
    /// A sink with the given configuration.
    pub fn new(config: KafkaConfig) -> (r: KafkaSink)
        ensures
            r.spec_config() == config,
    {
        KafkaSink { config }
    }

    /// The configuration.
    pub closed spec fn spec_config(&self) -> KafkaConfig {
        self.config
    }

    /// The configuration.
    pub fn config(&self) -> (r: &KafkaConfig)
        ensures
            *r == self.spec_config(),
    {
        &self.config
    }

    /// Sending is refused: no broker client is wired in.
    pub fn send(&self) -> (r: Result<(), KafkaError>)
        ensures
            r matches Err(KafkaError::NotConfigured(m)) && m@ == not_configured_text(
                "Kafka producer"@,
                self.spec_config().topic@,
                "rdkafka"@,
            ),
    {
        Err(KafkaError::NotConfigured(not_configured_message("Kafka producer", self.config.topic.as_str(), "rdkafka")))
    }
}

} // verus!
