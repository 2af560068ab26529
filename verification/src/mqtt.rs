//! MQTT connector configuration; the subscriber and publisher are not wired
//! to a broker and say so.
use vstd::prelude::*;
use crate::time::Duration;
use crate::kafka::{not_configured_text, not_configured_message};

verus! {

/// MQTT quality of service levels.
#[derive(Clone, Copy, Debug, PartialEq, Eq, Structural)]
pub enum MqttQos {
    /// At most once (fire and forget).
    AtMostOnce,
    /// At least once (acknowledged delivery).
    AtLeastOnce,
    /// Exactly once (assured delivery).
    ExactlyOnce,
}

/// MQTT connection configuration.
#[derive(Clone, Debug)]
pub struct MqttConfig {
    pub broker_url: String,
    pub topic: String,
    pub client_id: String,
    pub qos: MqttQos,
    pub keep_alive: Duration,
    pub username: Option<String>,
    pub password: Option<String>,
}

/// MQTT-related errors.
#[derive(Debug, PartialEq, Eq)]
pub enum MqttError {
    NotConfigured(String),
    Connection(String),
    Publish(String),
}

impl MqttConfig {
    /// A configuration for `topic` on `broker_url`, with client id
    /// `fluvius-mqtt`, QoS at least once, a 30 s keep-alive and no credentials.
    pub fn new(broker_url: &str, topic: &str) -> (r: MqttConfig)
        ensures
            r.broker_url@ == broker_url@,
            r.topic@ == topic@,
            r.client_id@ == "fluvius-mqtt"@,
            r.qos == MqttQos::AtLeastOnce,
            r.keep_alive == (Duration { secs: 30, subsec_nanos: 0 }),
            r.username is None,
            r.password is None,
    {
        MqttConfig {
            broker_url: broker_url.to_owned(),
            topic: topic.to_owned(),
            client_id: "fluvius-mqtt".to_string(),
            qos: MqttQos::AtLeastOnce,
            keep_alive: Duration::from_secs(30),
            username: None,
            password: None,
        }
    }

    /// The configuration with the given credentials.
    pub fn with_credentials(self, username: &str, password: &str) -> (r: MqttConfig)
        ensures
            r.username matches Some(u) && u@ == username@,
            r.password matches Some(p) && p@ == password@,
            r.broker_url == self.broker_url,
            r.topic == self.topic,
            r.client_id == self.client_id,
            r.qos == self.qos,
            r.keep_alive == self.keep_alive,
    {
        let mut c = self;
        c.username = Some(username.to_owned());
        c.password = Some(password.to_owned());
        c
    }

    /// The configuration with the given quality of service.
    pub fn with_qos(self, qos: MqttQos) -> (r: MqttConfig)
        ensures
            r == (MqttConfig { qos, ..self }),
    {
        let mut c = self;
        c.qos = qos;
        c
    }
}

/// MQTT subscriber source.
#[derive(Debug)]
pub struct MqttSource {
    config: MqttConfig,
}

impl MqttSource {
    /// A source with the given configuration.
    pub fn new(config: MqttConfig) -> (r: MqttSource)
        ensures
            r.spec_config() == config,
    {
        MqttSource { config }
    }

    /// The configuration.
    pub closed spec fn spec_config(&self) -> MqttConfig {
        self.config
    }

    /// The configuration.
    pub fn config(&self) -> (r: &MqttConfig)
        ensures
            *r == self.spec_config(),
    {
        &self.config
    }

    /// Subscribing is refused: no MQTT client is wired in.
    pub fn start(&self) -> (r: Result<(), MqttError>)
        ensures
            r matches Err(MqttError::NotConfigured(m)) && m@ == not_configured_text(
                "MQTT subscriber"@,
                self.spec_config().topic@,
                "rumqttc"@,
            ),
    {
        Err(MqttError::NotConfigured(not_configured_message("MQTT subscriber", self.config.topic.as_str(), "rumqttc")))
    }
}

/// MQTT publisher sink.
#[derive(Debug)]
pub struct MqttSink {
    config: MqttConfig,
}

impl MqttSink {
    /// A sink with the given configuration.
    pub fn new(config: MqttConfig) -> (r: MqttSink)
        ensures
            r.spec_config() == config,
    {
        MqttSink { config }
    }

    /// The configuration.
    pub closed spec fn spec_config(&self) -> MqttConfig {
        self.config
    }

    /// The configuration.
    pub fn config(&self) -> (r: &MqttConfig)
        ensures
            *r == self.spec_config(),
    {
        &self.config
    }

    /// Publishing is refused: no MQTT client is wired in.
    pub fn send(&self) -> (r: Result<(), MqttError>)
        ensures
            r matches Err(MqttError::NotConfigured(m)) && m@ == not_configured_text(
                "MQTT publisher"@,
                self.spec_config().topic@,
                "rumqttc"@,
            ),
    {
        Err(MqttError::NotConfigured(not_configured_message("MQTT publisher", self.config.topic.as_str(), "rumqttc")))
    }
}

} // verus!
