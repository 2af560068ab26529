use fluvius::kafka::{not_configured_message, KafkaConfig, KafkaError, KafkaSink, KafkaSource};
use fluvius::mqtt::{MqttConfig, MqttError, MqttQos, MqttSink, MqttSource};
use fluvius::time::Duration;

#[test]
fn test_kafka_config() {
    let config = KafkaConfig::new(vec!["localhost:9092".to_string()], "events").with_group("fluvius-group");
    assert_eq!(config.topic, "events");
    assert_eq!(config.group_id, Some("fluvius-group".to_string()));
}

#[test]
fn kafka_config_defaults() {
    let config = KafkaConfig::new(vec!["a:1".to_string(), "b:2".to_string()], "t");
    assert_eq!(config.brokers, vec!["a:1".to_string(), "b:2".to_string()]);
    assert_eq!(config.group_id, None);
    assert_eq!(config.client_id, "fluvius");
    assert_eq!(config.poll_interval, Duration::from_millis(100));
}

#[test]
fn test_kafka_source_not_configured() {
    let config = KafkaConfig::new(vec!["localhost:9092".to_string()], "test");
    let source = KafkaSource::new(config);
    let result = source.start();
    assert!(result.is_err());
}

#[test]
fn kafka_errors_name_the_topic() {
    let source = KafkaSource::new(KafkaConfig::new(vec![], "orders"));
    assert_eq!(
        source.start(),
        Err(KafkaError::NotConfigured(
            "Kafka consumer for topic 'orders' — add rdkafka dependency for production use".to_string()
        ))
    );
    let sink = KafkaSink::new(KafkaConfig::new(vec![], "out"));
    assert_eq!(
        sink.send(),
        Err(KafkaError::NotConfigured(
            "Kafka producer for topic 'out' — add rdkafka dependency for production use".to_string()
        ))
    );
    assert_eq!(sink.config().topic, "out");
}

#[test]
fn not_configured_message_shape() {
    assert_eq!(not_configured_message("R", "T", "D"), "R for topic 'T' — add D dependency for production use");
}

#[test]
fn test_mqtt_config() {
    let config = MqttConfig::new("mqtt://localhost:1883", "sensors/gps")
        .with_credentials("user", "pass")
        .with_qos(MqttQos::ExactlyOnce);
    assert_eq!(config.topic, "sensors/gps");
    assert!(config.username.is_some());
}

#[test]
fn mqtt_config_defaults_and_builders() {
    let config = MqttConfig::new("mqtt://h:1883", "t");
    assert_eq!(config.broker_url, "mqtt://h:1883");
    assert_eq!(config.client_id, "fluvius-mqtt");
    assert_eq!(config.qos, MqttQos::AtLeastOnce);
    assert_eq!(config.keep_alive, Duration::from_secs(30));
    assert_eq!(config.username, None);
    assert_eq!(config.password, None);
    let config = config.with_credentials("u", "p").with_qos(MqttQos::AtMostOnce);
    assert_eq!(config.username, Some("u".to_string()));
    assert_eq!(config.password, Some("p".to_string()));
    assert_eq!(config.qos, MqttQos::AtMostOnce);
}

#[test]
fn test_mqtt_source_not_configured() {
    let config = MqttConfig::new("mqtt://localhost:1883", "test");
    let source = MqttSource::new(config);
    assert!(source.start().is_err());
}

#[test]
fn mqtt_errors_name_the_topic() {
    let source = MqttSource::new(MqttConfig::new("mqtt://h", "gps"));
    assert_eq!(
        source.start(),
        Err(MqttError::NotConfigured(
            "MQTT subscriber for topic 'gps' — add rumqttc dependency for production use".to_string()
        ))
    );
    let sink = MqttSink::new(MqttConfig::new("mqtt://h", "alerts"));
    assert_eq!(
        sink.send(),
        Err(MqttError::NotConfigured(
            "MQTT publisher for topic 'alerts' — add rumqttc dependency for production use".to_string()
        ))
    );
}
