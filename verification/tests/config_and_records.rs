use kafkalite::config::BrokerConfig;
use kafkalite::topic::{ClientId, MessageRecord};

#[test]
fn broker_config_keeps_its_fields() {
    let config = BrokerConfig::new(9000, 10_000);
    assert_eq!(config.port, 9000);
    assert_eq!(config.connection_timeout_ms, 10_000);
}

#[test]
fn message_record_keeps_offset_and_payload() {
    let record = MessageRecord::new(7, b"test-payload".to_vec());
    assert_eq!(record.offset, 7);
    assert_eq!(record.payload, b"test-payload".to_vec());
}

#[test]
fn client_ids_compare_by_value() {
    let a = ClientId::new(1, 2);
    let b = ClientId::new(1, 2);
    let c = ClientId::new(1, 3);
    assert_eq!(a, b);
    assert_ne!(a, c);
}
