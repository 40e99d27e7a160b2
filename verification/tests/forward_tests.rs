use mqtt_bridge::bridge::InboundMessage;
use mqtt_bridge::forward::{
    make_record, plan_forward, AckPolicy, ASYNC_MESSAGE_TIMEOUT_MS, SYNC_ACK_TIMEOUT_MS,
};
use mqtt_bridge::router::TopicRouter;

fn sample_router() -> TopicRouter {
    TopicRouter::from_pairs(vec![
        ("Production/metrics/W".to_string(), "production_w".to_string()),
        (
            "Consommation/metrics/ImportEnergy".to_string(),
            "import_w".to_string(),
        ),
    ])
    .unwrap()
}

#[test]
fn record_carries_topic_payload_and_timestamp() {
    let rec = make_record("production_w".to_string(), b"120".to_vec(), Some(1700000000000));
    assert_eq!(rec.topic, "production_w");
    assert_eq!(rec.payload, b"120".to_vec());
    assert_eq!(rec.timestamp, Some(1700000000000));
}

#[test]
fn record_key_is_a_fresh_version_four_identifier() {
    let rec = make_record("production_w".to_string(), b"120".to_vec(), None);
    let key = rec.key.expect("every record carries a key");
    assert_eq!(key.len(), 16);
    assert_eq!(key[6] & 0xF0, 0x40);
    assert_eq!(key[8] & 0xC0, 0x80);
}

#[test]
fn record_keys_differ_between_records() {
    let a = make_record("t".to_string(), Vec::new(), None);
    let b = make_record("t".to_string(), Vec::new(), None);
    assert_ne!(a.key.unwrap(), b.key.unwrap());
}

#[test]
fn plan_forward_builds_one_record_for_a_mapped_topic() {
    let router = sample_router();
    let msg = InboundMessage {
        topic: "Production/metrics/W".to_string(),
        payload: b"120".to_vec(),
        qos: 1,
    };
    let rec = plan_forward(&router, &msg, Some(42)).expect("mapped topic must forward");
    assert_eq!(rec.topic, "production_w");
    assert_eq!(rec.payload, b"120".to_vec());
    assert_eq!(rec.timestamp, Some(42));
    assert_eq!(rec.key.unwrap().len(), 16);
}

#[test]
fn ack_policies_carry_their_timeouts() {
    assert_eq!(SYNC_ACK_TIMEOUT_MS, 1000);
    assert_eq!(ASYNC_MESSAGE_TIMEOUT_MS, 5000);
    let sync = AckPolicy::sync_default();
    assert_eq!(sync, AckPolicy::SyncAck { timeout_ms: 1000 });
    assert_eq!(sync.timeout_ms(), 1000);
    assert!(sync.blocks_for_ack());
    let fire = AckPolicy::FireAndForget;
    assert_eq!(fire.timeout_ms(), 5000);
    assert!(!fire.blocks_for_ack());
}

#[test]
fn plan_forward_drops_an_unmapped_topic() {
    let router = sample_router();
    let msg = InboundMessage {
        topic: "Unknown/topic".to_string(),
        payload: b"x".to_vec(),
        qos: 1,
    };
    assert!(plan_forward(&router, &msg, Some(42)).is_none());
}
