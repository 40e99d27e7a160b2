use mqtt_bridge::session::{
    connect_config, last_will_payload, last_will_topic, qos_as_requested, subscription_qos,
    subscription_topics, SessionCore, SessionState, KEEP_ALIVE_SECS, MAX_RECONNECT_ATTEMPTS,
    RECONNECT_DELAY_MS, SUBSCRIBE_QOS,
};

#[test]
fn policy_constants() {
    assert_eq!(MAX_RECONNECT_ATTEMPTS, 12);
    assert_eq!(RECONNECT_DELAY_MS, 5000);
    assert_eq!(KEEP_ALIVE_SECS, 20);
    assert_eq!(SUBSCRIBE_QOS, 1);
}

#[test]
fn connect_config_registers_fixed_last_will() {
    let cfg = connect_config(
        "mqtt://broker.example:1883".to_string(),
        "rust_sync_consumer".to_string(),
    );
    assert_eq!(cfg.server_uri, "mqtt://broker.example:1883");
    assert_eq!(cfg.client_id, "rust_sync_consumer");
    assert_eq!(cfg.keep_alive_secs, 20);
    assert!(!cfg.clean_session);
    assert_eq!(cfg.will_topic, "Production");
    assert_eq!(cfg.will_payload, "Sync consumer lost connection");
    assert_eq!(cfg.will_topic, last_will_topic());
    assert_eq!(cfg.will_payload, last_will_payload());
}

#[test]
fn subscription_fixtures() {
    let topics = subscription_topics();
    assert_eq!(topics, vec!["Production/#".to_string(), "Consommation/#".to_string()]);
    let qos = subscription_qos();
    assert_eq!(qos, vec![1, 1]);
}

#[test]
fn qos_comparison_reports_differences() {
    assert!(qos_as_requested(&vec![1, 1], &vec![1, 1]));
    assert!(!qos_as_requested(&vec![1, 1], &vec![1, 0]));
    assert!(!qos_as_requested(&vec![1, 1], &vec![1]));
    assert!(qos_as_requested(&vec![], &vec![]));
}

#[test]
fn lifecycle_reaches_connected_and_shuts_down() {
    let mut s = SessionCore::new();
    assert_eq!(s.state, SessionState::Disconnected);
    s.begin_connect();
    assert_eq!(s.state, SessionState::Connecting);
    s.on_connect_success();
    assert_eq!(s.state, SessionState::Connected);
    assert!(s.is_connected());

    s.request_stop();
    assert_eq!(s.state, SessionState::ShuttingDown);
    assert!(s.stop_requested);
    assert!(s.is_connected());

    let before = s;
    s.request_stop();
    assert_eq!(s, before);

    s.close();
    assert_eq!(s.state, SessionState::Closed);
    assert!(!s.is_connected());
}

#[test]
fn reconnect_attempts_cap_at_twelve() {
    let mut s = SessionCore::new();
    s.begin_connect();
    s.on_connect_success();
    s.on_connection_lost();
    assert_eq!(s.state, SessionState::Reconnecting);
    assert_eq!(s.reconnect_attempts, 0);

    for i in 0..12u32 {
        assert!(s.can_retry());
        s.on_reconnect_failure();
        assert_eq!(s.reconnect_attempts, i + 1);
    }
    assert!(!s.can_retry());
    assert_eq!(s.state, SessionState::Closed);
}

#[test]
fn reconnect_success_restores_connection() {
    let mut s = SessionCore::new();
    s.begin_connect();
    s.on_connect_success();
    s.on_connection_lost();
    s.on_reconnect_failure();
    s.on_reconnect_failure();
    assert!(s.can_retry());
    s.on_reconnect_success();
    assert_eq!(s.state, SessionState::Connected);
    assert_eq!(s.reconnect_attempts, 0);
    assert!(s.is_connected());
}
