use mqtt_bridge::bridge::{run_script, InboundMessage, StreamEvent};
use mqtt_bridge::forward::ForwardOutcome;
use mqtt_bridge::router::TopicRouter;
use mqtt_bridge::session::{SessionCore, SessionState};

fn sample_router() -> TopicRouter {
    TopicRouter::from_pairs(vec![
        ("Production/metrics/W".to_string(), "production_w".to_string()),
        (
            "Consommation/metrics/ActivatePower".to_string(),
            "consommation_w".to_string(),
        ),
        (
            "Consommation/metrics/ImportEnergy".to_string(),
            "import_w".to_string(),
        ),
        (
            "Consommation/metrics/ExportEnergy".to_string(),
            "export_w".to_string(),
        ),
    ])
    .unwrap()
}

fn connected() -> SessionCore {
    let mut s = SessionCore::new();
    s.begin_connect();
    s.on_connect_success();
    s
}

fn msg(topic: &str, payload: &str) -> StreamEvent {
    StreamEvent::Inbound(InboundMessage {
        topic: topic.to_string(),
        payload: payload.as_bytes().to_vec(),
        qos: 1,
    })
}

#[test]
fn round_trip_scenario() {
    let router = sample_router();
    let events = vec![
        msg("Production/metrics/W", "120"),
        msg("Unknown/topic", "x"),
        StreamEvent::ConnectionLost,
        msg("Consommation/metrics/ImportEnergy", "45"),
    ];
    let recon = vec![true];
    let sends = vec![ForwardOutcome::Delivered, ForwardOutcome::Delivered];
    let out = run_script(&router, connected(), &events, &recon, &sends);

    assert_eq!(out.forwards.len(), 2);
    assert_eq!(out.forwards[0].topic, "production_w");
    assert_eq!(out.forwards[0].payload, b"120".to_vec());
    assert_eq!(out.forwards[1].topic, "import_w");
    assert_eq!(out.forwards[1].payload, b"45".to_vec());
    assert_eq!(out.reconnect_invocations, 1);
    assert_eq!(out.end.state, SessionState::Closed);
    assert!(out.graceful);
}

#[test]
fn stop_request_ends_the_stream_at_once() {
    let router = sample_router();
    let events = vec![
        msg("Production/metrics/W", "120"),
        StreamEvent::StopRequested,
        msg("Consommation/metrics/ImportEnergy", "45"),
        msg("Production/metrics/W", "121"),
    ];
    let out = run_script(
        &router,
        connected(),
        &events,
        &Vec::new(),
        &vec![ForwardOutcome::Delivered; 3],
    );

    assert_eq!(out.forwards.len(), 1);
    assert_eq!(out.forwards[0].topic, "production_w");
    assert_eq!(out.end.state, SessionState::Closed);
    assert!(out.end.stop_requested);
    assert!(out.graceful);
    assert_eq!(out.reconnect_invocations, 0);
}

#[test]
fn reconnect_exhaustion_terminates_the_loop() {
    let router = sample_router();
    let events = vec![
        StreamEvent::ConnectionLost,
        msg("Production/metrics/W", "120"),
    ];
    let recon = vec![false; 12];
    let out = run_script(&router, connected(), &events, &recon, &Vec::new());

    assert_eq!(out.forwards.len(), 0);
    assert_eq!(out.reconnect_invocations, 1);
    assert_eq!(out.end.state, SessionState::Closed);
    assert_eq!(out.end.reconnect_attempts, 12);
    assert!(!out.graceful);
}

#[test]
fn reconnect_stops_at_the_first_success() {
    let router = sample_router();
    let events = vec![
        StreamEvent::ConnectionLost,
        msg("Production/metrics/W", "120"),
    ];
    let recon = vec![false, false, true, false];
    let sends = vec![ForwardOutcome::Delivered];
    let out = run_script(&router, connected(), &events, &recon, &sends);

    assert_eq!(out.forwards.len(), 1);
    assert_eq!(out.reconnect_invocations, 1);
    assert_eq!(out.end.state, SessionState::Closed);
    assert!(out.graceful);
}

#[test]
fn failed_forward_does_not_stop_the_loop() {
    let router = sample_router();
    let events = vec![
        msg("Production/metrics/W", "120"),
        msg("Consommation/metrics/ExportEnergy", "7"),
    ];
    let sends = vec![ForwardOutcome::AckTimedOut, ForwardOutcome::Delivered];
    let out = run_script(&router, connected(), &events, &Vec::new(), &sends);

    assert_eq!(out.forwards.len(), 2);
    assert_eq!(out.forwards[1].topic, "export_w");
    assert_eq!(
        out.reports,
        vec![Some(ForwardOutcome::AckTimedOut), Some(ForwardOutcome::Delivered)]
    );
    assert!(out.graceful);
}

#[test]
fn unmapped_messages_produce_no_forward_calls() {
    let router = sample_router();
    let events = vec![msg("Unknown/topic", "x"), msg("Another/one", "y")];
    let out = run_script(&router, connected(), &events, &Vec::new(), &Vec::new());

    assert_eq!(out.forwards.len(), 0);
    assert_eq!(out.reports.len(), 0);
    assert_eq!(out.reconnect_invocations, 0);
}

#[test]
fn connection_loss_while_shutting_down_ends_gracefully() {
    let router = sample_router();
    let mut s = connected();
    s.request_stop();
    let events = vec![StreamEvent::ConnectionLost, msg("Production/metrics/W", "1")];
    let out = run_script(&router, s, &events, &vec![true], &Vec::new());

    assert_eq!(out.forwards.len(), 0);
    assert_eq!(out.reconnect_invocations, 0);
    assert_eq!(out.end.state, SessionState::Closed);
    assert!(out.graceful);
}

#[test]
fn missing_delivery_reports_are_recorded_as_absent() {
    let router = sample_router();
    let events = vec![
        msg("Production/metrics/W", "1"),
        msg("Production/metrics/W", "2"),
    ];
    let sends = vec![ForwardOutcome::BrokerRejected];
    let out = run_script(&router, connected(), &events, &Vec::new(), &sends);

    assert_eq!(out.forwards.len(), 2);
    assert_eq!(out.reports, vec![Some(ForwardOutcome::BrokerRejected), None]);
}
