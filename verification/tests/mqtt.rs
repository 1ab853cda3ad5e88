use iota_client::mqtt::{BrokerOptions, MqttError, MqttEvent, Topic};
use iota_client::mqtt_session::{
    broker_endpoint, drops_client_on, mqtt_client_id, node_broker_endpoint, plan_unsubscription,
    topic_carries_block, PollAction, PollEvent, PollState, TransportKind,
};
use iota_client::time::TimeSpan;

fn topic(s: &str) -> Topic {
    Topic::new(s.to_string()).unwrap()
}

#[test]
fn topics_are_validated() {
    let hex64 = "a".repeat(64);
    for t in [
        "commitments".to_string(),
        "blocks".to_string(),
        "blocks/tagged-data/0xab".to_string(),
        format!("block-metadata/0x{hex64}"),
        format!("transactions/0x{hex64}/included-block"),
        format!("outputs/0x{hex64}0001"),
        // The output index takes any decimal digits, here Arabic-Indic ones.
        format!("outputs/0x{hex64}\u{661}\u{662}\u{663}\u{664}"),
        format!("outputs/foundry/0x{}", "b".repeat(76)),
        "outputs/unlock/address/atoi1qzt0nhsf38nh6rs4p6zs5knqp6psgha9wsv74uajqgjmwc75ugupx3y7x0r".to_string(),
        "outputs/unlock/+/rms1abc/spent".to_string(),
    ] {
        assert!(Topic::new(t.clone()).is_ok(), "{t}");
    }
    for t in [
        "block".to_string(),
        "blocks/tagged-data/0xabc".to_string(),
        format!("block-metadata/0x{}", "A".repeat(64)),
        format!("outputs/0x{hex64}001"),
        format!("outputs/0x{hex64}00a1"),
        "outputs/unlock/owner/rms1abc".to_string(),
        "outputs/unlock/address/rms1".to_string(),
    ] {
        match Topic::new(t.clone()) {
            Err(MqttError::InvalidTopic(s)) => assert_eq!(s, t),
            Ok(_) => panic!("accepted {t}"),
        }
    }
    assert_eq!(topic("blocks").as_str(), "blocks");
}

#[test]
fn broker_options_defaults_and_setters() {
    let o = BrokerOptions::new();
    assert!(o.automatic_disconnect);
    assert_eq!(o.timeout, TimeSpan { secs: 30, nanos: 0 });
    assert!(o.use_ws);
    assert_eq!(o.port, 1883);
    assert_eq!(o.max_reconnection_attempts, 0);
    let o = o
        .automatic_disconnect(false)
        .timeout(TimeSpan { secs: 1, nanos: 0 })
        .use_ws(false)
        .port(8883)
        .max_reconnection_attempts(3);
    assert!(!o.automatic_disconnect);
    assert_eq!(o.timeout.secs, 1);
    assert!(!o.use_ws);
    assert_eq!(o.port, 8883);
    assert_eq!(o.max_reconnection_attempts, 3);
    assert_eq!(BrokerOptions::default(), BrokerOptions::new());
}

#[test]
fn broker_endpoints() {
    let o = BrokerOptions::new();
    let e = broker_endpoint(&o, "https", "node.example", Some(443), "/base/");
    assert_eq!(e.uri, "wss://node.example:443/base/api/mqtt/v2");
    assert_eq!(e.transport, TransportKind::Wss);
    assert_eq!(e.port, 1883);
    let e = broker_endpoint(&o, "http", "node.example", None, "/");
    assert_eq!(e.uri, "ws://node.example:1883/api/mqtt/v2");
    assert_eq!(e.transport, TransportKind::Ws);
    let tcp = o.use_ws(false);
    let e = broker_endpoint(&tcp, "https", "node.example", Some(443), "/");
    assert_eq!(e.uri, "node.example");
    assert_eq!(e.transport, TransportKind::Tls);
    let e = node_broker_endpoint(&o, "http://localhost:14265").unwrap();
    assert_eq!(e.uri, "ws://localhost:14265/api/mqtt/v2");
    assert!(node_broker_endpoint(&o, "not a url").is_none());
    assert_eq!(mqtt_client_id(&vec![0, 1, 0xab, 0xff]), "iotasdk0x0001abff");
}

#[test]
fn polling_counts_failures() {
    let mut s = PollState::new();
    assert_eq!(s.poll_step(PollEvent::ConnAck, 2), PollAction::Connected { resubscribe: false });
    assert_eq!(s.poll_step(PollEvent::Publish, 2), PollAction::Dispatch);
    assert_eq!(s.poll_step(PollEvent::Error { secs_since_last_error: 10 }, 2), PollAction::Continue);
    assert_eq!(s, PollState { is_subscribed: false, connection_failure_count: 1 });
    assert_eq!(s.poll_step(PollEvent::ConnAck, 2), PollAction::Connected { resubscribe: true });
    assert_eq!(s.poll_step(PollEvent::Other, 2), PollAction::Continue);
    assert_eq!(s.poll_step(PollEvent::Error { secs_since_last_error: 1 }, 2), PollAction::Disconnect);
    assert_eq!(s.connection_failure_count, 2);
    // Without a limit the session never gives up.
    let mut s = PollState::new();
    for _ in 0..10 {
        assert_eq!(s.poll_step(PollEvent::Error { secs_since_last_error: 0 }, 0), PollAction::Continue);
    }
    assert_eq!(s.connection_failure_count, 10);
    assert!(drops_client_on(&MqttEvent::Disconnected));
    assert!(!drops_client_on(&MqttEvent::Connected));
}

#[test]
fn payload_kinds() {
    assert!(topic_carries_block("blocks/transaction"));
    assert!(topic_carries_block("transactions/0xab/included-block"));
    assert!(!topic_carries_block("outputs/nft/0xab"));
}

#[test]
fn unsubscription_plans() {
    let subscribed = vec![topic("blocks"), topic("commitments"), topic("blocks/transaction")];
    let (topics, remaining, disconnect) = plan_unsubscription(&vec![topic("blocks")], &subscribed, &BrokerOptions::new());
    assert_eq!(topics.len(), 1);
    assert_eq!(remaining.iter().map(|t| t.as_str().to_string()).collect::<Vec<_>>(), vec!["commitments", "blocks/transaction"]);
    assert!(!disconnect);
    let (topics, remaining, disconnect) = plan_unsubscription(&vec![], &subscribed, &BrokerOptions::new());
    assert_eq!(topics.len(), 3);
    assert!(remaining.is_empty());
    assert!(disconnect);
    let (_, _, disconnect) = plan_unsubscription(&vec![], &subscribed, &BrokerOptions::new().automatic_disconnect(false));
    assert!(!disconnect);
}
