use iota_client::time::{check_time_synced, TimeNotSynced, FIVE_MINUTES_IN_NANOSECONDS};
use iota_client::address_options::{
    search_address, GenerateAddressOptions, GetAddressesOptions, SearchError, SHIMMER_COIN_TYPE,
};
use iota_client::bech32_address::{Bech32Error, Hrp};
use iota_client::client_builder::{validate_url, ClientBuilder, ClientError, NodeAuth};
use iota_client::ledger::{Address, AddressKind, Id};
use iota_client::mqtt::BrokerOptions;
use iota_client::time::TimeSpan;

#[test]
fn builder_defaults() {
    let b = ClientBuilder::new();
    assert_eq!(b.api_timeout, TimeSpan { secs: 15, nanos: 0 });
    assert_eq!(b.node_manager_builder.node_sync_interval, TimeSpan { secs: 60, nanos: 0 });
    assert_eq!(b.node_manager_builder.min_quorum_size, 3);
    assert_eq!(b.node_manager_builder.quorum_threshold, 66);
    assert!(!b.node_manager_builder.quorum);
    assert_eq!(b.node_manager_builder.user_agent, "iota_client/0.1.0");
    assert_eq!(b.broker_options, BrokerOptions::new());
    assert!(b.network_info.protocol_parameters.is_none());
}

#[test]
fn builder_nodes_are_validated() {
    let b = ClientBuilder::new().with_node("http://localhost:14265").unwrap();
    assert_eq!(b.node_manager_builder.nodes.len(), 1);
    assert_eq!(b.node_manager_builder.nodes[0].url, "http://localhost:14265/");
    let b = b.with_node("http://localhost:14265").unwrap();
    assert_eq!(b.node_manager_builder.nodes.len(), 1);
    match ClientBuilder::new().with_node("ftp://example.com") {
        Err(ClientError::UrlValidation { scheme }) => assert_eq!(scheme, "ftp"),
        other => panic!("unexpected {other:?}"),
    }
    assert!(matches!(ClientBuilder::new().with_node("not a url"), Err(ClientError::UrlParse)));
    match ClientBuilder::new().with_nodes(&["https://a.example", "ws://b.example", "nope"]) {
        Err(ClientError::UrlValidation { scheme }) => assert_eq!(scheme, "ws"),
        other => panic!("unexpected {other:?}"),
    }
    let b = ClientBuilder::new().with_nodes(&["https://a.example", "https://b.example/"]).unwrap();
    assert_eq!(b.node_manager_builder.nodes.len(), 2);
    let auth = NodeAuth { jwt: Some("token".to_string()), basic_auth_name_pwd: None };
    let b = b.with_primary_node("https://p.example", Some(auth)).unwrap();
    assert_eq!(b.node_manager_builder.primary_node.as_ref().unwrap().url, "https://p.example/");
    let b = b.with_permanode("https://perma.example", None).unwrap();
    assert_eq!(b.node_manager_builder.permanodes.len(), 1);
    assert_eq!(validate_url("HTTPS://X.example").unwrap(), "https://x.example/");
}

#[test]
fn builder_settings() {
    let b = ClientBuilder::new()
        .with_quorum(true)
        .with_min_quorum_size(5)
        .with_quorum_threshold(150)
        .with_ignore_node_health()
        .with_api_timeout(TimeSpan { secs: 3, nanos: 0 })
        .with_node_sync_interval(TimeSpan { secs: 7, nanos: 0 })
        .with_user_agent("agent".to_string())
        .with_mqtt_broker_options(BrokerOptions::new().port(1884));
    assert!(b.node_manager_builder.quorum);
    assert_eq!(b.node_manager_builder.min_quorum_size, 5);
    assert_eq!(b.node_manager_builder.quorum_threshold, 100);
    assert!(b.node_manager_builder.ignore_node_health);
    assert_eq!(b.api_timeout.secs, 3);
    assert_eq!(b.node_manager_builder.node_sync_interval.secs, 7);
    assert_eq!(b.node_manager_builder.user_agent, "agent");
    assert_eq!(b.broker_options.port, 1884);
    assert_eq!(ClientBuilder::new().with_quorum_threshold(42).node_manager_builder.quorum_threshold, 42);
}

#[test]
fn address_options() {
    let o = GetAddressesOptions::default();
    assert_eq!(o.coin_type, SHIMMER_COIN_TYPE);
    assert_eq!(o.range, 0..20);
    assert_eq!(o.bech32_hrp.as_str(), "rms");
    let o = o.with_coin_type(4218).with_account_index(2).with_range(5..9).internal();
    assert_eq!(o.coin_type, 4218);
    assert_eq!(o.account_index, 2);
    assert_eq!(o.range, 5..9);
    assert_eq!(o.options, Some(GenerateAddressOptions { internal: true, ledger_nano_prompt: false }));
    let o = o.with_options(Some(GenerateAddressOptions { internal: false, ledger_nano_prompt: true })).internal();
    assert_eq!(o.options, Some(GenerateAddressOptions { internal: true, ledger_nano_prompt: true }));
    let o = o.try_with_bech32_hrp("smr").unwrap();
    assert_eq!(o.bech32_hrp.as_str(), "smr");
    assert!(matches!(o.try_with_bech32_hrp("MiXed"), Err(Bech32Error::InvalidHrp)));
    assert!(Hrp::parse("").is_err());
    assert!(Hrp::parse(&"a".repeat(84)).is_err());
    assert!(Hrp::parse(&"a".repeat(83)).is_ok());
    let o = GetAddressesOptions::new().with_bech32_hrp(Hrp::iota());
    assert_eq!(o.bech32_hrp.as_str(), "iota");
}

#[test]
fn search_address_finds_public_then_internal() {
    let a = |b: u8| Address::new(AddressKind::Ed25519, Id::new(vec![b; 32]));
    let public = vec![a(1), a(2), a(3)];
    let internal = vec![a(4), a(5), a(6)];
    assert_eq!(search_address(&public, &internal, 10, &a(2)), Ok((11, false)));
    assert_eq!(search_address(&public, &internal, 10, &a(6)), Ok((12, true)));
    assert_eq!(search_address(&public, &internal, 10, &a(9)), Err(SearchError::AddressNotFound));
}

#[test]
fn default_builder_is_new() {
    let b = ClientBuilder::default();
    assert_eq!(b.api_timeout, ClientBuilder::new().api_timeout);
    assert!(b.node_manager_builder.nodes.is_empty());
    assert!(b.node_manager_builder.primary_node.is_none());
}

#[test]
fn the_clock_must_be_within_five_minutes_of_the_tangle_time() {
    let tangle = 1_000_000_000_000u64;
    assert!(check_time_synced(tangle, Some(tangle)).is_ok());
    assert!(check_time_synced(tangle - FIVE_MINUTES_IN_NANOSECONDS, Some(tangle)).is_ok());
    assert_eq!(
        check_time_synced(tangle + FIVE_MINUTES_IN_NANOSECONDS, Some(tangle)),
        Err(TimeNotSynced { current_time: tangle + FIVE_MINUTES_IN_NANOSECONDS, tangle_time: tangle })
    );
    assert!(check_time_synced(tangle - FIVE_MINUTES_IN_NANOSECONDS - 1, Some(tangle)).is_err());
    assert!(check_time_synced(5, None).is_ok());
}
