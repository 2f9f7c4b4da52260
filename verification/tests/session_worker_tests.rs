use base64::Engine;
use quilkin::cluster::ClusterMap;
use quilkin::config::{Config, Resource};
use quilkin::endpoint::{Endpoint, EndpointAddress};
use quilkin::filter::{Filter, FilterChain};
use quilkin::proxy::{prepare_config, StartupError};
use quilkin::session::{SessionKey, SessionMap};
use quilkin::worker::{process_packet, process_reply, ProcessOutcome};

fn addr(ip: u128, port: u16) -> EndpointAddress {
    EndpointAddress { ip, port }
}

fn key(src: u128, dst: u128) -> SessionKey {
    SessionKey {
        source: addr(src, 1000),
        dest: addr(dst, 2000),
    }
}

#[test]
fn touch_creates_then_updates() {
    let mut sessions = SessionMap::new(60, 60);
    assert_eq!(sessions.len(), 0);
    assert!(sessions.touch(key(1, 2), 5));
    assert!(!sessions.touch(key(1, 2), 9));
    assert_eq!(sessions.len(), 1);
    let s = sessions.get(&key(1, 2)).unwrap();
    assert_eq!(s.created_at, 5);
    assert_eq!(s.last_activity, 9);
    assert!(sessions.get(&key(2, 1)).is_none());
}

#[test]
fn map_size_is_creates_minus_expires() {
    // Create three sessions under distinct keys, expire two: the size is
    // the number created minus the number expired, at every step.
    let mut sessions = SessionMap::new(10, 5);
    assert!(sessions.touch(key(1, 1), 0));
    assert!(sessions.touch(key(2, 2), 0));
    assert!(sessions.touch(key(3, 3), 8));
    assert_eq!(sessions.len(), 3);
    // At tick 12 the two idle-since-0 sessions have been idle >= 10 ticks.
    let removed = sessions.sweep(12);
    assert_eq!(removed, 2);
    assert_eq!(sessions.len(), 1);
    assert!(sessions.get(&key(3, 3)).is_some());
    assert!(sessions.get(&key(1, 1)).is_none());
}

#[test]
fn zero_packet_session_expires_within_the_poll_window() {
    // Timeout one tick, poll every tick: a session that sees no packet is
    // gone by the sweep one tick after creation, and a new packet then makes
    // a fresh session.
    let mut sessions = SessionMap::new(1, 1);
    sessions.touch(key(1, 2), 0);
    assert_eq!(sessions.sweep(0), 0);
    assert_eq!(sessions.len(), 1);
    assert_eq!(sessions.sweep(1), 1);
    assert_eq!(sessions.len(), 0);
    assert!(sessions.touch(key(1, 2), 5));
    assert_eq!(sessions.get(&key(1, 2)).unwrap().created_at, 5);
}

#[test]
fn activity_defers_expiry() {
    let mut sessions = SessionMap::new(10, 5);
    sessions.touch(key(1, 2), 0);
    sessions.touch(key(1, 2), 8);
    assert_eq!(sessions.sweep(12), 0);
    assert_eq!(sessions.sweep(18), 1);
}

#[test]
fn shutdown_cancels_every_session() {
    let mut sessions = SessionMap::new(60, 60);
    sessions.touch(key(1, 1), 0);
    sessions.touch(key(2, 2), 0);
    sessions.shutdown();
    assert_eq!(sessions.len(), 0);
}

#[test]
fn packet_fans_out_to_every_configured_endpoint() {
    // Two upstream endpoints in the default cluster: one datagram is
    // dispatched to exactly those two, in order.
    let mut clusters = ClusterMap::new();
    clusters.insert_default(vec![
        Endpoint::new(addr(10, 7001)),
        Endpoint::new(addr(11, 7002)),
    ]);
    let chain = FilterChain::empty();
    let source = addr(99, 4000);
    match process_packet(&clusters, &chain, source, &b"hello".to_vec()) {
        ProcessOutcome::Forward { targets, contents } => {
            assert_eq!(contents, b"hello".to_vec());
            assert_eq!(targets.len(), 2);
            assert_eq!(targets[0], SessionKey { source, dest: addr(10, 7001) });
            assert_eq!(targets[1], SessionKey { source, dest: addr(11, 7002) });
        }
        other => panic!("expected a forward outcome, got {:?}", other),
    }
}

#[test]
fn empty_endpoint_list_drops_the_packet() {
    // A configuration producing no endpoints drops packets, it does not
    // buffer them.
    let clusters = ClusterMap::new();
    let chain = FilterChain::empty();
    assert!(matches!(
        process_packet(&clusters, &chain, addr(99, 4000), &b"hello".to_vec()),
        ProcessOutcome::DroppedNoEndpoints
    ));
}

#[test]
fn rejecting_filter_drops_the_packet() {
    let mut clusters = ClusterMap::new();
    clusters.insert_default(vec![Endpoint::new(addr(10, 7001))]);
    let chain =
        FilterChain::try_from(&vec![Filter::new("drop".to_string(), None)]).unwrap();
    assert!(matches!(
        process_packet(&clusters, &chain, addr(99, 4000), &b"hello".to_vec()),
        ProcessOutcome::DroppedByFilter
    ));
    assert!(process_reply(&chain, &b"reply".to_vec()).is_none());
}

#[test]
fn reconfiguration_takes_effect_on_the_next_packet() {
    // Start with no endpoints (dropped), apply an endpoint resource, then
    // the next packet is forwarded to the new endpoint.
    let mut config = Config::default();
    let chain = FilterChain::empty();
    let source = addr(5, 4000);
    {
        let clusters = config.clusters.load();
        assert!(matches!(
            process_packet(clusters, &chain, source, &b"p".to_vec()),
            ProcessOutcome::DroppedNoEndpoints
        ));
    }
    let e1 = quilkin::cluster::Cluster::new(
        "game".to_string(),
        quilkin::locality::LocalitySet::new(vec![quilkin::locality::LocalityEndpoints::new(
            vec![Endpoint::new(addr(42, 9000))],
        )]),
    );
    config.apply(&Resource::Endpoint(e1)).unwrap();
    let clusters = config.clusters.load();
    match process_packet(clusters, &chain, source, &b"p".to_vec()) {
        ProcessOutcome::Forward { targets, .. } => {
            assert_eq!(targets.len(), 1);
            assert_eq!(targets[0].dest, addr(42, 9000));
        }
        other => panic!("expected a forward outcome, got {:?}", other),
    }
}

#[test]
fn startup_requires_targets_or_a_management_server() {
    let mut config = Config::default();
    assert_eq!(
        prepare_config(&mut config, &vec![], false),
        Err(StartupError::NoTargetsOrManagementServer)
    );
    assert_eq!(prepare_config(&mut config, &vec![], true), Ok(()));
    let mut with_targets = Config::default();
    assert_eq!(
        prepare_config(&mut with_targets, &vec![addr(1, 7001)], false),
        Ok(())
    );
    assert_eq!(with_targets.apply_metrics().1, 1);
}

#[test]
fn every_packet_reaches_the_configured_endpoint() {
    // Many packets, one configured endpoint: every one of them is forwarded
    // there, none lost, none duplicated.
    let mut clusters = ClusterMap::new();
    clusters.insert_default(vec![Endpoint::new(addr(10, 7001))]);
    let chain = FilterChain::empty();
    let mut sessions = SessionMap::new(60, 60);
    for i in 0..100u64 {
        let source = addr(100 + i as u128, 4000);
        match process_packet(&clusters, &chain, source, &vec![i as u8]) {
            ProcessOutcome::Forward { targets, contents } => {
                assert_eq!(targets.len(), 1);
                assert_eq!(contents, vec![i as u8]);
                sessions.touch(targets[0], i);
            }
            other => panic!("expected a forward outcome, got {:?}", other),
        }
    }
    // One session per distinct source, none orphaned.
    assert_eq!(sessions.len(), 100);
    sessions.shutdown();
    assert_eq!(sessions.len(), 0);
}

#[test]
fn endpoint_metadata_tokens_survive_decoding() {
    let tokens: Vec<Vec<u8>> = ["MXg3aWp5Ng==", "OGdqM3YyaQ=="]
        .iter()
        .map(|t| {
            base64::engine::general_purpose::STANDARD
                .decode(t.as_bytes())
                .unwrap()
        })
        .collect();
    assert_eq!(tokens[0], b"1x7ijy6".to_vec());
    assert_eq!(tokens[1], b"8gj3v2i".to_vec());
    let e = Endpoint::with_metadata(addr(1, 26000), tokens);
    let expected = Endpoint::with_metadata(
        addr(1, 26000),
        vec![b"1x7ijy6".to_vec(), b"8gj3v2i".to_vec()],
    );
    assert!(e.same(&expected));
    assert!(!e.same(&Endpoint::new(addr(1, 26000))));
}
