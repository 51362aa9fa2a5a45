use pim_daemon::net_addr::{IpAddress, SocketAddress};
use pim_daemon::node_id::NodeId;
use pim_daemon::reconnect::{
    backoff_base_ms, backoff_duration, jittered_backoff, reconnect_allowed, reconnect_next, resolve_configured_peer_targets,
    AttemptOutcome, ConfiguredPeer, ConnectTarget, PeerConfigError, ReconnectManager, ReconnectStep,
};

fn peer_id(b: u8) -> NodeId {
    NodeId::from_bytes([b; 16])
}

fn target_port(port: u16) -> ConnectTarget {
    ConnectTarget::Tcp(SocketAddress::v4(127, 0, 0, 1, port))
}

fn test_target() -> ConnectTarget {
    target_port(9999)
}

#[test]
fn backoff_duration_attempt_0_within_25_pct_jitter() {
    for _ in 0..200 {
        let ms = backoff_duration(0);
        assert!(ms >= 750, "attempt 0: {ms} ms < 750 ms");
        assert!(ms <= 1_250, "attempt 0: {ms} ms > 1250 ms");
    }
}

#[test]
fn backoff_duration_attempt_1_within_25_pct_jitter() {
    for _ in 0..200 {
        let ms = backoff_duration(1);
        assert!(ms >= 1_500, "attempt 1: {ms} ms < 1500 ms");
        assert!(ms <= 2_500, "attempt 1: {ms} ms > 2500 ms");
    }
}

#[test]
fn backoff_duration_capped_within_25_pct_of_30s() {
    for _ in 0..200 {
        let ms = backoff_duration(10);
        assert!(ms >= 7_500, "attempt 10: {ms} ms < 7 500 ms");
        assert!(ms <= 12_500, "attempt 10: {ms} ms > 12 500 ms");
    }
}

#[test]
fn backoff_duration_increases_with_attempt() {
    let low: u64 = (0..200).map(|_| backoff_duration(0)).sum::<u64>() / 200;
    let high: u64 = (0..200).map(|_| backoff_duration(4)).sum::<u64>() / 200;
    assert!(high > low, "attempt 4 avg ({high}) should exceed attempt 0 avg ({low})");
}

#[test]
fn backoff_base_at_u32_max_is_capped() {
    assert_eq!(backoff_base_ms(u32::MAX), 10_000);
}

#[test]
fn begin_reconnect_returns_true_once() {
    let mut mgr = ReconnectManager::new(&vec![test_target()]);
    assert!(mgr.begin_reconnect(test_target()), "first claim should succeed");
    assert!(!mgr.begin_reconnect(test_target()), "second claim should fail");
}

#[test]
fn end_reconnect_allows_begin_again() {
    let mut mgr = ReconnectManager::new(&vec![test_target()]);
    mgr.begin_reconnect(test_target());
    mgr.end_reconnect(test_target());
    assert!(mgr.begin_reconnect(test_target()), "should be able to claim after release");
}

#[test]
fn configured_addr_none_for_unknown_peer() {
    let mgr = ReconnectManager::new(&vec![test_target()]);
    assert!(mgr.configured_target(&peer_id(1)).is_none());
}

#[test]
fn configured_target_returns_target_after_register() {
    let target = test_target();
    let mut mgr = ReconnectManager::new(&vec![target]);
    mgr.register(peer_id(1), target);
    assert_eq!(mgr.configured_target(&peer_id(1)), Some(target));
}

#[test]
fn configured_target_none_for_unconfigured_target() {
    let configured = target_port(9999);
    let other = target_port(8888);
    let mut mgr = ReconnectManager::new(&vec![configured]);
    mgr.register(peer_id(1), other);
    assert!(mgr.configured_target(&peer_id(1)).is_none());
}

#[test]
fn multiple_configured_peers_tracked_independently() {
    let target_a = target_port(9001);
    let target_b = target_port(9002);
    let mut mgr = ReconnectManager::new(&vec![target_a, target_b]);
    mgr.register(peer_id(1), target_a);
    mgr.register(peer_id(2), target_b);
    assert_eq!(mgr.configured_target(&peer_id(1)), Some(target_a));
    assert_eq!(mgr.configured_target(&peer_id(2)), Some(target_b));
    assert!(mgr.begin_reconnect(target_a));
    assert!(mgr.begin_reconnect(target_b));
    assert!(!mgr.begin_reconnect(target_a));
}

#[test]
fn register_discovered_makes_peer_reconnectable() {
    let target = target_port(7000);
    let mut mgr = ReconnectManager::new(&vec![]);
    mgr.register(peer_id(3), target);
    assert!(mgr.is_reconnectable_target(&peer_id(3)).is_none());
    mgr.register_discovered(target, 100);
    assert_eq!(mgr.is_reconnectable_target(&peer_id(3)), Some(target));
    assert_eq!(mgr.peer_info(&peer_id(3)), Some((target, false, true)));
}

#[test]
fn sweep_drops_only_stale_targets() {
    let fresh = target_port(7001);
    let stale = target_port(7002);
    let mut mgr = ReconnectManager::new(&vec![]);
    mgr.register_discovered(stale, 0);
    mgr.register_discovered(fresh, 900);
    assert_eq!(mgr.expire_discovered_targets(500, 1000), 1);
    mgr.register(peer_id(4), fresh);
    mgr.register(peer_id(5), stale);
    assert_eq!(mgr.is_reconnectable_target(&peer_id(4)), Some(fresh));
    assert!(mgr.is_reconnectable_target(&peer_id(5)).is_none());
}

#[test]
fn peer_id_for_target_finds_registered_peer() {
    let target = target_port(7100);
    let mut mgr = ReconnectManager::new(&vec![target]);
    assert!(mgr.peer_id_for_target(&target).is_none());
    mgr.register(peer_id(8), target);
    assert_eq!(mgr.peer_id_for_target(&target), Some(peer_id(8)));
}

#[test]
fn mechanism_names() {
    let addr = SocketAddress::v4(10, 0, 0, 1, 5000);
    assert_eq!(ConnectTarget::Tcp(addr).mechanism_name(), "tcp");
    assert_eq!(ConnectTarget::BluetoothPan(addr).mechanism_name(), "bluetooth_pan");
    assert_eq!(ConnectTarget::BluetoothPan(addr).addr(), addr);
}

#[test]
fn reconnect_loop_retries_until_limit() {
    assert!(reconnect_allowed(0, 3));
    assert!(!reconnect_allowed(3, 3));
    assert_eq!(reconnect_next(0, 3, AttemptOutcome::ConnectFailed), ReconnectStep::Retry { attempt: 1 });
    assert_eq!(reconnect_next(1, 3, AttemptOutcome::HandshakeFailed), ReconnectStep::Retry { attempt: 2 });
    assert_eq!(reconnect_next(2, 3, AttemptOutcome::ConnectFailed), ReconnectStep::Finish { register: None });
    assert_eq!(
        reconnect_next(0, 3, AttemptOutcome::Connected(peer_id(9))),
        ReconnectStep::Finish { register: Some(peer_id(9)) }
    );
    assert_eq!(reconnect_next(0, 3, AttemptOutcome::Superseded), ReconnectStep::Finish { register: None });
    assert_eq!(reconnect_next(0, 3, AttemptOutcome::SessionActive), ReconnectStep::Finish { register: None });
    assert_eq!(reconnect_next(0, 3, AttemptOutcome::Cancelled), ReconnectStep::Finish { register: None });
}

#[test]
fn configured_peers_resolve_in_order() {
    let tcp = SocketAddress::v4(192, 168, 1, 2, 9100);
    let bt_ip = IpAddress::V4(0x0a00_0001);
    let peers = vec![ConfiguredPeer::Tcp(Some(tcp)), ConfiguredPeer::Bluetooth(Some(bt_ip))];
    let r = resolve_configured_peer_targets(&peers, true, 9200);
    let t = match r {
        Ok(t) => t,
        Err(e) => panic!("unexpected error {e:?}"),
    };
    let bt = SocketAddress { ip: bt_ip, port: 9200 };
    assert_eq!(t.startup_targets, vec![ConnectTarget::Tcp(tcp)]);
    assert_eq!(t.reconnect_targets, vec![ConnectTarget::Tcp(tcp), ConnectTarget::BluetoothPan(bt)]);
    assert_eq!(t.bluetooth_static_targets, vec![bt]);
}

#[test]
fn configured_bluetooth_peer_requires_bluetooth() {
    let peers = vec![
        ConfiguredPeer::Tcp(Some(SocketAddress::v4(1, 2, 3, 4, 5))),
        ConfiguredPeer::Bluetooth(None),
        ConfiguredPeer::Tcp(None),
    ];
    assert!(matches!(
        resolve_configured_peer_targets(&peers, false, 1),
        Err(PeerConfigError::BluetoothDisabled { index: 1 })
    ));
    assert!(matches!(
        resolve_configured_peer_targets(&peers, true, 1),
        Err(PeerConfigError::BadBluetoothIp { index: 1 })
    ));
    let unresolved = vec![ConfiguredPeer::Tcp(None)];
    assert!(matches!(
        resolve_configured_peer_targets(&unresolved, true, 1),
        Err(PeerConfigError::Unresolved { index: 0 })
    ));
}

#[test]
fn jitter_moves_base_delay() {
    assert_eq!(jittered_backoff(0, -250), 750);
    assert_eq!(jittered_backoff(0, 250), 1250);
    assert_eq!(jittered_backoff(3, 2000), 10_000);
    assert_eq!(jittered_backoff(20, -2500), 7500);
    assert_eq!(jittered_backoff(1, 0), 2000);
}
