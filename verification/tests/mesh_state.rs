use pim_daemon::forwarding::rfcomm_initiates;
use pim_daemon::identity_rate::IdentityArrivals;
use pim_daemon::messaging::{broadcast_recipients, PeerInfoSource};
use pim_daemon::net_addr::{network_address, IpAddress, SocketAddress};
use pim_daemon::node_id::NodeId;
use pim_daemon::outbound::OutboundTable;
use pim_daemon::probes::{direct_gateways, PendingPings, PENDING_PING_TTL_NS};
use pim_daemon::reconnect::ConnectTarget;
use pim_daemon::snapshot::{gateway_rank_key, id_rank_key, saturating_millis, stable_order};

fn n(b: u8) -> NodeId {
    NodeId::from_bytes([b; 16])
}

fn tcp(d: u8, port: u16) -> ConnectTarget {
    ConnectTarget::Tcp(SocketAddress::v4(10, 0, 0, d, port))
}

const SEC: u64 = 1_000_000_000;

#[test]
fn outbound_cancel_marks_key_once() {
    let mut t = OutboundTable::new();
    t.register(tcp(2, 9000), n(0xa1));
    let ip = tcp(2, 9000).addr().ip;
    let e = t.cancel_for_ip(ip).expect("pending attempt");
    assert_eq!(e.transport_key, n(0xa1));
    assert_eq!(e.target, tcp(2, 9000));
    assert!(t.cancel_for_ip(ip).is_none());
    assert!(t.take_cancelled(n(0xa1)));
    assert!(!t.take_cancelled(n(0xa1)));
}

#[test]
fn outbound_stale_clear_keeps_newer_attempt() {
    let mut t = OutboundTable::new();
    t.register(tcp(3, 9000), n(1));
    t.register(tcp(3, 9001), n(2));
    t.clear(tcp(3, 9000), n(1));
    let e = t.cancel_for_ip(IpAddress::V4(0x0a00_0003)).expect("newer attempt stays");
    assert_eq!(e.transport_key, n(2));
    assert_eq!(e.target, tcp(3, 9001));
}

#[test]
fn outbound_clear_current_key_removes_entry() {
    let mut t = OutboundTable::new();
    t.register(tcp(4, 9000), n(7));
    t.clear(tcp(4, 9000), n(7));
    assert!(t.cancel_for_ip(tcp(4, 9000).addr().ip).is_none());
    assert!(!t.take_cancelled(n(7)));
}

#[test]
fn pong_yields_gateway_and_rtt_once() {
    let mut p = PendingPings::new();
    p.record(42, n(9), 5 * SEC);
    assert_eq!(p.take_pong(42, 5 * SEC + 37_400_000), Some((n(9), 37)));
    assert_eq!(p.take_pong(42, 6 * SEC), None);
    assert_eq!(p.take_pong(7, 6 * SEC), None);
}

#[test]
fn unanswered_pings_expire_after_ttl() {
    let mut p = PendingPings::new();
    p.record(1, n(1), 0);
    p.record(2, n(2), 10 * SEC);
    p.expire(PENDING_PING_TTL_NS);
    assert_eq!(p.take_pong(1, PENDING_PING_TTL_NS), None);
    assert_eq!(p.take_pong(2, PENDING_PING_TTL_NS + SEC), Some((n(2), 21_000)));
}

#[test]
fn only_direct_gateways_are_probed() {
    let gateways = vec![n(1), n(2), n(3)];
    let direct = vec![n(3), n(1), n(9)];
    assert_eq!(direct_gateways(&gateways, &direct), vec![n(1), n(3)]);
    assert!(direct_gateways(&gateways, &Vec::new()).is_empty());
}

#[test]
fn routed_identity_repeat_within_interval_is_dropped() {
    let mut a = IdentityArrivals::new();
    assert!(a.pass_gate(n(5), PeerInfoSource::Routed, 60, 100 * SEC));
    assert!(!a.pass_gate(n(5), PeerInfoSource::Routed, 60, 159 * SEC));
    assert!(a.pass_gate(n(6), PeerInfoSource::Routed, 60, 159 * SEC));
    assert!(a.pass_gate(n(5), PeerInfoSource::Direct, 60, 159 * SEC));
    assert!(a.pass_gate(n(5), PeerInfoSource::Routed, 60, 160 * SEC));
    assert!(a.pass_gate(n(5), PeerInfoSource::Routed, 0, 161 * SEC));
}

#[test]
fn identity_arrivals_sweep_drops_stale_peers() {
    let mut a = IdentityArrivals::new();
    assert!(a.pass_gate(n(1), PeerInfoSource::Routed, 60, 0));
    assert!(a.pass_gate(n(2), PeerInfoSource::Routed, 60, 690 * SEC));
    assert_eq!(a.sweep(600, 700 * SEC), 1);
    assert!(a.pass_gate(n(1), PeerInfoSource::Routed, 60, 701 * SEC));
    assert!(!a.pass_gate(n(2), PeerInfoSource::Routed, 60, 701 * SEC));
    assert_eq!(a.sweep(-5, 701 * SEC), 1);
}

#[test]
fn lower_node_id_initiates_rfcomm_handshake() {
    assert!(rfcomm_initiates(&n(1), &n(2)));
    assert!(!rfcomm_initiates(&n(2), &n(1)));
    assert!(!rfcomm_initiates(&n(3), &n(3)));
}

#[test]
fn broadcast_skips_own_node() {
    let routes = vec![n(1), n(9), n(2), n(9)];
    assert_eq!(broadcast_recipients(&routes, n(9)), vec![n(1), n(2)]);
}

#[test]
fn snapshot_order_is_stable_by_key() {
    let keys = vec![(1, 5, 3), (0, 9, 9), (1, 5, 1), (1, 5, 3)];
    assert_eq!(stable_order(&keys), vec![1, 2, 0, 3]);
    assert!(stable_order(&Vec::new()).is_empty());
}

#[test]
fn selected_gateway_sorts_first_then_score_then_short_id() {
    let mut raw = [0u8; 16];
    raw[..4].copy_from_slice(&[0xab, 0xcd, 0x01, 0x02]);
    let id = NodeId::from_bytes(raw);
    assert_eq!(id_rank_key(&id), (0, 0, 0xabcd_0102));
    assert_eq!(gateway_rank_key(true, 7, &id), (0, 7, 0xabcd_0102));
    assert_eq!(gateway_rank_key(false, 7, &id), (1, 7, 0xabcd_0102));
    let keys = vec![
        gateway_rank_key(false, 3, &n(2)),
        gateway_rank_key(false, 3, &n(1)),
        gateway_rank_key(true, 90, &n(9)),
        gateway_rank_key(false, 1, &n(8)),
    ];
    assert_eq!(stable_order(&keys), vec![2, 3, 1, 0]);
}

#[test]
fn snapshot_ages_saturate() {
    assert_eq!(saturating_millis(5_999_999), 5);
    assert_eq!(saturating_millis(0), 0);
    assert_eq!(saturating_millis(u128::MAX), u64::MAX);
}

#[test]
fn gateway_pool_starts_at_subnet_base() {
    assert_eq!(network_address(0x0a4d_0001, 24), 0x0a4d_0000);
    assert_eq!(network_address(0x0a4d_0001, 32), 0x0a4d_0001);
    assert_eq!(network_address(0x0a4d_8765, 17), 0x0a4d_8000);
    assert_eq!(network_address(0xffff_ffff, 1), 0x8000_0000);
}
