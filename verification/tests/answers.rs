use pim_daemon::discovery::NodeCapabilities;
use pim_daemon::net_addr::SocketAddress;
use pim_daemon::node_id::NodeId;
use pim_daemon::reconnect::ConnectTarget;
use pim_daemon::rpc_answers::{builtin_reply, messages_send_check, send_failure_code, x25519_param, BuiltinAnswer};
use pim_daemon::runtime::SubscriptionIds;
use pim_daemon::snapshot::{
    assemble_debug_snapshot, peer_snapshot, DiscoveredSnapshot, NodeSnapshot, PeerSnapshot, RouteSnapshot,
    SNAPSHOT_VERSION,
};
use pim_daemon::stats::StatsSnapshot;

fn n(b: u8) -> NodeId {
    NodeId::from_bytes([b; 16])
}

#[test]
fn dispatcher_answers_subscriptions_and_unknown_methods() {
    let mut ids = SubscriptionIds::new();
    assert_eq!(
        builtin_reply("status.subscribe", &mut ids),
        Some(Ok(BuiltinAnswer::Subscribed("rpc-sub-0".to_string())))
    );
    assert_eq!(
        builtin_reply("gateway.subscribe", &mut ids),
        Some(Ok(BuiltinAnswer::Subscribed("rpc-sub-1".to_string())))
    );
    assert_eq!(builtin_reply("logs.unsubscribe", &mut ids), Some(Ok(BuiltinAnswer::Null)));
    assert_eq!(
        builtin_reply("peers.pair", &mut ids),
        Some(Err((-32603, "peers.pair: not yet implemented in this RPC server".to_string())))
    );
    assert_eq!(builtin_reply("status", &mut ids), None);
    assert_eq!(builtin_reply("logs.subscribe", &mut ids), None);
    assert_eq!(builtin_reply("bogus", &mut ids), Some(Err((-32601, "method not found: bogus".to_string()))));
    assert_eq!(
        builtin_reply("peers.subscribe", &mut ids),
        Some(Ok(BuiltinAnswer::Subscribed("rpc-sub-2".to_string())))
    );
}

#[test]
fn send_failures_are_classified() {
    assert_eq!(send_failure_code("no x25519 key cached for peer"), -32060);
    assert_eq!(send_failure_code("peer has no x25519"), -32060);
    assert_eq!(send_failure_code("disk I/O error"), -32062);
    assert_eq!(send_failure_code(""), -32062);
}

#[test]
fn send_parameters_are_checked_in_order() {
    let hex = "ab".repeat(16);
    assert_eq!(
        messages_send_check("", &hex),
        Err((-32602, "messages.send body must be non-empty".to_string()))
    );
    let big = "x".repeat(8193);
    assert_eq!(messages_send_check(&big, "zz"), Err((-32061, "body exceeds 8192 bytes".to_string())));
    assert_eq!(
        messages_send_check("hi", "zz"),
        Err((-32602, "peer_node_id must be 32 hex characters".to_string()))
    );
    assert_eq!(messages_send_check("hi", &hex), Ok([0xab; 16]));
}

#[test]
fn x25519_errors_name_the_length_or_the_pair() {
    assert_eq!(
        x25519_param("abc"),
        Err((-32602, "x25519_pubkey must be 64 hex characters, got 3".to_string()))
    );
    assert_eq!(
        x25519_param(&"+f".repeat(32)),
        Err((-32602, "x25519_pubkey contains invalid hex: +f".to_string()))
    );
    let accented = "00".to_string() + "é" + &"00".repeat(31);
    assert_eq!(accented.len(), 66);
    let accented = "00".to_string() + "é" + &"00".repeat(30);
    assert_eq!(accented.len(), 64);
    assert_eq!(
        x25519_param(&accented),
        Err((-32602, "x25519_pubkey contains invalid hex: é".to_string()))
    );
    let split = "0".to_string() + "é" + &"0".repeat(61);
    assert_eq!(x25519_param(&split), Err((-32602, "x25519_pubkey contains non-utf8 bytes".to_string())));
    assert_eq!(x25519_param(&"0f".repeat(32)), Ok([0x0f; 32]));
}

fn route(dst: u8, gateway: bool, score: u64) -> RouteSnapshot {
    RouteSnapshot {
        destination: n(dst),
        next_hop: n(1),
        learned_from: n(1),
        hops: 2,
        is_gateway: gateway,
        gateway_load: 0,
        rtt_ms: None,
        mesh_ip: None,
        age_ms: 5,
        next_hop_blacklisted: false,
        score,
    }
}

#[test]
fn snapshot_is_assembled_in_listing_order() {
    let tcp = ConnectTarget::Tcp(SocketAddress::v4(10, 0, 0, 2, 9000));
    let p1 = peer_snapshot(n(7), Some((tcp, true, false)), &vec![n(7)], Some(12));
    assert_eq!(p1.target, Some(tcp));
    assert!(p1.direct && p1.configured && !p1.discovered);
    let p2 = peer_snapshot(n(3), None, &vec![n(7)], None);
    assert!(p2.target.is_none() && !p2.direct && !p2.configured);
    let peers: Vec<PeerSnapshot> = vec![p1, p2];
    let disc = vec![DiscoveredSnapshot {
        node_id: n(9),
        addr: SocketAddress::v4(10, 0, 0, 9, 9000),
        capabilities: NodeCapabilities { bits: 1 },
        last_seen_age_ms: 3,
    }];
    let routes = vec![route(8, true, 5), route(2, false, 0), route(6, true, 1), route(4, true, 9)];
    let node = NodeSnapshot {
        name: "n".to_string(),
        node_id: n(1),
        is_gateway: false,
        mesh_ip: [10, 77, 0, 1],
        mesh_prefix_len: 24,
    };
    let stats = StatsSnapshot {
        peers: 2,
        routes: 4,
        packets_forwarded: 0,
        bytes_forwarded: 0,
        packets_dropped: 0,
        congestion_drops: 0,
        conntrack_size: 0,
        uptime_secs: 9,
    };
    let s = assemble_debug_snapshot(node, stats, 1234, peers, disc, routes, Some(n(4)));
    assert_eq!(s.version, SNAPSHOT_VERSION);
    assert_eq!(s.generated_at_unix_secs, 1234);
    let peer_ids: Vec<NodeId> = s.peers.iter().map(|p| p.node_id).collect();
    assert_eq!(peer_ids, vec![n(3), n(7)]);
    let route_ids: Vec<NodeId> = s.routes.iter().map(|r| r.destination).collect();
    assert_eq!(route_ids, vec![n(2), n(4), n(6), n(8)]);
    let gw: Vec<(NodeId, bool)> = s.gateways.iter().map(|g| (g.node_id, g.selected)).collect();
    assert_eq!(gw, vec![(n(4), true), (n(6), false), (n(8), false)]);
    assert_eq!(s.discovered_peers.len(), 1);
}
