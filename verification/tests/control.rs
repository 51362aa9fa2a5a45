use pim_daemon::cleanup::{
    cleanup_schedule, identities_to_forget, lifecycle_last_seen, mesh_identity_threshold_ms,
    paired_row_verdict, parse_paired_addrs, wfd_row_is_stale, PairedRowVerdict,
};
use pim_daemon::forwarding::{
    connect_race_winner, encrypts_for_gateway, flush_step, heartbeat_use, local_delivery,
    on_send_failure, relay_action, route_tun_packet, timed_out_peers, ConnectRaceWinner, FlushStep,
    LastHeartbeat, LocalDelivery, MeshPath, RelayAction, SendFailure, SendFailureAction, TunRoute,
};
use pim_daemon::frame::FrameType;
use pim_daemon::messaging::ImportOutcome;
use pim_daemon::node_id::NodeId;
use pim_daemon::rpc::{
    apply_broadcast_update, check_message_body, check_rpc_version, gateway_enable_check, history_limit,
    import_identity_reply, normalize_friendly_name, peer_hex_length_ok, Admission, BodyError,
    BroadcastSettings, BroadcastUpdate, BroadcastUpdateError, GatewayRequestError, RpcConnection,
};
use pim_daemon::runtime::{
    debug_snapshot_path, default_config_path, default_pid_file, gateway_supported_on_this_platform,
    is_nat_candidate, millis_of_reading, now_ms, output_shows_ipv4, rpc_socket_path, runtime_dir,
    tempfile_in_same_dir, unix_seconds_now, EpochReading, Platform,
};
use pim_daemon::send_buffer::Priority;
use pim_daemon::stats::{heartbeat_gateway_hops, heartbeat_load};

const SECOND: u64 = 1_000_000_000;

fn n(b: u8) -> NodeId {
    NodeId::from_bytes([b; 16])
}

fn v4_packet(dst: [u8; 4]) -> Vec<u8> {
    let mut p = vec![0u8; 20];
    p[0] = 0x45;
    p[16..20].copy_from_slice(&dst);
    p
}

#[test]
fn sweep_decisions_for_paired_rows() {
    assert_eq!(paired_row_verdict(false, 0, None, 10_000, 3600), PairedRowVerdict::DropRow);
    assert_eq!(paired_row_verdict(true, 9_000, None, 10_000, 3600), PairedRowVerdict::Keep);
    assert_eq!(paired_row_verdict(true, 0, Some(9_000), 10_000, 3600), PairedRowVerdict::Keep);
    assert_eq!(paired_row_verdict(true, 0, Some(100), 10_000, 3600), PairedRowVerdict::Stale);
    assert_eq!(paired_row_verdict(true, 5_000, Some(100), 10_000, 3600), PairedRowVerdict::Stale);
    assert_eq!(lifecycle_last_seen(5, Some(3)), 5);
    assert_eq!(lifecycle_last_seen(5, Some(8)), 8);
    assert!(wfd_row_is_stale(0, None, 10_000, 3600));
    assert!(!wfd_row_is_stale(0, Some(9_999), 10_000, 3600));
    assert!(!paired_row_verdict(true, i64::MAX, None, i64::MIN, 0).eq(&PairedRowVerdict::Stale));
}

#[test]
fn cleanup_schedule_floors() {
    assert_eq!(cleanup_schedule(false, 1, 1), None);
    assert_eq!(cleanup_schedule(true, 1, 60), Some((60, 3600)));
    assert_eq!(cleanup_schedule(true, 600, 86_400), Some((600, 86_400)));
    assert_eq!(mesh_identity_threshold_ms(10_000, 3_600), 6_400_000);
    assert_eq!(mesh_identity_threshold_ms(i64::MIN, 10), i64::MIN);
}

#[test]
fn paired_device_listing() {
    let out = "Device AA:BB:CC:DD:EE:FF PIM-x\n  Device 11:22:33:44:55:66 Other phone\r\nController 00 foo\nDevice lonely\n";
    assert_eq!(parse_paired_addrs(out), vec!["AA:BB:CC:DD:EE:FF".to_string(), "11:22:33:44:55:66".to_string()]);
    assert!(parse_paired_addrs("").is_empty());
}

#[test]
fn active_sessions_are_not_forgotten() {
    assert_eq!(identities_to_forget(&vec![n(1), n(2), n(3)], &vec![n(2)]), vec![n(1), n(3)]);
}

#[test]
fn tun_packets_follow_mesh_then_gateway_then_any_peer() {
    let own = [10, 0, 0, 1];
    let mesh = MeshPath { destination: n(2), next_hop: n(3) };
    let gw = MeshPath { destination: n(4), next_hop: n(5) };
    let p = v4_packet([10, 0, 0, 9]);
    assert_eq!(route_tun_packet(&p, own, Some(mesh), Some(gw), Some(n(6))), TunRoute::Send { path: mesh, internet: false });
    assert_eq!(route_tun_packet(&p, own, None, Some(gw), Some(n(6))), TunRoute::Send { path: gw, internet: true });
    assert_eq!(
        route_tun_packet(&p, own, None, None, Some(n(6))),
        TunRoute::Send { path: MeshPath { destination: n(6), next_hop: n(6) }, internet: true }
    );
    assert_eq!(route_tun_packet(&p, own, None, None, None), TunRoute::Drop);
    assert_eq!(route_tun_packet(&v4_packet(own), own, Some(mesh), None, None), TunRoute::Drop);
    assert_eq!(route_tun_packet(&p[..19], own, Some(mesh), None, None), TunRoute::Drop);
    let mut v6 = vec![0u8; 40];
    v6[0] = 0x60;
    assert_eq!(route_tun_packet(&v6, own, Some(mesh), Some(gw), None), TunRoute::Send { path: gw, internet: true });
    assert_eq!(route_tun_packet(&[], own, Some(mesh), Some(gw), None), TunRoute::Drop);
    assert!(encrypts_for_gateway(true, true));
    assert!(!encrypts_for_gateway(false, true));
}

#[test]
fn local_and_relayed_traffic() {
    let own = [10, 0, 0, 1];
    assert_eq!(local_delivery(&v4_packet(own), own, false, true), LocalDelivery::AnswerLocally);
    assert_eq!(local_delivery(&v4_packet([8, 8, 8, 8]), own, true, true), LocalDelivery::NatV4);
    assert_eq!(local_delivery(&v4_packet([8, 8, 8, 8]), own, true, false), LocalDelivery::WriteTun);
    assert_eq!(local_delivery(&v4_packet([8, 8, 8, 8]), own, false, true), LocalDelivery::WriteTun);
    assert_eq!(local_delivery(&[0x60], own, true, true), LocalDelivery::NatV6);
    assert_eq!(local_delivery(&[0x10], own, true, true), LocalDelivery::Drop);
    assert_eq!(relay_action(0, true, true), RelayAction::DropExpired);
    assert_eq!(relay_action(3, false, true), RelayAction::DropNoRoute);
    assert_eq!(relay_action(3, true, false), RelayAction::DropNoSession);
    assert_eq!(relay_action(3, true, true), RelayAction::Forward { ttl: 2 });
}

#[test]
fn send_failures_and_flushes() {
    assert_eq!(on_send_failure(SendFailure::PeerNotConnected, FrameType::Data), SendFailureAction::Buffer(Priority::Data));
    assert_eq!(on_send_failure(SendFailure::Congested, FrameType::Data), SendFailureAction::DropCongested);
    assert_eq!(on_send_failure(SendFailure::Congested, FrameType::RouteUpdate), SendFailureAction::Buffer(Priority::Route));
    assert_eq!(on_send_failure(SendFailure::Other, FrameType::Control), SendFailureAction::Report);
    assert_eq!(flush_step(false, None), FlushStep { requeue: false, stop_sending: false });
    assert_eq!(flush_step(false, Some(SendFailure::Congested)), FlushStep { requeue: true, stop_sending: true });
    assert_eq!(flush_step(true, None), FlushStep { requeue: true, stop_sending: true });
    assert_eq!(flush_step(false, Some(SendFailure::PeerNotConnected)), FlushStep { requeue: true, stop_sending: false });
}

#[test]
fn peer_heartbeat_keeps_peer_alive() {
    let table = vec![LastHeartbeat { peer: n(10), at: 100 * SECOND }];
    assert!(timed_out_peers(&table, 100 * SECOND).is_empty());
}

#[test]
fn peer_timeout_after_missed_heartbeats() {
    let table = vec![
        LastHeartbeat { peer: n(11), at: 0 },
        LastHeartbeat { peer: n(12), at: 10 * SECOND },
    ];
    let timed_out = timed_out_peers(&table, 16 * SECOND);
    assert_eq!(timed_out.len(), 1);
    assert_eq!(timed_out[0], n(11));
}

#[test]
fn heartbeats_teach_gateway_keys() {
    let u = heartbeat_use(0, &[0u8; 32]);
    assert!(u.record_gateway_load && !u.learn_gateway_key);
    let mut key = [0u8; 32];
    key[31] = 1;
    let v = heartbeat_use(0, &key);
    assert!(v.record_gateway_load && v.learn_gateway_key);
    let w = heartbeat_use(2, &key);
    assert!(!w.record_gateway_load && !w.learn_gateway_key);
    assert_eq!(heartbeat_load(100, 1100), 127);
    assert_eq!(heartbeat_load(100, 50), 0);
    assert_eq!(heartbeat_gateway_hops(true, Some(3)), 0);
    assert_eq!(heartbeat_gateway_hops(false, Some(3)), 3);
    assert_eq!(heartbeat_gateway_hops(false, None), 0xFF);
}

#[test]
fn connection_races_are_decided_alike() {
    assert_eq!(connect_race_winner(&n(9), &n(3)), ConnectRaceWinner::Incoming);
    assert_eq!(connect_race_winner(&n(3), &n(9)), ConnectRaceWinner::Outgoing);
}

#[test]
fn hello_must_come_first() {
    let mut c = RpcConnection::new();
    assert_eq!(c.check_request("status"), Admission::HelloRequired);
    assert_eq!(c.check_request("rpc.hello"), Admission::Dispatch);
    c.responded("status");
    assert_eq!(c.check_request("status"), Admission::HelloRequired);
    c.responded("rpc.hello");
    assert_eq!(c.check_request("status"), Admission::Dispatch);
}

#[test]
fn rpc_hello_with_matching_version_succeeds() {
    assert_eq!(check_rpc_version(Some(1)), Ok(()));
    assert_eq!(check_rpc_version(None), Ok(()));
}

#[test]
fn rpc_hello_with_mismatched_version_errors() {
    assert_eq!(check_rpc_version(Some(99)), Err(99));
    assert_eq!(pim_daemon::rpc::RPC_VERSION_MISMATCH, -32001);
}

#[test]
fn rpc_parameter_checks() {
    assert_eq!(gateway_enable_check(Platform::Other, true, "eth0"), Err(GatewayRequestError::NotSupported));
    assert_eq!(gateway_enable_check(Platform::Linux, false, "eth0"), Err(GatewayRequestError::ParamsRequired));
    assert_eq!(gateway_enable_check(Platform::MacOs, true, ""), Err(GatewayRequestError::NatInterfaceRequired));
    assert_eq!(gateway_enable_check(Platform::Linux, true, "eth0"), Ok(()));
    assert_eq!(history_limit(None), 100);
    assert_eq!(history_limit(Some(0)), 1);
    assert_eq!(history_limit(Some(10_000)), 500);
    assert!(peer_hex_length_ok(&"a".repeat(32)));
    assert!(!peer_hex_length_ok("abc"));
    assert_eq!(check_message_body(""), Err(BodyError::Empty));
    assert_eq!(check_message_body(&"x".repeat(8193)), Err(BodyError::TooLarge));
    assert_eq!(check_message_body("hi"), Ok(()));
    assert_eq!(normalize_friendly_name(Some("  alice \n")), Some("alice".to_string()));
    assert_eq!(normalize_friendly_name(Some("   ")), None);
    assert_eq!(normalize_friendly_name(None), None);
    assert_eq!(import_identity_reply(ImportOutcome::Inserted), Ok(true));
    assert_eq!(import_identity_reply(ImportOutcome::Refreshed), Ok(false));
    assert_eq!(
        import_identity_reply(ImportOutcome::KeyMismatch { existing_x25519_hex: "ab".to_string() }),
        Err("ab".to_string())
    );
}

#[test]
fn broadcast_settings_updates() {
    let mut s = BroadcastSettings { outgoing_interval_s: Some(300), watch_incoming: true, min_peer_interval_s: 60 };
    let before = s;
    let too_small = BroadcastUpdate { outgoing_interval_s: Some(Some(5)), watch_incoming: Some(false), min_peer_interval_s: None };
    assert_eq!(apply_broadcast_update(&mut s, too_small), Err(BroadcastUpdateError::IntervalTooSmall(5)));
    assert_eq!(s, before);
    let zero = BroadcastUpdate { outgoing_interval_s: None, watch_incoming: None, min_peer_interval_s: Some(0) };
    assert_eq!(apply_broadcast_update(&mut s, zero), Err(BroadcastUpdateError::ZeroPeerInterval));
    let ok = BroadcastUpdate { outgoing_interval_s: Some(None), watch_incoming: Some(false), min_peer_interval_s: Some(5) };
    assert_eq!(apply_broadcast_update(&mut s, ok), Ok(()));
    assert_eq!(s, BroadcastSettings { outgoing_interval_s: None, watch_incoming: false, min_peer_interval_s: 5 });
}

#[test]
fn runtime_paths_per_platform() {
    assert_eq!(runtime_dir(Platform::Other, Some("/x".to_string())), "/tmp");
    assert_eq!(debug_snapshot_path(Platform::Linux, None), "/run/pim-debug.json");
    assert_eq!(debug_snapshot_path(Platform::MacOs, Some("/var/T".to_string())), "/var/T/pim-debug.json");
    assert_eq!(default_pid_file(Platform::Linux, None), "/run/pim.pid");
    assert_eq!(default_pid_file(Platform::Other, None), "/tmp/pim.pid");
    assert_eq!(rpc_socket_path(Platform::Linux, Some("/tmp/test-pim.sock".to_string()), None, None), "/tmp/test-pim.sock");
    assert_eq!(rpc_socket_path(Platform::Linux, None, Some("/run/user/1000".to_string()), None), "/run/user/1000/pim.sock");
    assert_eq!(rpc_socket_path(Platform::Linux, None, None, None), "/run/pim/pim.sock");
    assert_eq!(rpc_socket_path(Platform::MacOs, None, None, Some("/var/T/".to_string())), "/var/T/pim.sock");
    assert_eq!(default_config_path(Platform::Linux, None), "/etc/pim/pim.toml");
    assert_eq!(
        default_config_path(Platform::MacOs, Some("/Users/a".to_string())),
        "/Users/a/Library/Application Support/pim/pim.toml"
    );
    assert_eq!(default_config_path(Platform::Other, None), "./pim.toml");
    assert!(gateway_supported_on_this_platform(Platform::MacOs));
    assert!(!gateway_supported_on_this_platform(Platform::Other));
    assert_eq!(
        tempfile_in_same_dir("/etc/pim", Some("pim.toml".to_string()), 42),
        Some("/etc/pim/.pim.toml.tmp.42".to_string())
    );
    assert_eq!(tempfile_in_same_dir("/etc/pim", None, 42), None);
}

#[test]
fn rpc_socket_path_honors_env_override() {
    assert_eq!(
        rpc_socket_path(Platform::Linux, Some("/tmp/test-pim.sock".to_string()), Some("/x".to_string()), None),
        "/tmp/test-pim.sock"
    );
}

#[test]
fn clock_readings() {
    assert_eq!(millis_of_reading(None), 0);
    assert_eq!(millis_of_reading(Some(EpochReading { secs: 2, subsec_nanos: 345_678_901 })), 2345);
    assert!(now_ms() > 1_600_000_000_000);
    assert!(unix_seconds_now() > 1_600_000_000);
}

#[test]
fn nat_candidates() {
    for name in ["eth0", "en0", "wlan0", "enp3s0"] {
        assert!(is_nat_candidate(&name.to_string()), "{name}");
    }
    for name in ["", "lo", "lo0", "ap1", "utun3", "pim0", "awdl0", "llw0", "anpi1", "br-abc", "bridge0", "docker0", "veth1", "vmnet8", "tun0", "tap0", "gif0", "stf0"] {
        assert!(!is_nat_candidate(&name.to_string()), "{name}");
    }
    assert!(output_shows_ipv4("en0: flags\n\tinet 192.168.1.4 netmask\n"));
    assert!(!output_shows_ipv4("en0: flags\n\tinet6 fe80::1\n"));
}
