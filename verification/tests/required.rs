use pim_daemon::calendar::{days_to_ymd, system_time_to_iso8601};
use pim_daemon::cleanup::{build_cleanup_config, parse_connected, MIN_INTERVAL_S, MIN_LIFETIME_S};
use pim_daemon::discovery::NodeCapabilities;
use pim_daemon::node_id::NodeId;
use pim_daemon::reconnect::backoff_base_ms;
use pim_daemon::runtime::{stats_path, Platform, SubscriptionIds};
use pim_daemon::send_buffer::Priority;
use pim_daemon::stats::{format_stats, forwarding_load, StatsSnapshot};

#[test]
fn backoff_base_grows_exponentially() {
    assert_eq!(backoff_base_ms(0), 1_000);
    assert_eq!(backoff_base_ms(1), 2_000);
    assert_eq!(backoff_base_ms(2), 4_000);
    assert_eq!(backoff_base_ms(3), 8_000);
    assert_eq!(backoff_base_ms(4), 10_000);
}

#[test]
fn backoff_base_capped_at_30s() {
    assert_eq!(backoff_base_ms(4), 10_000);
    assert_eq!(backoff_base_ms(10), 10_000);
    assert_eq!(backoff_base_ms(100), 10_000);
}

#[test]
fn client_only_peer_is_skipped() {
    let caps = NodeCapabilities::client();
    assert!(
        !caps.is_relay() && !caps.is_gateway(),
        "consumer must filter out client-only peers"
    );
}

#[test]
fn relay_and_gateway_caps_pass_filter() {
    let relay = NodeCapabilities::relay();
    let gateway = NodeCapabilities::gateway();
    assert!(relay.is_relay() || relay.is_gateway(), "relay caps must pass filter");
    assert!(gateway.is_relay() || gateway.is_gateway(), "gateway caps must pass filter");
}

#[test]
fn self_advertisement_is_ignored() {
    let own_id = NodeId::from_bytes([42; 16]);
    let record_id = NodeId::from_bytes([42; 16]);
    assert_eq!(record_id, own_id, "own NodeId must be caught by self-check in consumer");
}

#[test]
fn load_normalized_zero_when_no_packets() {
    let delta: u64 = 0;
    assert_eq!(forwarding_load(delta), 0);
}

#[test]
fn load_normalized_255_at_saturation() {
    let delta: u64 = 2000;
    assert_eq!(forwarding_load(delta), 255);
}

#[test]
fn load_normalized_midpoint() {
    let delta: u64 = 1000;
    assert_eq!(forwarding_load(delta), 127);
}

#[test]
fn test_format_stats_output_format() {
    let stats = StatsSnapshot {
        peers: 1,
        routes: 2,
        packets_forwarded: 3,
        bytes_forwarded: 4,
        packets_dropped: 5,
        congestion_drops: 6,
        conntrack_size: 7,
        uptime_secs: 8,
    };
    let expected = "peers=1\n\
                    routes=2\n\
                    packets_forwarded=3\n\
                    bytes_forwarded=4\n\
                    packets_dropped=5\n\
                    congestion_drops=6\n\
                    conntrack_size=7\n\
                    uptime_secs=8\n";
    assert_eq!(format_stats(&stats), expected);
}

#[test]
fn test_format_stats_zero_values() {
    let stats = StatsSnapshot {
        peers: 0,
        routes: 0,
        packets_forwarded: 0,
        bytes_forwarded: 0,
        packets_dropped: 0,
        congestion_drops: 0,
        conntrack_size: 0,
        uptime_secs: 0,
    };
    let expected = "peers=0\n\
                    routes=0\n\
                    packets_forwarded=0\n\
                    bytes_forwarded=0\n\
                    packets_dropped=0\n\
                    congestion_drops=0\n\
                    conntrack_size=0\n\
                    uptime_secs=0\n";
    assert_eq!(format_stats(&stats), expected);
}

#[test]
fn format_stats_contains_all_keys() {
    let s = format_stats(&StatsSnapshot {
        peers: 3,
        routes: 5,
        packets_forwarded: 100,
        bytes_forwarded: 51200,
        packets_dropped: 7,
        congestion_drops: 2,
        conntrack_size: 4,
        uptime_secs: 3600,
    });
    assert!(s.contains("peers=3"));
    assert!(s.contains("routes=5"));
    assert!(s.contains("packets_forwarded=100"));
    assert!(s.contains("bytes_forwarded=51200"));
    assert!(s.contains("packets_dropped=7"));
    assert!(s.contains("congestion_drops=2"));
    assert!(s.contains("conntrack_size=4"));
    assert!(s.contains("uptime_secs=3600"));
}

#[test]
fn iso_round_trips_known_epoch() {
    assert_eq!(system_time_to_iso8601(1_700_000_000), "2023-11-14T22:13:20Z");
}

#[test]
fn rfcomm_parse_connected_yes() {
    assert!(parse_connected("\tConnected: yes\n\tPaired: yes\n"));
}

#[test]
fn rfcomm_parse_connected_no() {
    assert!(!parse_connected("\tConnected: no\n\tPaired: yes\n"));
}

#[test]
fn parse_connected_missing_line_is_false() {
    assert!(!parse_connected("Device 00:15:83:3D:0A:57 not available\n"));
}

#[test]
fn build_cleanup_config_clamps_too_short_lifetime() {
    let cfg = build_cleanup_config("/bin/true".to_string(), 60, 600);
    assert_eq!(cfg.max_unreachable_lifetime_s, MIN_LIFETIME_S);
    assert_eq!(cfg.interval_s, 600);
}

#[test]
fn build_cleanup_config_clamps_too_short_interval() {
    let cfg = build_cleanup_config("/bin/true".to_string(), 7200, 5);
    assert_eq!(cfg.max_unreachable_lifetime_s, 7200);
    assert_eq!(cfg.interval_s, MIN_INTERVAL_S);
}

#[test]
fn build_cleanup_config_passes_through_when_above_floors() {
    let cfg = build_cleanup_config("/bin/true".to_string(), 86_400, 600);
    assert_eq!(cfg.max_unreachable_lifetime_s, 86_400);
    assert_eq!(cfg.interval_s, 600);
}

#[test]
fn rfcomm_cleanup_parse_connected_yes() {
    let stdout = "\
Device 00:15:83:3D:0A:57 (public)
\tName: PIM-foo
\tConnected: yes
\tPaired: yes
";
    assert!(parse_connected(stdout));
}

#[test]
fn rfcomm_cleanup_parse_connected_no() {
    let stdout = "\
Device 00:15:83:3D:0A:57 (public)
\tName: PIM-foo
\tConnected: no
\tPaired: yes
";
    assert!(!parse_connected(stdout));
}

#[test]
fn parse_connected_missing() {
    let stdout = "Device 00:15:83:3D:0A:57 not available\n";
    assert!(!parse_connected(stdout));
}

#[test]
fn iso8601_format_basic_round() {
    let s = system_time_to_iso8601(1_700_000_000);
    assert_eq!(s, "2023-11-14T22:13:20Z");
}

#[test]
fn days_to_ymd_known_pairs() {
    assert_eq!(days_to_ymd(0), (1970, 1, 1));
    assert_eq!(days_to_ymd(1), (1970, 1, 2));
    assert_eq!(days_to_ymd(10_957), (2000, 1, 1));
}

#[test]
fn new_subscription_id_is_unique() {
    let mut ids = SubscriptionIds::new();
    let a = ids.new_subscription_id();
    let b = ids.new_subscription_id();
    assert_ne!(a, b);
    assert!(a.starts_with("rpc-sub-"));
}

#[test]
fn stats_path_keeps_legacy_linux_location() {
    assert_eq!(stats_path(Platform::Linux, None), "/run/pim.stats");
}

#[test]
fn stats_path_uses_tmpdir_on_macos() {
    let p = stats_path(Platform::MacOs, Some("/var/folders/xy/T/".to_string()));
    assert!(p.ends_with("/pim.stats"), "expected pim.stats suffix, got {p:?}");
    let q = stats_path(Platform::MacOs, None);
    assert!(q.ends_with("/pim.stats"), "expected pim.stats suffix, got {q:?}");
}

#[test]
fn priority_ordering_correct() {
    assert!(Priority::Control < Priority::Route);
    assert!(Priority::Route < Priority::Data);
    assert!(Priority::Control < Priority::Data);
}
