use pim_daemon::auth::{
    parse_discovery_shared_key, parse_x25519_hex, AuthorizationDecision, AuthorizationManager,
    AuthorizationPolicy, AuthorizationStep, HexKeyError, TrustStoreError,
};
use pim_daemon::discovery::{discovery_verdict, node_capabilities, DiscoveryVerdict, NodeCapabilities};
use pim_daemon::node_id::NodeId;

fn n(b: u8) -> NodeId {
    NodeId::from_bytes([b; 16])
}

#[test]
fn authorization_allow_list_rejects_unlisted_peer() {
    let mut m = AuthorizationManager::new(AuthorizationPolicy::AllowList, &vec![n(1)], &vec![]);
    assert!(m.authorize_discovered_peer(n(1)));
    assert!(!m.authorize_discovered_peer(n(2)));
    assert_eq!(m.authorize_authenticated_peer(n(1)), AuthorizationStep::Decided(AuthorizationDecision::Allowed));
    assert_eq!(m.authorize_authenticated_peer(n(2)), AuthorizationStep::Decided(AuthorizationDecision::Rejected));
}

#[test]
fn authorization_allow_all_admits_everyone() {
    let mut m = AuthorizationManager::new(AuthorizationPolicy::AllowAll, &vec![], &vec![n(9)]);
    assert!(m.authorize_discovered_peer(n(3)));
    assert_eq!(m.authorize_authenticated_peer(n(3)), AuthorizationStep::Decided(AuthorizationDecision::Allowed));
    assert!(m.trust_store_order().is_empty(), "trust store unused outside TOFU");
}

#[test]
fn authorization_tofu_persists_new_peer() {
    let mut m = AuthorizationManager::new(AuthorizationPolicy::TrustOnFirstUse, &vec![], &vec![]);
    assert_eq!(m.authorize_authenticated_peer(n(4)), AuthorizationStep::Persist);
    assert_eq!(m.trust_store_order(), vec![n(4)]);
    assert_eq!(m.finish_trust(n(4), true), Ok(AuthorizationDecision::TrustedOnFirstUse));
    assert_eq!(m.authorize_authenticated_peer(n(4)), AuthorizationStep::Decided(AuthorizationDecision::Allowed));
}

#[test]
fn authorization_tofu_failed_persist_forgets_peer() {
    let mut m = AuthorizationManager::new(AuthorizationPolicy::TrustOnFirstUse, &vec![], &vec![n(7)]);
    assert_eq!(m.authorize_authenticated_peer(n(5)), AuthorizationStep::Persist);
    assert_eq!(m.finish_trust(n(5), false), Err(TrustStoreError));
    assert_eq!(m.trust_store_order(), vec![n(7)]);
    assert_eq!(m.authorize_authenticated_peer(n(5)), AuthorizationStep::Persist);
}

#[test]
fn trust_store_is_listed_in_hex_order() {
    let m = AuthorizationManager::new(
        AuthorizationPolicy::TrustOnFirstUse,
        &vec![],
        &vec![n(0xb0), n(0x0a), n(0xb0), n(0x31)],
    );
    let order = m.trust_store_order();
    assert_eq!(order, vec![n(0x0a), n(0x31), n(0xb0)]);
    let hex: Vec<String> = order.iter().map(|p| p.to_hex()).collect();
    let mut sorted = hex.clone();
    sorted.sort();
    assert_eq!(hex, sorted);
}

#[test]
fn shared_key_parsing() {
    let ok = "00".repeat(31) + "ff";
    let mut expected = [0u8; 32];
    expected[31] = 0xff;
    assert_eq!(parse_discovery_shared_key(&ok), Ok(expected));
    assert_eq!(parse_discovery_shared_key("abcd"), Err(HexKeyError::WrongLength));
    let bad = "zz".to_string() + &"00".repeat(31);
    assert_eq!(parse_discovery_shared_key(&bad), Err(HexKeyError::InvalidByte { index: 0 }));
    let letter = "00".to_string() + "é0" + &"00".repeat(29) + "0";
    assert_eq!(letter.len(), 64);
    assert_eq!(parse_x25519_hex(&letter), Err(HexKeyError::InvalidByte { index: 1 }));
    let split = "0".to_string() + "é" + &"0".repeat(61);
    assert_eq!(split.len(), 64);
    assert_eq!(parse_x25519_hex(&split), Err(HexKeyError::InvalidUtf8 { index: 0 }));
    assert_eq!(parse_x25519_hex(&"AB".repeat(32)), Ok([0xab; 32]));
    assert_eq!(parse_x25519_hex(&"+f".repeat(32)), Err(HexKeyError::InvalidByte { index: 0 }));
    assert_eq!(parse_discovery_shared_key(&"-1".repeat(32)), Err(HexKeyError::InvalidByte { index: 0 }));
}

#[test]
fn gateway_config_yields_gateway_caps() {
    let caps = node_capabilities(true, false);
    assert!(caps.is_gateway(), "gateway flag expected");
    assert!(caps.is_relay(), "relay flag expected on gateway");
    assert!(caps.is_client(), "client flag expected on gateway");
}

#[test]
fn relay_config_yields_relay_caps() {
    let caps = node_capabilities(false, true);
    assert!(caps.is_relay(), "relay flag expected");
    assert!(caps.is_client(), "client flag expected on relay");
    assert!(!caps.is_gateway(), "gateway flag must NOT be set on relay");
}

#[test]
fn client_config_yields_client_caps_only() {
    let caps = node_capabilities(false, false);
    assert!(caps.is_client(), "client flag expected");
    assert!(!caps.is_relay(), "relay flag must NOT be set on client");
    assert!(!caps.is_gateway(), "gateway flag must NOT be set on client");
}

#[test]
fn gateway_caps_bits_are_correct() {
    let caps = node_capabilities(true, false);
    assert_eq!(caps.bits(), 0x07, "gateway caps must be CLIENT|RELAY|GATEWAY = 0x07");
}

#[test]
fn discovery_verdicts_in_order() {
    let me = n(1);
    let relay = NodeCapabilities::relay();
    let gateway = NodeCapabilities::gateway();
    assert_eq!(discovery_verdict(&me, &me, true, false, gateway, true, true), DiscoveryVerdict::IgnoreSelf);
    assert_eq!(discovery_verdict(&me, &n(2), false, false, gateway, true, true), DiscoveryVerdict::Unauthorized);
    assert_eq!(discovery_verdict(&me, &n(2), true, true, gateway, true, true), DiscoveryVerdict::AlreadyConnected);
    assert_eq!(discovery_verdict(&me, &n(2), true, false, NodeCapabilities::client(), true, true), DiscoveryVerdict::ClientOnly);
    assert_eq!(discovery_verdict(&me, &n(2), true, false, gateway, false, true), DiscoveryVerdict::GatewaysOff);
    assert_eq!(discovery_verdict(&me, &n(2), true, false, relay, true, false), DiscoveryVerdict::RelaysOff);
    assert_eq!(discovery_verdict(&me, &n(2), true, false, gateway, true, false), DiscoveryVerdict::Connect);
    assert_eq!(discovery_verdict(&me, &n(2), true, false, relay, false, true), DiscoveryVerdict::Connect);
}
