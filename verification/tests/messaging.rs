use pim_daemon::messaging::{
    apply_failure, apply_read_mark, apply_status, body_within_limit, broadcast_sleep_secs,
    conversation_summary, forget_events, forget_outcome, hex16, hex32, hex_node_id, history_fetch_limit,
    history_page, import_announced, import_event_name, import_identity, local_send_record,
    peer_info_gate, preview_of, remote_receive_record, short_id, should_emit_peer_seen,
    unread_after_receive, upsert_peer_seen, x25519_from_row, AckKind, ForgetPeerOutcome, HistoryScope,
    ImportOutcome, MessageDirection, MessageEvent, MessageRecord, MessageStatus, PeerInfoGate,
    PeerInfoSource, PeerSeenRow,
};
use pim_daemon::node_id::NodeId;

fn node_a() -> NodeId {
    NodeId::from_bytes([0xa1; 16])
}

fn record(ts: i64, direction: MessageDirection, status: MessageStatus) -> MessageRecord {
    MessageRecord {
        id: "aaaa1111aaaa1111".to_string(),
        peer_node_id: hex_node_id(&node_a()),
        direction,
        body: "hi".to_string(),
        timestamp_ms: ts,
        status,
        failure_reason: None,
        delivered_at_ms: None,
        read_at_ms: None,
    }
}

#[test]
fn direction_and_status_text_round_trip() {
    for d in [MessageDirection::Sent, MessageDirection::Received] {
        assert_eq!(MessageDirection::from_str(d.as_str()), Ok(d));
    }
    for s in [
        MessageStatus::Pending,
        MessageStatus::Sent,
        MessageStatus::Delivered,
        MessageStatus::Read,
        MessageStatus::Failed,
    ] {
        assert_eq!(MessageStatus::from_str(s.as_str()), Ok(s));
    }
    assert_eq!(MessageStatus::Delivered.as_str(), "delivered");
    assert_eq!(MessageDirection::Received.as_str(), "received");
}

#[test]
fn unknown_direction_and_status_are_refused() {
    assert_eq!(MessageDirection::from_str("sideways"), Err("sideways".to_string()));
    assert_eq!(MessageStatus::from_str("SENT"), Err("SENT".to_string()));
}

#[test]
fn ack_kind_tags() {
    assert_eq!(AckKind::from_u8(1), Some(AckKind::Delivered));
    assert_eq!(AckKind::from_u8(2), Some(AckKind::Read));
    assert_eq!(AckKind::from_u8(0), None);
    assert_eq!(AckKind::from_u8(3), None);
    assert_eq!(AckKind::Delivered.to_u8(), 1);
    assert_eq!(AckKind::Read.to_u8(), 2);
}

#[test]
fn preview_truncates_and_flattens_newlines() {
    assert_eq!(preview_of("hello\nworld"), "hello world");
    let long: String = std::iter::repeat('é').take(100).collect();
    let p = preview_of(&long);
    assert_eq!(p.chars().count(), 80);
    assert_eq!(preview_of(""), "");
}

#[test]
fn short_id_keeps_eight_chars() {
    assert_eq!(short_id("0123456789abcdef"), "01234567");
    assert_eq!(short_id("abc"), "abc");
}

#[test]
fn hex_helpers_encode_lowercase() {
    assert_eq!(hex16(&[0xab; 16]), "ab".repeat(16));
    assert_eq!(hex32(&[0x0f, 0xa0]), "0fa0");
    assert_eq!(hex_node_id(&NodeId::from_bytes([1; 16])), "01".repeat(16));
}

#[test]
fn body_limit_is_8k() {
    assert!(body_within_limit(8192));
    assert!(!body_within_limit(8193));
}

#[test]
fn import_inserts_when_unknown() {
    let key = [0x11u8; 32];
    let (outcome, row) = import_identity(None, &key, Some("alice"), 100);
    assert_eq!(outcome, ImportOutcome::Inserted);
    let row = row.expect("row written");
    assert_eq!(row.x25519_pub, key.to_vec());
    assert_eq!(row.last_known_name, "alice");
    assert_eq!(row.first_seen_ms, 100);
    assert_eq!(row.last_seen_ms, 100);
}

#[test]
fn import_refreshes_when_same_key() {
    let key = [0x22u8; 32];
    let existing = PeerSeenRow {
        x25519_pub: key.to_vec(),
        last_known_name: "alice".to_string(),
        first_seen_ms: 100,
        last_seen_ms: 100,
    };
    let (outcome, row) = import_identity(Some(&existing), &key, Some("alice-renamed"), 200);
    assert_eq!(outcome, ImportOutcome::Refreshed);
    let row = row.expect("row written");
    assert_eq!(row.last_known_name, "alice-renamed");
    assert_eq!(row.first_seen_ms, 100);
    assert_eq!(row.last_seen_ms, 200);
}

#[test]
fn import_preserves_name_when_caller_passes_none() {
    let key = [0x33u8; 32];
    let existing = PeerSeenRow {
        x25519_pub: key.to_vec(),
        last_known_name: "alice".to_string(),
        first_seen_ms: 100,
        last_seen_ms: 100,
    };
    let (outcome, row) = import_identity(Some(&existing), &key, None, 200);
    assert_eq!(outcome, ImportOutcome::Refreshed);
    assert_eq!(row.expect("row").last_known_name, "alice");
    let (_, row2) = import_identity(Some(&existing), &key, Some(""), 300);
    assert_eq!(row2.expect("row").last_known_name, "alice");
}

#[test]
fn import_refuses_mismatched_key() {
    let key1 = [0x44u8; 32];
    let key2 = [0x55u8; 32];
    let existing = PeerSeenRow {
        x25519_pub: key1.to_vec(),
        last_known_name: "alice".to_string(),
        first_seen_ms: 100,
        last_seen_ms: 100,
    };
    let (outcome, row) = import_identity(Some(&existing), &key2, Some("alice"), 200);
    match outcome {
        ImportOutcome::KeyMismatch { existing_x25519_hex } => {
            assert_eq!(existing_x25519_hex, hex32(&key1));
        }
        other => panic!("expected KeyMismatch, got {other:?}"),
    }
    assert!(row.is_none(), "stored key must not be overwritten");
    assert!(!import_announced(&ImportOutcome::KeyMismatch { existing_x25519_hex: String::new() }));
    assert!(import_announced(&ImportOutcome::Inserted));
}

#[test]
fn upsert_reports_new_rows() {
    let key = [0x66u8; 32];
    let (inserted, row) = upsert_peer_seen(None, &key, "bob", 10);
    assert!(inserted);
    assert_eq!(row.first_seen_ms, 10);
    let (inserted2, row2) = upsert_peer_seen(Some(&row), &[0x67u8; 32], "bobby", 20);
    assert!(!inserted2);
    assert_eq!(row2.first_seen_ms, 10);
    assert_eq!(row2.last_seen_ms, 20);
    assert_eq!(row2.last_known_name, "bobby");
    assert_eq!(row2.x25519_pub, vec![0x67u8; 32]);
}

#[test]
fn x25519_rows_need_32_bytes() {
    assert_eq!(x25519_from_row(&[7u8; 32]), Some([7u8; 32]));
    assert_eq!(x25519_from_row(&[7u8; 31]), None);
}

#[test]
fn list_conversations_includes_x25519_when_cached() {
    let key = [0x88u8; 32];
    let peer_hex = hex_node_id(&node_a());
    let c = conversation_summary(peer_hex.clone(), Some("alice".to_string()), None, Some("hi".to_string()), Some(200), 1, Some(&key[..]));
    assert_eq!(c.x25519_pubkey.as_deref(), Some(hex32(&key).as_str()));
    assert_eq!(c.peer_node_id_short, "a1a1a1a1");
    assert_eq!(c.name, "alice");
    let anon = conversation_summary(peer_hex, None, None, None, None, 0, Some(&key[..3]));
    assert_eq!(anon.name, "a1a1a1a1");
    assert!(anon.x25519_pubkey.is_none());
}

#[test]
fn unread_counter_counts_received_messages() {
    assert_eq!(unread_after_receive(None), 1);
    assert_eq!(unread_after_receive(Some(4)), 5);
}

#[test]
fn records_for_sent_and_received_messages() {
    let id = [0xcd; 16];
    let sent = local_send_record(&node_a(), &id, "yo".to_string(), 5);
    assert_eq!(sent.status, MessageStatus::Pending);
    assert_eq!(sent.direction, MessageDirection::Sent);
    assert_eq!(sent.id, "cd".repeat(16));
    let got = remote_receive_record(&node_a(), &id, "yo".to_string(), 5, 9);
    assert_eq!(got.status, MessageStatus::Delivered);
    assert_eq!(got.delivered_at_ms, Some(9));
    assert_eq!(got.timestamp_ms, 5);
}

#[test]
fn delivery_time_is_only_filled_once() {
    let mut m = record(1, MessageDirection::Sent, MessageStatus::Sent);
    apply_status(&mut m, MessageStatus::Delivered, Some(10), None);
    assert_eq!(m.delivered_at_ms, Some(10));
    apply_status(&mut m, MessageStatus::Delivered, Some(20), None);
    assert_eq!(m.delivered_at_ms, Some(10));
    apply_status(&mut m, MessageStatus::Read, None, Some(30));
    assert_eq!(m.read_at_ms, Some(30));
    assert_eq!(m.status, MessageStatus::Read);
    apply_status(&mut m, MessageStatus::Read, Some(40), Some(41));
    assert_eq!((m.delivered_at_ms, m.read_at_ms), (Some(40), Some(41)));
}

#[test]
fn failure_keeps_reason() {
    let mut m = record(1, MessageDirection::Sent, MessageStatus::Pending);
    apply_failure(&mut m, "no_route".to_string(), 7);
    assert_eq!(m.status, MessageStatus::Failed);
    assert_eq!(m.failure_reason.as_deref(), Some("no_route"));
    assert_eq!(m.delivered_at_ms, Some(7));
}

#[test]
fn read_mark_touches_only_older_received_messages() {
    let mut older = record(100, MessageDirection::Received, MessageStatus::Delivered);
    let mut newer = record(300, MessageDirection::Received, MessageStatus::Delivered);
    let mut mine = record(100, MessageDirection::Sent, MessageStatus::Sent);
    assert!(apply_read_mark(&mut older, 200));
    assert!(!apply_read_mark(&mut newer, 200));
    assert!(!apply_read_mark(&mut mine, 200));
    assert_eq!(older.status, MessageStatus::Read);
    assert_eq!(older.read_at_ms, Some(200));
    assert!(!apply_read_mark(&mut older, 250), "marking twice changes nothing");
}

#[test]
fn history_pages_report_more() {
    assert_eq!(history_fetch_limit(100), 101);
    assert_eq!(history_fetch_limit(0), 2);
    assert_eq!(history_fetch_limit(i64::MAX), i64::MAX);
    let rows: Vec<MessageRecord> = (0..5).map(|i| record(i, MessageDirection::Received, MessageStatus::Delivered)).collect();
    let (page, more) = history_page(rows.clone(), 3);
    assert!(more);
    assert_eq!(page.len(), 3);
    let (page2, more2) = history_page(rows, 10);
    assert!(!more2);
    assert_eq!(page2.len(), 5);
}

#[test]
fn forget_peer_outcomes_and_events() {
    let o = forget_outcome(1, false, 5, 1);
    assert_eq!(o, ForgetPeerOutcome { forgot_identity: true, deleted_messages: 0, deleted_conversation: false });
    let o2 = forget_outcome(0, true, 2, 1);
    assert_eq!(o2, ForgetPeerOutcome { forgot_identity: false, deleted_messages: 2, deleted_conversation: true });
    let ev = forget_events("abcd", true, &ForgetPeerOutcome { forgot_identity: true, deleted_messages: 2, deleted_conversation: true });
    assert_eq!(ev.len(), 2);
    match &ev[0] {
        MessageEvent::PeerSeen { peer_node_id, name, x25519_known, via } => {
            assert_eq!(peer_node_id, "abcd");
            assert!(name.is_empty());
            assert!(!x25519_known);
            assert_eq!(*via, PeerInfoSource::Direct);
        }
        other => panic!("unexpected {other:?}"),
    }
    match &ev[1] {
        MessageEvent::HistoryCleared { peer_node_id, scope, deleted_messages } => {
            assert_eq!(peer_node_id.as_deref(), Some("abcd"));
            assert_eq!(*scope, HistoryScope::Peer);
            assert_eq!(*deleted_messages, 2);
        }
        other => panic!("unexpected {other:?}"),
    }
    assert!(forget_events("abcd", false, &o).len() == 1);
}

#[test]
fn routed_identities_are_rate_limited() {
    let s = 1_000_000_000u64;
    assert_eq!(peer_info_gate(PeerInfoSource::Direct, 60, Some(0), 1), PeerInfoGate::Accept { record: false });
    assert_eq!(peer_info_gate(PeerInfoSource::Routed, 0, Some(0), 1), PeerInfoGate::Accept { record: false });
    assert_eq!(peer_info_gate(PeerInfoSource::Routed, 60, None, 1), PeerInfoGate::Accept { record: true });
    assert_eq!(peer_info_gate(PeerInfoSource::Routed, 60, Some(0), 59 * s), PeerInfoGate::Drop);
    assert_eq!(peer_info_gate(PeerInfoSource::Routed, 60, Some(0), 60 * s), PeerInfoGate::Accept { record: true });
    assert!(should_emit_peer_seen(PeerInfoSource::Direct, false));
    assert!(!should_emit_peer_seen(PeerInfoSource::Routed, false));
    assert!(should_emit_peer_seen(PeerInfoSource::Routed, true));
}

#[test]
fn broadcast_schedule_and_import_names() {
    assert_eq!(broadcast_sleep_secs(None), 30);
    assert_eq!(broadcast_sleep_secs(Some(0)), 1);
    assert_eq!(broadcast_sleep_secs(Some(120)), 120);
    assert_eq!(import_event_name(Some("x".to_string()), Some("y".to_string())), "x");
    assert_eq!(import_event_name(Some(String::new()), Some("y".to_string())), "y");
    assert_eq!(import_event_name(None, None), "");
}
