use pim_daemon::frame::{FrameType, TransportFrame};
use pim_daemon::node_id::NodeId;
use pim_daemon::reputation::{ReputationTracker, BLACKLIST_THRESHOLD};
use pim_daemon::send_buffer::{should_buffer_under_congestion, PeerBuffer, Priority, SendBuffer};

const SECOND: u64 = 1_000_000_000;
const MILLI: u64 = 1_000_000;

fn node(b: u8) -> NodeId {
    NodeId::from_bytes([b; 16])
}

fn mk_frame(ft: FrameType) -> TransportFrame {
    TransportFrame::plain(ft, Vec::new())
}

fn ctrl() -> TransportFrame {
    mk_frame(FrameType::Control)
}

fn route() -> TransportFrame {
    mk_frame(FrameType::RouteUpdate)
}

fn data() -> TransportFrame {
    mk_frame(FrameType::Data)
}

#[test]
fn priority_classified_by_frame_type() {
    assert_eq!(Priority::of(FrameType::Control), Priority::Control);
    assert_eq!(Priority::of(FrameType::Handshake), Priority::Control);
    assert_eq!(Priority::of(FrameType::RouteUpdate), Priority::Route);
    assert_eq!(Priority::of(FrameType::Data), Priority::Data);
    assert_eq!(Priority::of(FrameType::Heartbeat), Priority::Data);
}

#[test]
fn peer_buffer_drain_returns_highest_priority_first() {
    let mut buf = PeerBuffer::new(16, 60 * SECOND);
    buf.push(Priority::Data, data(), 0);
    buf.push(Priority::Route, route(), 0);
    buf.push(Priority::Control, ctrl(), 0);
    let frames = buf.drain(0);
    assert_eq!(frames.len(), 3);
    assert_eq!(frames[0].frame_type, FrameType::Control);
    assert_eq!(frames[1].frame_type, FrameType::RouteUpdate);
    assert_eq!(frames[2].frame_type, FrameType::Data);
}

#[test]
fn peer_buffer_same_priority_is_fifo() {
    let mut buf = PeerBuffer::new(16, 60 * SECOND);
    let f1 = TransportFrame::plain(FrameType::Data, vec![1]);
    let f2 = TransportFrame::plain(FrameType::Data, vec![2]);
    buf.push(Priority::Data, f1, 0);
    buf.push(Priority::Data, f2, 0);
    let frames = buf.drain(0);
    assert_eq!(frames[0].payload, vec![1]);
    assert_eq!(frames[1].payload, vec![2]);
}

#[test]
fn peer_buffer_overflow_drops_incoming_lower_priority() {
    let mut buf = PeerBuffer::new(2, 60 * SECOND);
    buf.push(Priority::Control, ctrl(), 0);
    buf.push(Priority::Route, route(), 0);
    buf.push(Priority::Data, data(), 0);
    assert_eq!(buf.len(), 2, "buffer should stay at capacity");
    let frames = buf.drain(0);
    assert!(frames.iter().all(|f| f.frame_type != FrameType::Data));
}

#[test]
fn peer_buffer_overflow_evicts_worst_for_higher_priority_incoming() {
    let mut buf = PeerBuffer::new(2, 60 * SECOND);
    buf.push(Priority::Route, route(), 0);
    buf.push(Priority::Data, data(), 0);
    buf.push(Priority::Control, ctrl(), 0);
    assert_eq!(buf.len(), 2);
    let frames = buf.drain(0);
    assert!(frames.iter().any(|f| f.frame_type == FrameType::Control));
    assert!(frames.iter().any(|f| f.frame_type == FrameType::RouteUpdate));
    assert!(!frames.iter().any(|f| f.frame_type == FrameType::Data));
}

#[test]
fn peer_buffer_expire_removes_stale_frames() {
    let mut buf = PeerBuffer::new(16, MILLI);
    buf.push(Priority::Data, data(), 0);
    let removed = buf.expire(10 * MILLI);
    assert_eq!(removed, 1);
    assert!(buf.is_empty());
}

#[test]
fn peer_buffer_drain_filters_expired() {
    let mut buf = PeerBuffer::new(16, MILLI);
    buf.push(Priority::Control, ctrl(), 0);
    let frames = buf.drain(10 * MILLI);
    assert!(frames.is_empty(), "expired frame must not be delivered");
}

#[test]
fn send_buffer_push_and_drain_priority_order() {
    let mut sb = SendBuffer::new(16, 60 * SECOND);
    let peer = node(1);
    sb.push(peer, Priority::Data, data(), 0);
    sb.push(peer, Priority::Control, ctrl(), 0);
    sb.push(peer, Priority::Route, route(), 0);
    let frames = sb.drain(&peer, 0);
    assert_eq!(frames.len(), 3);
    assert_eq!(frames[0].frame_type, FrameType::Control);
    assert_eq!(frames[1].frame_type, FrameType::RouteUpdate);
    assert_eq!(frames[2].frame_type, FrameType::Data);
}

#[test]
fn send_buffer_drain_removes_peer_entry() {
    let mut sb = SendBuffer::new(16, 60 * SECOND);
    let peer = node(1);
    sb.push(peer, Priority::Data, data(), 0);
    sb.drain(&peer, 0);
    assert_eq!(sb.peer_count(), 0, "peer entry should be removed after drain");
}

#[test]
fn send_buffer_drain_unknown_peer_returns_empty() {
    let mut sb = SendBuffer::new(16, 60 * SECOND);
    let frames = sb.drain(&node(99), 0);
    assert!(frames.is_empty());
}

#[test]
fn send_buffer_expire_all_clears_stale() {
    let mut sb = SendBuffer::new(16, MILLI);
    sb.push(node(1), Priority::Data, data(), 0);
    sb.push(node(2), Priority::Control, ctrl(), 0);
    let removed = sb.expire_all(10 * MILLI);
    assert_eq!(removed, 2);
    assert_eq!(sb.peer_count(), 0);
}

#[test]
fn send_buffer_multiple_peers_independent() {
    let mut sb = SendBuffer::new(16, 60 * SECOND);
    sb.push(node(1), Priority::Data, data(), 0);
    sb.push(node(2), Priority::Control, ctrl(), 0);
    assert_eq!(sb.frame_count(&node(1)), 1);
    assert_eq!(sb.frame_count(&node(2)), 1);
    sb.drain(&node(1), 0);
    assert_eq!(sb.frame_count(&node(1)), 0);
    assert_eq!(sb.frame_count(&node(2)), 1);
}

#[test]
fn send_buffer_respects_capacity_per_peer() {
    let mut sb = SendBuffer::new(2, 60 * SECOND);
    let peer = node(1);
    sb.push(peer, Priority::Control, ctrl(), 0);
    sb.push(peer, Priority::Route, route(), 0);
    sb.push(peer, Priority::Data, data(), 0);
    assert_eq!(sb.frame_count(&peer), 2);
}

#[test]
fn should_buffer_under_congestion_control_frames() {
    assert!(should_buffer_under_congestion(FrameType::Control));
}

#[test]
fn should_buffer_under_congestion_route_frames() {
    assert!(should_buffer_under_congestion(FrameType::RouteUpdate));
}

#[test]
fn should_buffer_under_congestion_handshake_frames() {
    assert!(should_buffer_under_congestion(FrameType::Handshake));
}

#[test]
fn should_drop_data_frames_under_congestion() {
    assert!(!should_buffer_under_congestion(FrameType::Data));
}

#[test]
fn should_drop_heartbeat_frames_under_congestion() {
    assert!(!should_buffer_under_congestion(FrameType::Heartbeat));
}

#[test]
fn congestion_drop_policy_is_priority_based() {
    let high_priority = [FrameType::Control, FrameType::Handshake, FrameType::RouteUpdate];
    let low_priority = [FrameType::Data, FrameType::Heartbeat];
    for ft in high_priority {
        assert!(should_buffer_under_congestion(ft), "{ft:?} should be buffered");
    }
    for ft in low_priority {
        assert!(!should_buffer_under_congestion(ft), "{ft:?} should be dropped");
    }
}

#[test]
fn frames_pushed_after_drain_start_a_fresh_queue() {
    let mut buf = PeerBuffer::new(4, 60 * SECOND);
    buf.push(Priority::Data, data(), 0);
    assert_eq!(buf.drain(0).len(), 1);
    assert!(buf.is_empty());
    buf.push(Priority::Route, route(), 5);
    let frames = buf.drain(5);
    assert_eq!(frames.len(), 1);
    assert_eq!(frames[0].frame_type, FrameType::RouteUpdate);
}

fn peer(b: u8) -> NodeId {
    NodeId::from_bytes([b; 16])
}

#[test]
fn reputation_failure_accumulation_reaches_threshold() {
    let mut rt = ReputationTracker::new();
    let p = peer(1);
    for i in 1..BLACKLIST_THRESHOLD {
        assert!(!rt.record_failure(p), "failure {i} should not newly blacklist");
    }
    assert!(rt.record_failure(p), "final failure should newly blacklist");
}

#[test]
fn reputation_blacklist_threshold_detected() {
    let mut rt = ReputationTracker::new();
    let p = peer(2);
    for _ in 0..BLACKLIST_THRESHOLD {
        rt.record_failure(p);
    }
    assert!(rt.is_blacklisted(&p));
}

#[test]
fn reputation_success_decrements_score() {
    let mut rt = ReputationTracker::new();
    let p = peer(3);
    for _ in 0..5 {
        rt.record_failure(p);
    }
    rt.record_success(p);
    assert!(!rt.is_blacklisted(&p));
    for _ in 0..(BLACKLIST_THRESHOLD - 4 - 1) {
        rt.record_failure(p);
    }
    assert!(!rt.is_blacklisted(&p));
}

#[test]
fn reputation_success_floor_is_zero() {
    let mut rt = ReputationTracker::new();
    let p = peer(4);
    rt.record_success(p);
    rt.record_success(p);
    assert!(!rt.is_blacklisted(&p));
}

#[test]
fn reputation_pardon_resets_score() {
    let mut rt = ReputationTracker::new();
    let p = peer(5);
    for _ in 0..BLACKLIST_THRESHOLD {
        rt.record_failure(p);
    }
    assert!(rt.is_blacklisted(&p));
    rt.pardon(&p);
    assert!(!rt.is_blacklisted(&p));
}

#[test]
fn basics_failure_accumulation_reaches_threshold() {
    let mut rt = ReputationTracker::new();
    let p = peer(1);
    for i in 1..BLACKLIST_THRESHOLD {
        assert!(!rt.record_failure(p), "failure {i} should not newly blacklist");
    }
    assert!(rt.record_failure(p), "final failure should newly blacklist");
}

#[test]
fn basics_blacklist_threshold_detected() {
    let mut rt = ReputationTracker::new();
    let p = peer(2);
    for _ in 0..BLACKLIST_THRESHOLD {
        rt.record_failure(p);
    }
    assert!(rt.is_blacklisted(&p));
}

#[test]
fn basics_success_decrements_score() {
    let mut rt = ReputationTracker::new();
    let p = peer(3);
    for _ in 0..5 {
        rt.record_failure(p);
    }
    rt.record_success(p);
    assert!(!rt.is_blacklisted(&p));
    for _ in 0..(BLACKLIST_THRESHOLD - 4 - 1) {
        rt.record_failure(p);
    }
    assert!(!rt.is_blacklisted(&p));
}

#[test]
fn basics_success_floor_is_zero() {
    let mut rt = ReputationTracker::new();
    let p = peer(4);
    rt.record_success(p);
    rt.record_success(p);
    assert!(!rt.is_blacklisted(&p));
}

#[test]
fn basics_pardon_resets_score() {
    let mut rt = ReputationTracker::new();
    let p = peer(5);
    for _ in 0..BLACKLIST_THRESHOLD {
        rt.record_failure(p);
    }
    assert!(rt.is_blacklisted(&p));
    rt.pardon(&p);
    assert!(!rt.is_blacklisted(&p));
}

#[test]
fn reputation_peers_are_independent() {
    let mut rt = ReputationTracker::new();
    for _ in 0..BLACKLIST_THRESHOLD {
        rt.record_failure(peer(6));
    }
    assert!(rt.is_blacklisted(&peer(6)));
    assert!(!rt.is_blacklisted(&peer(7)));
}
