//! Data-plane decisions of the event loop: where a packet from the TUN
//! device goes, what happens to mesh traffic addressed here or relayed,
//! how send failures are handled, and which peers have gone silent.
use vstd::prelude::*;

use crate::frame::FrameType;
use crate::node_id::NodeId;
use crate::send_buffer::{priority_of, should_buffer_under_congestion, Priority};

verus! {

/// A known path through the mesh: the final destination and the direct
/// peer to hand the packet to.
#[derive(Debug, Clone, Copy, PartialEq, Eq)]
pub struct MeshPath {
    pub destination: NodeId,
    pub next_hop: NodeId,
}

/// Where a packet read from the TUN device goes.
#[derive(Debug, Clone, Copy, PartialEq, Eq)]
pub enum TunRoute {
    /// Send it along `path`; `internet` marks traffic for a gateway's
    /// uplink.
    Send { path: MeshPath, internet: bool },
    /// Drop it.
    Drop,
}

/// Routing of a TUN packet.  IPv4 packets for a mesh address follow the
/// mesh route; other IPv4 and all IPv6 packets go to the nearest gateway,
/// or else to the first connected peer, marked as internet traffic.
/// Packets too short, addressed to this node, of another version, or with
/// nowhere to go are dropped.
pub open spec fn tun_route(
    packet: Seq<u8>,
    own_ipv4: Seq<u8>,
    mesh_route: Option<MeshPath>,
    gateway_route: Option<MeshPath>,
    first_peer: Option<NodeId>,
) -> TunRoute {
    let fallback = match gateway_route {
        Some(p) => TunRoute::Send { path: p, internet: true },
        None => match first_peer {
            Some(n) => TunRoute::Send {
                path: MeshPath { destination: n, next_hop: n },
                internet: true,
            },
            None => TunRoute::Drop,
        },
    };
    if packet.len() == 0 {
        TunRoute::Drop
    } else if packet[0] / 16 == 4 {
        if packet.len() < 20 || packet.subrange(16, 20) == own_ipv4 {
            TunRoute::Drop
        } else {
            match mesh_route {
                Some(p) => TunRoute::Send { path: p, internet: false },
                None => fallback,
            }
        }
    } else if packet[0] / 16 == 6 {
        fallback
    } else {
        TunRoute::Drop
    }
}

/// Routing of a packet read from the TUN device, given the routing
/// table's answers for it: the mesh route of its IPv4 destination, the
/// nearest gateway, and the first connected peer.
pub fn route_tun_packet(
    packet: &[u8],
    own_ipv4: [u8; 4],
    mesh_route: Option<MeshPath>,
    gateway_route: Option<MeshPath>,
    first_peer: Option<NodeId>,
) -> (r: TunRoute)
    ensures
        r == tun_route(packet@, own_ipv4@, mesh_route, gateway_route, first_peer),
{
    let fallback = match gateway_route {
        Some(p) => TunRoute::Send { path: p, internet: true },
        None => match first_peer {
            Some(n) => TunRoute::Send {
                path: MeshPath { destination: n, next_hop: n },
                internet: true,
            },
            None => TunRoute::Drop,
        },
    };
    if packet.len() == 0 {
        return TunRoute::Drop;
    }
    let version = packet[0] / 16;
    if version == 4 {
        if packet.len() < 20 {
            return TunRoute::Drop;
        }
        let mine = packet[16] == own_ipv4[0] && packet[17] == own_ipv4[1] && packet[18]
            == own_ipv4[2] && packet[19] == own_ipv4[3];
        proof {
            if mine {
                assert(packet@.subrange(16, 20) =~= own_ipv4@);
            } else {
                assert(packet@.subrange(16, 20) != own_ipv4@) by {
                    if packet@.subrange(16, 20) == own_ipv4@ {
                        assert(packet@.subrange(16, 20)[0] == packet@[16]);
                        assert(packet@.subrange(16, 20)[1] == packet@[17]);
                        assert(packet@.subrange(16, 20)[2] == packet@[18]);
                        assert(packet@.subrange(16, 20)[3] == packet@[19]);
                    }
                }
            }
        }
        if mine {
            return TunRoute::Drop;
        }
        match mesh_route {
            Some(p) => TunRoute::Send { path: p, internet: false },
            None => fallback,
        }
    } else if version == 6 {
        fallback
    } else {
        TunRoute::Drop
    }
}

/// Where TUN packets go, stated over the packet's first byte and length:
/// an IPv6 packet (first byte `0x6_`) goes to the nearest gateway when
/// one is known, else to the first connected peer `n` (destination and
/// next hop `n`), always as internet traffic; an IPv4 packet (first byte
/// `0x4_`) of at least 20 bytes not addressed here follows its mesh route
/// when there is one, as mesh traffic, and otherwise goes like an IPv6
/// packet.  A packet is dropped exactly when it is empty, a short or
/// self-addressed IPv4 packet, neither IPv4 nor IPv6, or has nowhere to
/// go: no mesh route (for IPv4), no gateway and no connected peer.
pub proof fn lemma_tun_route_destinations(
    packet: Seq<u8>,
    own_ipv4: Seq<u8>,
    mesh_route: Option<MeshPath>,
    gateway_route: Option<MeshPath>,
    first_peer: Option<NodeId>,
)
    ensures
        ({
            let r = tun_route(packet, own_ipv4, mesh_route, gateway_route, first_peer);
            let v4 = packet.len() > 0 && 0x40 <= packet[0] < 0x50;
            let v6 = packet.len() > 0 && 0x60 <= packet[0] < 0x70;
            let local_v4 = v4 && (packet.len() < 20 || packet.subrange(16, 20) == own_ipv4);
            &&& (v6 || (v4 && !local_v4 && mesh_route is None)) ==> match gateway_route {
                Some(g) => r == TunRoute::Send { path: g, internet: true },
                None => match first_peer {
                    Some(n) => r == TunRoute::Send {
                        path: MeshPath { destination: n, next_hop: n },
                        internet: true,
                    },
                    None => r == TunRoute::Drop,
                },
            }
            &&& (v4 && !local_v4 && mesh_route is Some) ==> r == TunRoute::Send {
                path: mesh_route->0,
                internet: false,
            }
            &&& (r is Drop <==> (packet.len() == 0 || local_v4 || (!v4 && !v6) || ((!v4
                || mesh_route is None) && gateway_route is None && first_peer is None)))
            &&& (r matches TunRoute::Send { internet: false, .. } ==> v4 && !local_v4
                && mesh_route is Some)
        }),
{
}

/// Whether an outgoing packet is end-to-end encrypted for its gateway:
/// internet traffic whose gateway's X25519 key is known.
pub fn encrypts_for_gateway(internet: bool, gateway_key_known: bool) -> (b: bool)
    ensures
        b == (internet && gateway_key_known),
{
    internet && gateway_key_known
}

/// What a relay does with mesh traffic for another node.
#[derive(Debug, Clone, Copy, PartialEq, Eq, Structural)]
pub enum RelayAction {
    /// Forward it with this time-to-live.
    Forward { ttl: u8 },
    /// Its time-to-live ran out.
    DropExpired,
    /// No route to its destination.
    DropNoRoute,
    /// The next hop has no session.
    DropNoSession,
}

/// Relaying decision for traffic with time-to-live `ttl`, given whether a
/// route exists and whether its next hop has a session.
pub fn relay_action(ttl: u8, has_route: bool, next_hop_has_session: bool) -> (a: RelayAction)
    ensures
        a == (if ttl == 0 {
            RelayAction::DropExpired
        } else if !has_route {
            RelayAction::DropNoRoute
        } else if !next_hop_has_session {
            RelayAction::DropNoSession
        } else {
            RelayAction::Forward { ttl: (ttl - 1) as u8 }
        }),
{
    if ttl == 0 {
        RelayAction::DropExpired
    } else if !has_route {
        RelayAction::DropNoRoute
    } else if !next_hop_has_session {
        RelayAction::DropNoSession
    } else {
        RelayAction::Forward { ttl: ttl - 1 }
    }
}

/// Where a data packet addressed to this node goes.
#[derive(Debug, Clone, Copy, PartialEq, Eq, Structural)]
pub enum LocalDelivery {
    /// A packet for the gateway's own mesh address: answered here (echo
    /// requests only).
    AnswerLocally,
    /// Internet traffic through the IPv4 NAT and uplink.
    NatV4,
    /// Internet traffic through the IPv6 NAT and uplink.
    NatV6,
    /// Written to the TUN device.
    WriteTun,
    /// Internet traffic of an unusable kind: dropped.
    Drop,
}

/// Delivery of a packet addressed to this node.
pub open spec fn local_delivery_of(
    packet: Seq<u8>,
    own_ipv4: Seq<u8>,
    internet: bool,
    has_v4_nat: bool,
) -> LocalDelivery {
    let v = if packet.len() == 0 {
        0
    } else {
        packet[0] / 16
    };
    if has_v4_nat && packet.len() >= 20 && v == 4 && packet.subrange(16, 20) == own_ipv4 {
        LocalDelivery::AnswerLocally
    } else if internet {
        if packet.len() > 0 && v == 4 {
            if has_v4_nat {
                LocalDelivery::NatV4
            } else {
                LocalDelivery::WriteTun
            }
        } else if packet.len() > 0 && v == 6 {
            LocalDelivery::NatV6
        } else {
            LocalDelivery::Drop
        }
    } else {
        LocalDelivery::WriteTun
    }
}

/// Delivery of a data packet addressed to this node, given whether it is
/// marked as internet traffic and whether an IPv4 gateway engine (with its
/// uplink) runs here.
pub fn local_delivery(packet: &[u8], own_ipv4: [u8; 4], internet: bool, has_v4_nat: bool) -> (d:
    LocalDelivery)
    ensures
        d == local_delivery_of(packet@, own_ipv4@, internet, has_v4_nat),
{
    let v: u8 = if packet.len() == 0 {
        0
    } else {
        packet[0] / 16
    };
    if has_v4_nat && packet.len() >= 20 && v == 4 {
        let mine = packet[16] == own_ipv4[0] && packet[17] == own_ipv4[1] && packet[18]
            == own_ipv4[2] && packet[19] == own_ipv4[3];
        proof {
            if mine {
                assert(packet@.subrange(16, 20) =~= own_ipv4@);
            } else {
                if packet@.subrange(16, 20) == own_ipv4@ {
                    assert(packet@.subrange(16, 20)[0] == packet@[16]);
                    assert(packet@.subrange(16, 20)[1] == packet@[17]);
                    assert(packet@.subrange(16, 20)[2] == packet@[18]);
                    assert(packet@.subrange(16, 20)[3] == packet@[19]);
                }
            }
        }
        if mine {
            return LocalDelivery::AnswerLocally;
        }
    }
    if internet {
        if packet.len() > 0 && v == 4 {
            if has_v4_nat {
                LocalDelivery::NatV4
            } else {
                LocalDelivery::WriteTun
            }
        } else if packet.len() > 0 && v == 6 {
            LocalDelivery::NatV6
        } else {
            LocalDelivery::Drop
        }
    } else {
        LocalDelivery::WriteTun
    }
}

/// How a transport send failed.
#[derive(Debug, Clone, Copy, PartialEq, Eq, Structural)]
pub enum SendFailure {
    /// No connection to the peer right now.
    PeerNotConnected,
    /// The peer's queue is full.
    Congested,
    /// Any other failure.
    Other,
}

/// What to do with a frame whose send failed.
#[derive(Debug, Clone, Copy, PartialEq, Eq, Structural)]
pub enum SendFailureAction {
    /// Keep it in the peer's send buffer at this priority.
    Buffer(Priority),
    /// Drop it and count a congestion drop.
    DropCongested,
    /// Report the failure; the frame is lost.
    Report,
}

/// Handling of a failed send: frames for a disconnected peer are
/// buffered; under congestion control and route frames are buffered and
/// data frames dropped; other failures are reported.
pub fn on_send_failure(failure: SendFailure, frame_type: FrameType) -> (a: SendFailureAction)
    ensures
        a == (match failure {
            SendFailure::PeerNotConnected => SendFailureAction::Buffer(priority_of(frame_type)),
            SendFailure::Congested => if priority_of(frame_type) != Priority::Data {
                SendFailureAction::Buffer(priority_of(frame_type))
            } else {
                SendFailureAction::DropCongested
            },
            SendFailure::Other => SendFailureAction::Report,
        }),
{
    match failure {
        SendFailure::PeerNotConnected => SendFailureAction::Buffer(Priority::of(frame_type)),
        SendFailure::Congested => {
            if should_buffer_under_congestion(frame_type) {
                SendFailureAction::Buffer(Priority::of(frame_type))
            } else {
                SendFailureAction::DropCongested
            }
        },
        SendFailure::Other => SendFailureAction::Report,
    }
}

/// What a periodic flush does with one frame drained from a peer's buffer.
#[derive(Debug, Clone, Copy, PartialEq, Eq, Structural)]
pub struct FlushStep {
    /// Put the frame back into the buffer.
    pub requeue: bool,
    /// Send nothing more this round.
    pub stop_sending: bool,
}

/// Flush handling of a frame: once the link was found congested the rest
/// of the round is put back unsent; a send that met congestion or a
/// missing connection puts the frame back (congestion also ends the
/// round); other failures lose the frame.
pub fn flush_step(already_congested: bool, failure: Option<SendFailure>) -> (s: FlushStep)
    ensures
        s == (if already_congested {
            FlushStep { requeue: true, stop_sending: true }
        } else {
            match failure {
                None => FlushStep { requeue: false, stop_sending: false },
                Some(SendFailure::Congested) => FlushStep { requeue: true, stop_sending: true },
                Some(SendFailure::PeerNotConnected) => FlushStep {
                    requeue: true,
                    stop_sending: false,
                },
                Some(SendFailure::Other) => FlushStep { requeue: false, stop_sending: false },
            }
        }),
{
    if already_congested {
        return FlushStep { requeue: true, stop_sending: true };
    }
    match failure {
        None => FlushStep { requeue: false, stop_sending: false },
        Some(SendFailure::Congested) => FlushStep { requeue: true, stop_sending: true },
        Some(SendFailure::PeerNotConnected) => FlushStep { requeue: true, stop_sending: false },
        Some(SendFailure::Other) => FlushStep { requeue: false, stop_sending: false },
    }
}

/// Silence after which a peer is removed, in nanoseconds (three missed
/// five-second heartbeats).
pub const LIVENESS_TIMEOUT_NS: u64 = 15_000_000_000;

/// A peer and the time of its latest heartbeat.
#[derive(Debug, Clone, Copy, PartialEq, Eq)]
pub struct LastHeartbeat {
    pub peer: NodeId,
    pub at: u64,
}

/// Whether a heartbeat at `at` is older than the liveness timeout at `now`.
pub open spec fn silent(at: u64, now: u64) -> bool {
    now >= at && now - at > LIVENESS_TIMEOUT_NS
}

/// The peers whose latest heartbeat is older than the liveness timeout, in
/// table order.
pub fn timed_out_peers(table: &Vec<LastHeartbeat>, now: u64) -> (v: Vec<NodeId>)
    ensures
        v@ == table@.filter(|h: LastHeartbeat| silent(h.at, now)).map_values(
            |h: LastHeartbeat| h.peer,
        ),
{
    let mut v: Vec<NodeId> = Vec::new();
    let mut i: usize = 0;
    while i < table.len()
        invariant
            i <= table@.len(),
            v@ == table@.take(i as int).filter(|h: LastHeartbeat| silent(h.at, now)).map_values(
                |h: LastHeartbeat| h.peer,
            ),
        decreases table@.len() - i,
    {
        let h = table[i];
        proof {
            let t = table@.take(i + 1);
            assert(t.drop_last() =~= table@.take(i as int));
            assert(t.last() == h);
            reveal(Seq::filter);
        }
        if now >= h.at && now - h.at > LIVENESS_TIMEOUT_NS {
            v.push(h.peer);
            proof {
                let f = table@.take(i as int).filter(|h: LastHeartbeat| silent(h.at, now));
                assert(table@.take(i + 1).filter(|h: LastHeartbeat| silent(h.at, now)) == f.push(
                    h,
                ));
                assert(f.push(h).map_values(|h: LastHeartbeat| h.peer) =~= f.map_values(
                    |h: LastHeartbeat| h.peer,
                ).push(h.peer));
            }
        }
        i = i + 1;
    }
    proof {
        assert(table@.take(table@.len() as int) =~= table@);
    }
    v
}

/// What a heartbeat teaches about its sender: a direct gateway (zero hops)
/// reports its load, and its X25519 key unless that is all zeros.
#[derive(Debug, Clone, Copy, PartialEq, Eq, Structural)]
pub struct HeartbeatUse {
    pub learn_gateway_key: bool,
    pub record_gateway_load: bool,
}

pub fn heartbeat_use(gateway_hops: u8, gw_x25519_pub: &[u8; 32]) -> (u: HeartbeatUse)
    ensures
        u.record_gateway_load == (gateway_hops == 0),
        u.learn_gateway_key == (gateway_hops == 0 && exists|i: int|
            0 <= i < 32 && gw_x25519_pub@[i] != 0),
{
    if gateway_hops != 0 {
        return HeartbeatUse { learn_gateway_key: false, record_gateway_load: false };
    }
    let mut i: usize = 0;
    while i < 32
        invariant
            i <= 32,
            gateway_hops == 0,
            gw_x25519_pub@.len() == 32,
            forall|k: int| 0 <= k < i ==> gw_x25519_pub@[k] == 0,
        decreases 32 - i,
    {
        if gw_x25519_pub[i] != 0 {
            proof {
                assert(gw_x25519_pub@[i as int] != 0);
            }
            return HeartbeatUse { learn_gateway_key: true, record_gateway_load: true };
        }
        i = i + 1;
    }
    HeartbeatUse { learn_gateway_key: false, record_gateway_load: true }
}

/// Which of two simultaneous connection attempts between the same two
/// nodes survives.
#[derive(Debug, Clone, Copy, PartialEq, Eq, Structural)]
pub enum ConnectRaceWinner {
    /// Keep the inbound attempt and cancel our outbound one.
    Incoming,
    /// Keep our outbound attempt and drop the inbound one.
    Outgoing,
}

/// Lexicographic order of byte strings of one length.
pub open spec fn bytes_greater(a: Seq<u8>, b: Seq<u8>) -> bool
    decreases a.len(),
{
    if a.len() == 0 || a.len() != b.len() {
        false
    } else if a[0] != b[0] {
        a[0] > b[0]
    } else {
        bytes_greater(a.drop_first(), b.drop_first())
    }
}

/// The tie-break of a simultaneous connect: the inbound attempt wins when
/// our node id is the greater one, so both ends keep the same connection.
pub fn connect_race_winner(self_id: &NodeId, remote_id: &NodeId) -> (w: ConnectRaceWinner)
    ensures
        w == (if bytes_greater(self_id.bytes(), remote_id.bytes()) {
            ConnectRaceWinner::Incoming
        } else {
            ConnectRaceWinner::Outgoing
        }),
{
    let a = self_id.as_bytes();
    let b = remote_id.as_bytes();
    let mut i: usize = 0;
    proof {
        assert(a@.skip(0) =~= a@);
        assert(b@.skip(0) =~= b@);
    }
    while i < 16
        invariant
            i <= 16,
            a@ == self_id.bytes(),
            b@ == remote_id.bytes(),
            a@.len() == 16,
            b@.len() == 16,
            bytes_greater(a@, b@) == bytes_greater(a@.skip(i as int), b@.skip(i as int)),
        decreases 16 - i,
    {
        proof {
            assert(a@.skip(i as int).drop_first() =~= a@.skip(i + 1));
            assert(b@.skip(i as int).drop_first() =~= b@.skip(i + 1));
            assert(a@.skip(i as int)[0] == a@[i as int]);
            assert(b@.skip(i as int)[0] == b@[i as int]);
        }
        if a[i] != b[i] {
            if a[i] > b[i] {
                return ConnectRaceWinner::Incoming;
            } else {
                return ConnectRaceWinner::Outgoing;
            }
        }
        i = i + 1;
    }
    ConnectRaceWinner::Outgoing
}

/// The two ends of a connection race decide alike: exactly one of them
/// keeps its inbound attempt.
pub proof fn lemma_race_agreement(a: Seq<u8>, b: Seq<u8>)
    requires
        a.len() == b.len(),
        a != b,
    ensures
        bytes_greater(a, b) != bytes_greater(b, a),
    decreases a.len(),
{
    if a.len() > 0 {
        if a[0] == b[0] {
            if a.drop_first() == b.drop_first() {
                assert(a =~= seq![a[0]] + a.drop_first());
                assert(b =~= seq![b[0]] + b.drop_first());
            }
            lemma_race_agreement(a.drop_first(), b.drop_first());
        }
    } else {
        assert(a =~= b);
    }
}

/// The race order is the lexicographic order of the id bytes: `a` is the
/// greater exactly when, at the first index where the two differ
/// (counting from index 0), `a`'s byte is the larger.
pub proof fn lemma_race_order_lexicographic(a: Seq<u8>, b: Seq<u8>)
    requires
        a.len() == b.len(),
    ensures
        bytes_greater(a, b) <==> exists|k: int|
            0 <= k < a.len() && #[trigger] a[k] > b[k] && forall|j: int|
                0 <= j < k ==> #[trigger] a[j] == b[j],
    decreases a.len(),
{
    if a.len() > 0 {
        lemma_race_order_lexicographic(a.drop_first(), b.drop_first());
        let ta = a.drop_first();
        let tb = b.drop_first();
        if bytes_greater(a, b) {
            if a[0] != b[0] {
                assert(a[0] > b[0]);
            } else {
                let k = choose|k: int|
                    0 <= k < ta.len() && #[trigger] ta[k] > tb[k] && forall|j: int|
                        0 <= j < k ==> #[trigger] ta[j] == tb[j];
                assert(a[k + 1] > b[k + 1]);
                assert forall|j: int| 0 <= j < k + 1 implies #[trigger] a[j] == b[j] by {
                    if j > 0 {
                        assert(ta[j - 1] == tb[j - 1]);
                    }
                }
            }
        } else {
            assert forall|k: int|
                0 <= k < a.len() && #[trigger] a[k] > b[k] implies !(forall|j: int|
                0 <= j < k ==> #[trigger] a[j] == b[j]) by {
                if forall|j: int| 0 <= j < k ==> #[trigger] a[j] == b[j] {
                    if k == 0 {
                    } else {
                        assert(a[0] == b[0]);
                        assert(ta[k - 1] > tb[k - 1]);
                        assert forall|j: int| 0 <= j < k - 1 implies #[trigger] ta[j] == tb[j] by {
                            assert(a[j + 1] == b[j + 1]);
                        }
                    }
                }
            }
        }
    }
}

/// The connection kept in a simultaneous connect: the inbound one exactly
/// when our id's bytes are lexicographically greater than the remote's
/// (the first differing byte, from index 0, is larger).
pub proof fn lemma_race_winner_by_first_difference(self_id: NodeId, remote_id: NodeId)
    ensures
        bytes_greater(self_id.bytes(), remote_id.bytes()) <==> exists|k: int|
            0 <= k < 16 && #[trigger] self_id.bytes()[k] > remote_id.bytes()[k] && forall|j: int|
                0 <= j < k ==> #[trigger] self_id.bytes()[j] == remote_id.bytes()[j],
{
    NodeId::lemma_bytes_len(self_id);
    NodeId::lemma_bytes_len(remote_id);
    lemma_race_order_lexicographic(self_id.bytes(), remote_id.bytes());
}

/// Whether this node opens the Noise handshake over a Bluetooth RFCOMM
/// bridge: the side with the lower node id initiates.
pub fn rfcomm_initiates(self_id: &NodeId, peer_id: &NodeId) -> (b: bool)
    ensures
        b == bytes_greater(peer_id.bytes(), self_id.bytes()),
{
    connect_race_winner(peer_id, self_id) == ConnectRaceWinner::Incoming
}

proof fn lemma_bytes_greater_irreflexive(a: Seq<u8>)
    ensures
        !bytes_greater(a, a),
    decreases a.len(),
{
    if a.len() > 0 {
        lemma_bytes_greater_irreflexive(a.drop_first());
    }
}

/// Exactly one end of an RFCOMM link initiates the handshake; a node never
/// initiates towards its own id.
pub proof fn lemma_one_rfcomm_initiator(a: NodeId, b: NodeId)
    ensures
        a != b ==> bytes_greater(b.bytes(), a.bytes()) != bytes_greater(a.bytes(), b.bytes()),
        !bytes_greater(a.bytes(), a.bytes()),
{
    lemma_bytes_greater_irreflexive(a.bytes());
    if a != b {
        NodeId::lemma_bytes_len(a);
        NodeId::lemma_bytes_len(b);
        if a.bytes() == b.bytes() {
            NodeId::lemma_bytes_injective(a, b);
        }
        lemma_race_agreement(b.bytes(), a.bytes());
    }
}

/// Bytes of mesh header carried inside each fragment.
pub const MESH_HEADER_BYTES: usize = 40;

/// Whether a payload is split into fragments: when it exceeds the largest
/// fragment payload less the mesh header.
pub fn needs_fragmentation(payload_len: usize, max_fragment_payload: usize) -> (b: bool)
    ensures
        b == (payload_len > (if max_fragment_payload >= MESH_HEADER_BYTES {
            max_fragment_payload - MESH_HEADER_BYTES
        } else {
            0
        })),
{
    let threshold = if max_fragment_payload >= MESH_HEADER_BYTES {
        max_fragment_payload - MESH_HEADER_BYTES
    } else {
        0
    };
    payload_len > threshold
}

} // verus!
