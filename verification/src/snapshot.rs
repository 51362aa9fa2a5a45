//! Ordering and ages in the daemon's debug snapshot: peers, routes and
//! discovered peers are listed by short id, gateways with the selected
//! one first, then by score, then by short id; ties keep the order in
//! which the entries were collected.
use vstd::prelude::*;

use crate::auth::contains_node;
use crate::discovery::NodeCapabilities;
use crate::net_addr::SocketAddress;
use crate::node_id::NodeId;
use crate::reconnect::ConnectTarget;
use crate::stats::StatsSnapshot;

verus! {

/// A three-part sort key, compared lexicographically.
pub type RankKey = (u64, u64, u64);

pub open spec fn key_lt(a: RankKey, b: RankKey) -> bool {
    a.0 < b.0 || (a.0 == b.0 && (a.1 < b.1 || (a.1 == b.1 && a.2 < b.2)))
}

/// Whether entry `i` is listed before entry `j`: by key, then by the
/// order of collection.
pub open spec fn ranked_before(keys: Seq<RankKey>, i: int, j: int) -> bool {
    key_lt(keys[i], keys[j]) || (keys[i] == keys[j] && i < j)
}

/// `order` lists every entry index once, in rank order.
pub open spec fn is_stable_order(keys: Seq<RankKey>, order: Seq<usize>) -> bool {
    &&& order.len() == keys.len()
    &&& forall|k: int| 0 <= k < order.len() ==> (#[trigger] order[k]) < keys.len()
    &&& order.no_duplicates()
    &&& forall|j: usize| j < keys.len() ==> #[trigger] order.contains(j)
    &&& forall|a: int, b: int| 0 <= a < b < order.len() ==> ranked_before(keys, #[trigger] order[a] as int, #[trigger] order[b] as int)
}

fn key_less(a: RankKey, b: RankKey) -> (r: bool)
    ensures
        r == key_lt(a, b),
{
    a.0 < b.0 || (a.0 == b.0 && (a.1 < b.1 || (a.1 == b.1 && a.2 < b.2)))
}

/// The order in which entries with the given keys are listed: a stable
/// sort by key, as indices into `keys`.
pub fn stable_order(keys: &Vec<RankKey>) -> (order: Vec<usize>)
    ensures
        is_stable_order(keys@, order@),
{
    let mut order: Vec<usize> = Vec::new();
    let mut i: usize = 0;
    while i < keys.len()
        invariant
            i <= keys@.len(),
            order@.len() == i,
            forall|k: int| 0 <= k < order@.len() ==> (#[trigger] order@[k]) < i,
            order@.no_duplicates(),
            forall|j: usize| j < i ==> #[trigger] order@.contains(j),
            forall|a: int, b: int| 0 <= a < b < order@.len() ==> ranked_before(keys@, #[trigger] order@[a] as int, #[trigger] order@[b] as int),
        decreases keys@.len() - i,
    {
        let ki = keys[i];
        let mut p: usize = 0;
        while p < order.len() && !key_less(ki, keys[order[p]])
            invariant
                p <= order@.len(),
                i < keys@.len(),
                ki == keys@[i as int],
                forall|k: int| 0 <= k < order@.len() ==> (#[trigger] order@[k]) < i,
                forall|q: int| 0 <= q < p ==> !key_lt(ki, #[trigger] keys@[order@[q] as int]),
            decreases order@.len() - p,
        {
            p = p + 1;
        }
        let ghost before = order@;
        order.insert(p, i);
        proof {
            assert(order@ =~= before.insert(p as int, i));
            assert forall|k: int| 0 <= k < order@.len() implies (#[trigger] order@[k]) < i + 1 by {
                if k < p {
                    assert(order@[k] == before[k]);
                } else if k > p {
                    assert(order@[k] == before[k - 1]);
                }
            }
            assert forall|a: int, b: int| 0 <= a < order@.len() && 0 <= b < order@.len() && a != b implies order@[a] != order@[b] by {
                if a != p && b != p {
                    let a2 = if a < p { a } else { a - 1 };
                    let b2 = if b < p { b } else { b - 1 };
                    assert(order@[a] == before[a2] && order@[b] == before[b2]);
                } else if a == p {
                    let b2 = if b < p { b } else { b - 1 };
                    assert(order@[b] == before[b2]);
                } else {
                    let a2 = if a < p { a } else { a - 1 };
                    assert(order@[a] == before[a2]);
                }
            }
            assert forall|j: usize| j < i + 1 implies #[trigger] order@.contains(j) by {
                if j == i {
                    assert(order@[p as int] == i);
                } else {
                    assert(before.contains(j));
                    let k = choose|k: int| 0 <= k < before.len() && before[k] == j;
                    if k < p {
                        assert(order@[k] == j);
                    } else {
                        assert(order@[k + 1] == j);
                    }
                }
            }
            assert forall|a: int, b: int| 0 <= a < b < order@.len() implies ranked_before(keys@, #[trigger] order@[a] as int, #[trigger] order@[b] as int) by {
                if a != p && b != p {
                    let a2 = if a < p { a } else { a - 1 };
                    let b2 = if b < p { b } else { b - 1 };
                    assert(order@[a] == before[a2] && order@[b] == before[b2]);
                } else if a == p {
                    // the new index goes before every later entry
                    let b2 = b - 1;
                    assert(order@[b] == before[b2]);
                    assert(key_lt(ki, keys@[before[p as int] as int]));
                    if b2 > p {
                        assert(ranked_before(keys@, before[p as int] as int, before[b2] as int));
                    }
                } else {
                    // every earlier entry has a key no greater and a smaller index
                    assert(order@[a] == before[a]);
                    assert(!key_lt(ki, keys@[before[a] as int]));
                }
            }
        }
        i = i + 1;
    }
    order
}

/// With one entry keyed ahead of all the others in the first part of its
/// key (the selected gateway), that entry is listed first.
pub proof fn lemma_selected_listed_first(keys: Seq<RankKey>, order: Seq<usize>, s: usize)
    requires
        is_stable_order(keys, order),
        s < keys.len(),
        forall|j: int| 0 <= j < keys.len() && j != s ==> keys[s as int].0 < (#[trigger] keys[j]).0,
    ensures
        order[0] == s,
{
    assert(order.len() > 0);
    if order[0] != s {
        assert(order.contains(s));
        let k = choose|k: int| 0 <= k < order.len() && order[k] == s;
        assert(k != 0);
        assert(ranked_before(keys, order[0] as int, order[k] as int));
    }
}

/// The first four bytes of a node id as a big-endian number: the short
/// ids (the first eight hex digits) of two nodes compare as these do.
pub open spec fn short_prefix_of(id: NodeId) -> u64 {
    ((id.bytes()[0] as int) * 0x100_0000 + (id.bytes()[1] as int) * 0x1_0000 + (id.bytes()[2] as int)
        * 0x100 + (id.bytes()[3] as int)) as u64
}

/// Sort key of a peer, route or discovered peer: its short id.
pub fn id_rank_key(id: &NodeId) -> (k: RankKey)
    ensures
        k == (0u64, 0u64, short_prefix_of(*id)),
{
    let b = id.as_bytes();
    proof {
        NodeId::lemma_bytes_len(*id);
    }
    let v: u64 = b[0] as u64 * 0x100_0000 + b[1] as u64 * 0x1_0000 + b[2] as u64 * 0x100 + b[3] as u64;
    (0, 0, v)
}

/// Sort key of a gateway: the selected one first, then by score, then by
/// short id.
pub fn gateway_rank_key(selected: bool, score: u64, id: &NodeId) -> (k: RankKey)
    ensures
        k == ((if selected { 0u64 } else { 1u64 }), score, short_prefix_of(*id)),
{
    let (_, _, prefix) = id_rank_key(id);
    (if selected { 0 } else { 1 }, score, prefix)
}

/// Milliseconds in an elapsed time given in nanoseconds, saturating at the
/// largest `u64`.
pub fn saturating_millis(elapsed_ns: u128) -> (ms: u64)
    ensures
        ms == (if elapsed_ns / 1_000_000 > u64::MAX { u64::MAX as int } else { (elapsed_ns / 1_000_000) as int }),
{
    let m = elapsed_ns / 1_000_000;
    if m > u64::MAX as u128 {
        u64::MAX
    } else {
        m as u64
    }
}

/// One connected peer in the snapshot.
#[derive(Debug, Clone, Copy)]
pub struct PeerSnapshot {
    pub node_id: NodeId,
    /// The target the peer was reached through, when known.
    pub target: Option<ConnectTarget>,
    /// A direct neighbour in the routing table.
    pub direct: bool,
    pub configured: bool,
    pub discovered: bool,
    pub last_heartbeat_age_ms: Option<u64>,
}

/// One routing-table entry, as the routing table reports it, with the
/// gateway score computed for it.
#[derive(Debug, Clone, Copy)]
pub struct RouteSnapshot {
    pub destination: NodeId,
    pub next_hop: NodeId,
    pub learned_from: NodeId,
    pub hops: u8,
    pub is_gateway: bool,
    pub gateway_load: u8,
    pub rtt_ms: Option<u32>,
    pub mesh_ip: Option<[u8; 4]>,
    pub age_ms: u64,
    pub next_hop_blacklisted: bool,
    pub score: u64,
}

/// One gateway in the snapshot.
#[derive(Debug, Clone, Copy)]
pub struct GatewaySnapshot {
    pub node_id: NodeId,
    pub next_hop: NodeId,
    pub hops: u8,
    pub gateway_load: u8,
    pub rtt_ms: Option<u32>,
    pub score: u64,
    /// The gateway the routing table currently prefers.
    pub selected: bool,
    pub mesh_ip: Option<[u8; 4]>,
}

/// One peer seen by discovery.
#[derive(Debug, Clone, Copy)]
pub struct DiscoveredSnapshot {
    pub node_id: NodeId,
    pub addr: SocketAddress,
    pub capabilities: NodeCapabilities,
    pub last_seen_age_ms: u64,
}

/// This node in the snapshot.
#[derive(Debug, Clone)]
pub struct NodeSnapshot {
    pub name: String,
    pub node_id: NodeId,
    pub is_gateway: bool,
    pub mesh_ip: [u8; 4],
    pub mesh_prefix_len: u8,
}

/// The daemon's debug snapshot.
#[derive(Debug, Clone)]
pub struct DebugSnapshot {
    pub version: u32,
    pub generated_at_unix_secs: u64,
    pub node: NodeSnapshot,
    pub stats: StatsSnapshot,
    pub peers: Vec<PeerSnapshot>,
    pub discovered_peers: Vec<DiscoveredSnapshot>,
    pub routes: Vec<RouteSnapshot>,
    pub gateways: Vec<GatewaySnapshot>,
}

/// Format version of the snapshot.
pub const SNAPSHOT_VERSION: u32 = 1;

/// A peer's row: its reconnect target and flags when the reconnect
/// manager knows it, and whether it is a direct neighbour.
pub open spec fn peer_snapshot_of(
    peer: NodeId,
    info: Option<(ConnectTarget, bool, bool)>,
    direct_peers: Seq<NodeId>,
    last_heartbeat_age_ms: Option<u64>,
) -> PeerSnapshot {
    PeerSnapshot {
        node_id: peer,
        target: match info {
            Some(i) => Some(i.0),
            None => None,
        },
        direct: direct_peers.contains(peer),
        configured: match info {
            Some(i) => i.1,
            None => false,
        },
        discovered: match info {
            Some(i) => i.2,
            None => false,
        },
        last_heartbeat_age_ms,
    }
}

pub fn peer_snapshot(
    peer: NodeId,
    info: Option<(ConnectTarget, bool, bool)>,
    direct_peers: &Vec<NodeId>,
    last_heartbeat_age_ms: Option<u64>,
) -> (r: PeerSnapshot)
    ensures
        r == peer_snapshot_of(peer, info, direct_peers@, last_heartbeat_age_ms),
{
    let (target, configured, discovered) = match info {
        Some(i) => (Some(i.0), i.1, i.2),
        None => (None, false, false),
    };
    PeerSnapshot {
        node_id: peer,
        target,
        direct: contains_node(direct_peers, peer).is_some(),
        configured,
        discovered,
        last_heartbeat_age_ms,
    }
}

/// The gateway row of a gateway route; `selected` when it is the one the
/// routing table prefers.
pub open spec fn gateway_of(r: RouteSnapshot, selected: Option<NodeId>) -> GatewaySnapshot {
    GatewaySnapshot {
        node_id: r.destination,
        next_hop: r.next_hop,
        hops: r.hops,
        gateway_load: r.gateway_load,
        rtt_ms: r.rtt_ms,
        score: r.score,
        selected: selected == Some(r.destination),
        mesh_ip: r.mesh_ip,
    }
}

/// The gateway rows of a route list, in the routes' order.
pub open spec fn gateways_of(routes: Seq<RouteSnapshot>, selected: Option<NodeId>) -> Seq<GatewaySnapshot> {
    routes.filter(|r: RouteSnapshot| r.is_gateway).map_values(|r: RouteSnapshot| gateway_of(r, selected))
}

pub open spec fn id_key(id: NodeId) -> RankKey {
    (0u64, 0u64, short_prefix_of(id))
}

pub open spec fn gateway_key(g: GatewaySnapshot) -> RankKey {
    ((if g.selected { 0u64 } else { 1u64 }), g.score, short_prefix_of(g.node_id))
}

/// `out` lists `rows` in a stable order by `keys`.
pub open spec fn in_rank_order<T>(rows: Seq<T>, keys: Seq<RankKey>, out: Seq<T>) -> bool {
    exists|o: Seq<usize>| is_stable_order(keys, o) && out == o.map_values(|i: usize| rows[i as int])
}

proof fn lemma_gateway_filter_from_routes(routes: Seq<RouteSnapshot>, i: int)
    requires
        0 <= i < routes.filter(|r: RouteSnapshot| r.is_gateway).len(),
    ensures
        exists|j: int|
            0 <= j < routes.len() && #[trigger] routes[j] == routes.filter(
                |r: RouteSnapshot| r.is_gateway,
            )[i] && routes[j].is_gateway,
    decreases routes.len(),
{
    let pred = |r: RouteSnapshot| r.is_gateway;
    if routes.len() > 0 {
        let init = routes.drop_last();
        let last = routes.last();
        assert(routes =~= init.push(last));
        init.lemma_filter_push(last, pred);
        if i < init.filter(pred).len() {
            lemma_gateway_filter_from_routes(init, i);
            let j = choose|j: int|
                0 <= j < init.len() && #[trigger] init[j] == init.filter(pred)[i] && init[j].is_gateway;
            assert(routes[j] == init[j]);
        } else {
            assert(routes[routes.len() - 1] == last);
        }
    }
}

/// Each gateway row of the snapshot is the row of one gateway route: the
/// route's destination, next hop, hops, load, round-trip time, score and
/// mesh address, selected when its destination is the selected gateway;
/// there is one row per gateway route.
pub proof fn lemma_gateway_rows_follow_routes(
    routes: Seq<RouteSnapshot>,
    selected: Option<NodeId>,
    out: Seq<GatewaySnapshot>,
)
    requires
        routes.len() <= usize::MAX,
        in_rank_order(
            gateways_of(routes, selected),
            gateways_of(routes, selected).map_values(|g: GatewaySnapshot| gateway_key(g)),
            out,
        ),
    ensures
        out.len() == routes.filter(|r: RouteSnapshot| r.is_gateway).len(),
        forall|j: int|
            0 <= j < routes.len() && (#[trigger] routes[j]).is_gateway ==> exists|i: int|
                0 <= i < out.len() && #[trigger] out[i] == (GatewaySnapshot {
                    node_id: routes[j].destination,
                    next_hop: routes[j].next_hop,
                    hops: routes[j].hops,
                    gateway_load: routes[j].gateway_load,
                    rtt_ms: routes[j].rtt_ms,
                    score: routes[j].score,
                    selected: selected == Some(routes[j].destination),
                    mesh_ip: routes[j].mesh_ip,
                }),
        forall|i: int|
            #![trigger out[i]]
            0 <= i < out.len() ==> exists|j: int|
                0 <= j < routes.len() && (#[trigger] routes[j]).is_gateway && out[i]
                    == (GatewaySnapshot {
                    node_id: routes[j].destination,
                    next_hop: routes[j].next_hop,
                    hops: routes[j].hops,
                    gateway_load: routes[j].gateway_load,
                    rtt_ms: routes[j].rtt_ms,
                    score: routes[j].score,
                    selected: selected == Some(routes[j].destination),
                    mesh_ip: routes[j].mesh_ip,
                }),
{
    let rows = gateways_of(routes, selected);
    let keys = rows.map_values(|g: GatewaySnapshot| gateway_key(g));
    let o = choose|o: Seq<usize>| is_stable_order(keys, o) && out == o.map_values(|i: usize| rows[i as int]);
    assert(out.len() == o.len() && o.len() == keys.len() && keys.len() == rows.len());
    assert(rows.len() == routes.filter(|r: RouteSnapshot| r.is_gateway).len());
    assert forall|i: int| #![trigger out[i]] 0 <= i < out.len() implies exists|j: int|
        0 <= j < routes.len() && (#[trigger] routes[j]).is_gateway && out[i] == (GatewaySnapshot {
            node_id: routes[j].destination,
            next_hop: routes[j].next_hop,
            hops: routes[j].hops,
            gateway_load: routes[j].gateway_load,
            rtt_ms: routes[j].rtt_ms,
            score: routes[j].score,
            selected: selected == Some(routes[j].destination),
            mesh_ip: routes[j].mesh_ip,
        }) by {
        let x = o[i] as int;
        assert(o[i] < keys.len());
        lemma_gateway_filter_from_routes(routes, x);
        let j = choose|j: int|
            0 <= j < routes.len() && #[trigger] routes[j] == routes.filter(|r: RouteSnapshot| r.is_gateway)[x]
                && routes[j].is_gateway;
        assert(out[i] == rows[x]);
        assert(rows[x] == gateway_of(routes.filter(|r: RouteSnapshot| r.is_gateway)[x], selected));
        assert(0 <= j < routes.len() && routes[j].is_gateway);
        assert(out[i] == (GatewaySnapshot {
            node_id: routes[j].destination,
            next_hop: routes[j].next_hop,
            hops: routes[j].hops,
            gateway_load: routes[j].gateway_load,
            rtt_ms: routes[j].rtt_ms,
            score: routes[j].score,
            selected: selected == Some(routes[j].destination),
            mesh_ip: routes[j].mesh_ip,
        }));
    }
    assert forall|j: int| 0 <= j < routes.len() && (#[trigger] routes[j]).is_gateway implies exists|i: int|
        0 <= i < out.len() && #[trigger] out[i] == (GatewaySnapshot {
                    node_id: routes[j].destination,
                    next_hop: routes[j].next_hop,
                    hops: routes[j].hops,
                    gateway_load: routes[j].gateway_load,
                    rtt_ms: routes[j].rtt_ms,
                    score: routes[j].score,
                    selected: selected == Some(routes[j].destination),
                    mesh_ip: routes[j].mesh_ip,
                }) by {
        let pred = |r: RouteSnapshot| r.is_gateway;
        routes.lemma_filter_contains(pred, j);
        routes.lemma_filter_len(pred);
        let x = choose|x: int| 0 <= x < routes.filter(pred).len() && routes.filter(pred)[x] == routes[j];
        assert(rows[x] == gateway_of(routes[j], selected));
        assert(o.contains(x as usize));
        let i = choose|i: int| 0 <= i < o.len() && o[i] == x as usize;
        assert(out[i] == rows[x]);
    }
}

fn reorder<T: Copy>(rows: &Vec<T>, order: &Vec<usize>) -> (out: Vec<T>)
    requires
        forall|k: int| 0 <= k < order@.len() ==> (#[trigger] order@[k]) < rows@.len(),
    ensures
        out@ == order@.map_values(|i: usize| rows@[i as int]),
{
    let mut out: Vec<T> = Vec::new();
    let mut k: usize = 0;
    while k < order.len()
        invariant
            k <= order@.len(),
            forall|j: int| 0 <= j < order@.len() ==> (#[trigger] order@[j]) < rows@.len(),
            out@ == order@.take(k as int).map_values(|i: usize| rows@[i as int]),
        decreases order@.len() - k,
    {
        out.push(rows[order[k]]);
        proof {
            assert(order@.take(k + 1) =~= order@.take(k as int).push(order@[k as int]));
            assert(out@ =~= order@.take(k + 1).map_values(|i: usize| rows@[i as int]));
        }
        k = k + 1;
    }
    proof {
        assert(order@.take(order@.len() as int) =~= order@);
    }
    out
}

fn sort_by_id<T: Copy>(rows: &Vec<T>, ids: &Vec<NodeId>) -> (out: Vec<T>)
    requires
        ids@.len() == rows@.len(),
    ensures
        in_rank_order(rows@, ids@.map_values(|n: NodeId| id_key(n)), out@),
{
    let mut keys: Vec<RankKey> = Vec::new();
    let mut k: usize = 0;
    while k < ids.len()
        invariant
            k <= ids@.len(),
            keys@ == ids@.take(k as int).map_values(|n: NodeId| id_key(n)),
        decreases ids@.len() - k,
    {
        keys.push(id_rank_key(&ids[k]));
        proof {
            assert(ids@.take(k + 1) =~= ids@.take(k as int).push(ids@[k as int]));
            assert(keys@ =~= ids@.take(k + 1).map_values(|n: NodeId| id_key(n)));
        }
        k = k + 1;
    }
    proof {
        assert(ids@.take(ids@.len() as int) =~= ids@);
    }
    let order = stable_order(&keys);
    let out = reorder(rows, &order);
    proof {
        assert(is_stable_order(keys@, order@) && out@ == order@.map_values(|i: usize| rows@[i as int]));
    }
    out
}

/// Assembles the snapshot from what the daemon's tables report: peers,
/// discovered peers and routes listed by short id, the gateways taken
/// from the gateway routes and listed selected first, then by score,
/// then by short id; ties keep the order in which rows were collected.
pub fn assemble_debug_snapshot(
    node: NodeSnapshot,
    stats: StatsSnapshot,
    generated_at_unix_secs: u64,
    peers: Vec<PeerSnapshot>,
    discovered_peers: Vec<DiscoveredSnapshot>,
    routes: Vec<RouteSnapshot>,
    selected_gateway: Option<NodeId>,
) -> (s: DebugSnapshot)
    ensures
        s.version == SNAPSHOT_VERSION,
        s.generated_at_unix_secs == generated_at_unix_secs,
        s.node == node,
        s.stats == stats,
        in_rank_order(peers@, peers@.map_values(|p: PeerSnapshot| id_key(p.node_id)), s.peers@),
        in_rank_order(
            discovered_peers@,
            discovered_peers@.map_values(|d: DiscoveredSnapshot| id_key(d.node_id)),
            s.discovered_peers@,
        ),
        in_rank_order(routes@, routes@.map_values(|r: RouteSnapshot| id_key(r.destination)), s.routes@),
        in_rank_order(
            gateways_of(routes@, selected_gateway),
            gateways_of(routes@, selected_gateway).map_values(|g: GatewaySnapshot| gateway_key(g)),
            s.gateways@,
        ),
{
    let mut peer_ids: Vec<NodeId> = Vec::new();
    let mut k: usize = 0;
    while k < peers.len()
        invariant
            k <= peers@.len(),
            peer_ids@ == peers@.take(k as int).map_values(|p: PeerSnapshot| p.node_id),
        decreases peers@.len() - k,
    {
        peer_ids.push(peers[k].node_id);
        proof {
            assert(peers@.take(k + 1) =~= peers@.take(k as int).push(peers@[k as int]));
            assert(peer_ids@ =~= peers@.take(k + 1).map_values(|p: PeerSnapshot| p.node_id));
        }
        k = k + 1;
    }
    proof {
        assert(peers@.take(peers@.len() as int) =~= peers@);
        assert(peer_ids@.map_values(|n: NodeId| id_key(n)) =~= peers@.map_values(|p: PeerSnapshot| id_key(p.node_id)));
    }
    let sorted_peers = sort_by_id(&peers, &peer_ids);

    let mut disc_ids: Vec<NodeId> = Vec::new();
    let mut k: usize = 0;
    while k < discovered_peers.len()
        invariant
            k <= discovered_peers@.len(),
            disc_ids@ == discovered_peers@.take(k as int).map_values(|d: DiscoveredSnapshot| d.node_id),
        decreases discovered_peers@.len() - k,
    {
        disc_ids.push(discovered_peers[k].node_id);
        proof {
            assert(discovered_peers@.take(k + 1) =~= discovered_peers@.take(k as int).push(discovered_peers@[k as int]));
            assert(disc_ids@ =~= discovered_peers@.take(k + 1).map_values(|d: DiscoveredSnapshot| d.node_id));
        }
        k = k + 1;
    }
    proof {
        assert(discovered_peers@.take(discovered_peers@.len() as int) =~= discovered_peers@);
        assert(disc_ids@.map_values(|n: NodeId| id_key(n)) =~= discovered_peers@.map_values(|d: DiscoveredSnapshot| id_key(d.node_id)));
    }
    let sorted_disc = sort_by_id(&discovered_peers, &disc_ids);

    let mut dest_ids: Vec<NodeId> = Vec::new();
    let mut gateways: Vec<GatewaySnapshot> = Vec::new();
    let mut k: usize = 0;
    while k < routes.len()
        invariant
            k <= routes@.len(),
            dest_ids@ == routes@.take(k as int).map_values(|r: RouteSnapshot| r.destination),
            gateways@ == gateways_of(routes@.take(k as int), selected_gateway),
        decreases routes@.len() - k,
    {
        let r = routes[k];
        dest_ids.push(r.destination);
        proof {
            assert(routes@.take(k + 1) =~= routes@.take(k as int).push(r));
            routes@.take(k as int).lemma_filter_push(r, |x: RouteSnapshot| x.is_gateway);
            assert(dest_ids@ =~= routes@.take(k + 1).map_values(|x: RouteSnapshot| x.destination));
        }
        if r.is_gateway {
            let sel = match selected_gateway {
                Some(g) => {
                    let same = g.key_value() == r.destination.key_value();
                    proof {
                        if same {
                            NodeId::lemma_key_injective(g, r.destination);
                        }
                    }
                    same
                },
                None => false,
            };
            gateways.push(
                GatewaySnapshot {
                    node_id: r.destination,
                    next_hop: r.next_hop,
                    hops: r.hops,
                    gateway_load: r.gateway_load,
                    rtt_ms: r.rtt_ms,
                    score: r.score,
                    selected: sel,
                    mesh_ip: r.mesh_ip,
                },
            );
        }
        proof {
            assert(gateways@ =~= gateways_of(routes@.take(k + 1), selected_gateway));
        }
        k = k + 1;
    }
    proof {
        assert(routes@.take(routes@.len() as int) =~= routes@);
        assert(dest_ids@.map_values(|n: NodeId| id_key(n)) =~= routes@.map_values(|r: RouteSnapshot| id_key(r.destination)));
    }
    let sorted_routes = sort_by_id(&routes, &dest_ids);

    let mut gkeys: Vec<RankKey> = Vec::new();
    let mut k: usize = 0;
    while k < gateways.len()
        invariant
            k <= gateways@.len(),
            gkeys@ == gateways@.take(k as int).map_values(|g: GatewaySnapshot| gateway_key(g)),
        decreases gateways@.len() - k,
    {
        let g = gateways[k];
        gkeys.push(gateway_rank_key(g.selected, g.score, &g.node_id));
        proof {
            assert(gateways@.take(k + 1) =~= gateways@.take(k as int).push(g));
            assert(gkeys@ =~= gateways@.take(k + 1).map_values(|x: GatewaySnapshot| gateway_key(x)));
        }
        k = k + 1;
    }
    proof {
        assert(gateways@.take(gateways@.len() as int) =~= gateways@);
    }
    let gorder = stable_order(&gkeys);
    let sorted_gateways = reorder(&gateways, &gorder);
    proof {
        assert(is_stable_order(gkeys@, gorder@) && sorted_gateways@ == gorder@.map_values(
            |i: usize| gateways@[i as int],
        ));
    }
    DebugSnapshot {
        version: SNAPSHOT_VERSION,
        generated_at_unix_secs,
        node,
        stats,
        peers: sorted_peers,
        discovered_peers: sorted_disc,
        routes: sorted_routes,
        gateways: sorted_gateways,
    }
}

} // verus!
