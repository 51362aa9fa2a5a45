//! Configured and discovered peer targets, and exponential-backoff reconnects.
//!
//! Times are monotonic nanosecond counters handed in by the caller.
use rand::Rng;
use vstd::prelude::*;

use crate::net_addr::SocketAddress;
use crate::node_id::NodeId;

verus! {

/// How a peer is reached.
#[derive(Debug, Clone, Copy, PartialEq, Eq, Hash, Structural)]
pub enum ConnectTarget {
    Tcp(SocketAddress),
    BluetoothPan(SocketAddress),
}

impl ConnectTarget {
    pub open spec fn spec_addr(self) -> SocketAddress {
        match self {
            ConnectTarget::Tcp(a) => a,
            ConnectTarget::BluetoothPan(a) => a,
        }
    }

    pub fn addr(self) -> (a: SocketAddress)
        ensures
            a == self.spec_addr(),
    {
        match self {
            ConnectTarget::Tcp(a) => a,
            ConnectTarget::BluetoothPan(a) => a,
        }
    }

    pub fn mechanism_name(self) -> (s: &'static str)
        ensures
            s@ == (match self {
                ConnectTarget::Tcp(_) => "tcp"@,
                ConnectTarget::BluetoothPan(_) => "bluetooth_pan"@,
            }),
    {
        match self {
            ConnectTarget::Tcp(_) => "tcp",
            ConnectTarget::BluetoothPan(_) => "bluetooth_pan",
        }
    }
}

fn contains_target(v: &Vec<ConnectTarget>, t: ConnectTarget) -> (r: Option<usize>)
    ensures
        r matches Some(i) ==> i < v@.len() && v@[i as int] == t,
        r is None ==> !v@.contains(t),
{
    let mut i: usize = 0;
    while i < v.len()
        invariant
            i <= v@.len(),
            forall|k: int| 0 <= k < i ==> v@[k] != t,
        decreases v@.len() - i,
    {
        if v[i] == t {
            return Some(i);
        }
        i = i + 1;
    }
    None
}

/// One discovered target and when it was last observed.
#[derive(Clone, Copy)]
pub struct DiscoveredTarget {
    pub target: ConnectTarget,
    pub last_seen: u64,
}

/// One peer bound to the target it was reached through.
#[derive(Clone, Copy)]
pub struct PeerTarget {
    pub peer: NodeId,
    pub target: ConnectTarget,
}

/// The map view of a discovered-target list.
pub open spec fn discovered_map(v: Seq<DiscoveredTarget>) -> Map<ConnectTarget, u64> {
    Map::new(
        |t: ConnectTarget| exists|i: int| 0 <= i < v.len() && (#[trigger] v[i]).target == t,
        |t: ConnectTarget|
            v[choose|i: int| 0 <= i < v.len() && (#[trigger] v[i]).target == t].last_seen,
    )
}

/// The map view of a peer → target list.
pub open spec fn peer_map(v: Seq<PeerTarget>) -> Map<u128, ConnectTarget> {
    Map::new(
        |k: u128| exists|i: int| 0 <= i < v.len() && (#[trigger] v[i]).peer.key() == k,
        |k: u128| v[choose|i: int| 0 <= i < v.len() && (#[trigger] v[i]).peer.key() == k].target,
    )
}

pub open spec fn distinct_targets(v: Seq<ConnectTarget>) -> bool {
    forall|i: int, j: int| 0 <= i < j < v.len() ==> v[i] != v[j]
}

pub open spec fn distinct_discovered(v: Seq<DiscoveredTarget>) -> bool {
    forall|i: int, j: int| 0 <= i < j < v.len() ==> (#[trigger] v[i]).target != (#[trigger] v[j]).target
}

pub open spec fn distinct_peers(v: Seq<PeerTarget>) -> bool {
    forall|i: int, j: int| 0 <= i < j < v.len() ==> (#[trigger] v[i]).peer.key() != (#[trigger] v[j]).peer.key()
}

/// Age of an observation at `now`, saturating at zero.
pub open spec fn elapsed(last_seen: u64, now: u64) -> int {
    if now >= last_seen {
        now - last_seen
    } else {
        0
    }
}

proof fn lemma_peer_map_get(v: Seq<PeerTarget>, i: int)
    requires
        distinct_peers(v),
        0 <= i < v.len(),
    ensures
        peer_map(v).contains_key(v[i].peer.key()),
        peer_map(v)[v[i].peer.key()] == v[i].target,
{
    let k = v[i].peer.key();
    assert(exists|j: int| 0 <= j < v.len() && (#[trigger] v[j]).peer.key() == k);
    let c = choose|j: int| 0 <= j < v.len() && (#[trigger] v[j]).peer.key() == k;
    if c != i {
        if c < i {
            assert(v[c].peer.key() != v[i].peer.key());
        } else {
            assert(v[i].peer.key() != v[c].peer.key());
        }
    }
}

proof fn lemma_peer_map_absent(v: Seq<PeerTarget>, k: u128)
    requires
        forall|i: int| 0 <= i < v.len() ==> (#[trigger] v[i]).peer.key() != k,
    ensures
        !peer_map(v).contains_key(k),
{
}

proof fn lemma_peer_map_update(v: Seq<PeerTarget>, i: int, e: PeerTarget)
    requires
        distinct_peers(v),
        0 <= i <= v.len(),
        i < v.len() ==> v[i].peer.key() == e.peer.key(),
        i == v.len() ==> forall|j: int| 0 <= j < v.len() ==> (#[trigger] v[j]).peer.key() != e.peer.key(),
    ensures
        distinct_peers(if i < v.len() { v.update(i, e) } else { v.push(e) }),
        peer_map(if i < v.len() { v.update(i, e) } else { v.push(e) }) == peer_map(v).insert(
            e.peer.key(),
            e.target,
        ),
{
    let w = if i < v.len() { v.update(i, e) } else { v.push(e) };
    assert(w[i] == e);
    assert forall|a: int, b: int| 0 <= a < b < w.len() implies (#[trigger] w[a]).peer.key() != (#[trigger] w[b]).peer.key() by {
        if a != i && b != i {
            assert(w[a] == v[a] && w[b] == v[b]);
        } else if a == i {
            assert(w[b] == v[b]);
            if i < v.len() {
                assert(v[a].peer.key() != v[b].peer.key());
            }
        } else {
            assert(w[a] == v[a]);
            if i < v.len() {
                assert(v[a].peer.key() != v[b].peer.key());
            }
        }
    }
    let m = peer_map(v).insert(e.peer.key(), e.target);
    assert forall|k: u128| #[trigger] peer_map(w).contains_key(k) == m.contains_key(k) by {
        if k == e.peer.key() {
            assert(w[i].peer.key() == k);
        } else if m.contains_key(k) {
            let j = choose|j: int| 0 <= j < v.len() && (#[trigger] v[j]).peer.key() == k;
            assert(w[j] == v[j]);
        } else if peer_map(w).contains_key(k) {
            let j = choose|j: int| 0 <= j < w.len() && (#[trigger] w[j]).peer.key() == k;
            assert(j != i);
            assert(w[j] == v[j]);
        }
    }
    assert forall|k: u128| #[trigger] peer_map(w).contains_key(k) implies peer_map(w)[k] == m[k] by {
        if k == e.peer.key() {
            lemma_peer_map_get(w, i);
        } else {
            let j = choose|j: int| 0 <= j < w.len() && (#[trigger] w[j]).peer.key() == k;
            lemma_peer_map_get(w, j);
            assert(j != i);
            assert(w[j] == v[j]);
            lemma_peer_map_get(v, j);
        }
    }
    assert(peer_map(w) =~= m);
}

proof fn lemma_discovered_get(v: Seq<DiscoveredTarget>, i: int)
    requires
        distinct_discovered(v),
        0 <= i < v.len(),
    ensures
        discovered_map(v).contains_key(v[i].target),
        discovered_map(v)[v[i].target] == v[i].last_seen,
{
    let k = v[i].target;
    assert(exists|j: int| 0 <= j < v.len() && (#[trigger] v[j]).target == k);
    let c = choose|j: int| 0 <= j < v.len() && (#[trigger] v[j]).target == k;
    if c != i {
        if c < i {
            assert(v[c].target != v[i].target);
        } else {
            assert(v[i].target != v[c].target);
        }
    }
}

proof fn lemma_discovered_update(v: Seq<DiscoveredTarget>, i: int, e: DiscoveredTarget)
    requires
        distinct_discovered(v),
        0 <= i <= v.len(),
        i < v.len() ==> v[i].target == e.target,
        i == v.len() ==> forall|j: int| 0 <= j < v.len() ==> (#[trigger] v[j]).target != e.target,
    ensures
        distinct_discovered(if i < v.len() { v.update(i, e) } else { v.push(e) }),
        discovered_map(if i < v.len() { v.update(i, e) } else { v.push(e) }) == discovered_map(
            v,
        ).insert(e.target, e.last_seen),
{
    let w = if i < v.len() { v.update(i, e) } else { v.push(e) };
    assert(w[i] == e);
    assert forall|a: int, b: int| 0 <= a < b < w.len() implies (#[trigger] w[a]).target != (#[trigger] w[b]).target by {
        if a != i && b != i {
            assert(w[a] == v[a] && w[b] == v[b]);
        } else if a == i {
            assert(w[b] == v[b]);
            if i < v.len() {
                assert(v[a].target != v[b].target);
            }
        } else {
            assert(w[a] == v[a]);
            if i < v.len() {
                assert(v[a].target != v[b].target);
            }
        }
    }
    let m = discovered_map(v).insert(e.target, e.last_seen);
    assert forall|k: ConnectTarget| #[trigger] discovered_map(w).contains_key(k) == m.contains_key(k) by {
        if k == e.target {
            assert(w[i].target == k);
        } else if m.contains_key(k) {
            let j = choose|j: int| 0 <= j < v.len() && (#[trigger] v[j]).target == k;
            assert(w[j] == v[j]);
        } else if discovered_map(w).contains_key(k) {
            let j = choose|j: int| 0 <= j < w.len() && (#[trigger] w[j]).target == k;
            assert(j != i);
            assert(w[j] == v[j]);
        }
    }
    assert forall|k: ConnectTarget| #[trigger] discovered_map(w).contains_key(k) implies discovered_map(w)[k] == m[k] by {
        if k == e.target {
            lemma_discovered_get(w, i);
        } else {
            let j = choose|j: int| 0 <= j < w.len() && (#[trigger] w[j]).target == k;
            lemma_discovered_get(w, j);
            assert(j != i);
            assert(w[j] == v[j]);
            lemma_discovered_get(v, j);
        }
    }
    assert(discovered_map(w) =~= m);
}

proof fn lemma_discovered_dom(v: Seq<DiscoveredTarget>)
    requires
        distinct_discovered(v),
    ensures
        discovered_map(v).dom() == v.map_values(|d: DiscoveredTarget| d.target).to_set(),
        discovered_map(v).dom().finite(),
        discovered_map(v).dom().len() == v.len(),
{
    let ts = v.map_values(|d: DiscoveredTarget| d.target);
    assert forall|t: ConnectTarget| #[trigger] discovered_map(v).dom().contains(t) == ts.to_set().contains(t) by {
        if discovered_map(v).dom().contains(t) {
            let j = choose|j: int| 0 <= j < v.len() && (#[trigger] v[j]).target == t;
            assert(ts[j] == t);
        }
        if ts.to_set().contains(t) {
            let j = choose|j: int| 0 <= j < ts.len() && ts[j] == t;
            assert(v[j].target == t);
        }
    }
    assert(discovered_map(v).dom() =~= ts.to_set());
    assert(ts.no_duplicates()) by {
        assert forall|a: int, b: int| 0 <= a < ts.len() && 0 <= b < ts.len() && a != b implies ts[a] != ts[b] by {
            if a < b {
                assert(v[a].target != v[b].target);
            } else {
                assert(v[b].target != v[a].target);
            }
        }
    }
    ts.unique_seq_to_set();
}

proof fn lemma_to_set_remove<A>(v: Seq<A>, i: int)
    requires
        v.no_duplicates(),
        0 <= i < v.len(),
    ensures
        v.remove(i).to_set() == v.to_set().remove(v[i]),
        v.remove(i).no_duplicates(),
{
    let w = v.remove(i);
    assert forall|x: A| #[trigger] w.to_set().contains(x) == v.to_set().remove(v[i]).contains(x) by {
        if w.to_set().contains(x) {
            let j = choose|j: int| 0 <= j < w.len() && w[j] == x;
            let j2 = if j < i { j } else { j + 1 };
            assert(v[j2] == x);
            assert(j2 != i);
        }
        if v.to_set().remove(v[i]).contains(x) {
            let j = choose|j: int| 0 <= j < v.len() && v[j] == x;
            assert(j != i);
            if j < i {
                assert(w[j] == x);
            } else {
                assert(w[j - 1] == x);
            }
        }
    }
    assert(w.to_set() =~= v.to_set().remove(v[i]));
}

/// The lists behind a [`ReconnectManager`].
struct Targets {
    /// Configured peer targets from `[[peers]]` config: always reconnect if lost.
    configured_targets: Vec<ConnectTarget>,
    /// Targets learned from dynamic discovery, with their last observation.
    discovered_targets: Vec<DiscoveredTarget>,
    /// Real peer identity → connection target, learned after handshake.
    target_by_peer: Vec<PeerTarget>,
    /// Targets that currently have an active reconnect task.
    reconnecting: Vec<ConnectTarget>,
}

impl Targets {
    fn placeholder() -> (l: Targets)
        ensures
            l.wf(),
    {
        let v: Vec<ConnectTarget> = Vec::new();
        Targets::new(&v)
    }

    spec fn configured(&self) -> Set<ConnectTarget> {
        self.configured_targets@.to_set()
    }

    spec fn discovered(&self) -> Map<ConnectTarget, u64> {
        discovered_map(self.discovered_targets@)
    }

    spec fn peers(&self) -> Map<u128, ConnectTarget> {
        peer_map(self.target_by_peer@)
    }

    spec fn reconnecting(&self) -> Set<ConnectTarget> {
        self.reconnecting@.to_set()
    }

    spec fn wf(&self) -> bool {
        &&& distinct_discovered(self.discovered_targets@)
        &&& distinct_peers(self.target_by_peer@)
        &&& distinct_targets(self.reconnecting@)
    }

    fn new(targets: &Vec<ConnectTarget>) -> (m: Targets)
        ensures
            m.wf(),
            m.configured() == targets@.to_set(),
            m.discovered() == Map::<ConnectTarget, u64>::empty(),
            m.peers() == Map::<u128, ConnectTarget>::empty(),
            m.reconnecting() == Set::<ConnectTarget>::empty(),
    {
        let mut configured: Vec<ConnectTarget> = Vec::new();
        let mut i: usize = 0;
        while i < targets.len()
            invariant
                i <= targets@.len(),
                configured@.to_set() == targets@.take(i as int).to_set(),
            decreases targets@.len() - i,
        {
            let t = targets[i];
            proof {
                assert(targets@.take(i + 1) =~= targets@.take(i as int).push(t));
                broadcast use vstd::seq_lib::group_seq_properties;
            }
            match contains_target(&configured, t) {
                Some(_) => {
                    proof {
                        assert(configured@.to_set().contains(t));
                        assert(targets@.take(i + 1).to_set() =~= targets@.take(i as int).to_set().insert(t));
                    }
                },
                None => {
                    let ghost before = configured@;
                    configured.push(t);
                    proof {
                        assert(configured@.to_set() =~= before.to_set().insert(t));
                        assert(targets@.take(i + 1).to_set() =~= targets@.take(i as int).to_set().insert(t));
                    }
                },
            }
            i = i + 1;
        }
        proof {
            assert(targets@.take(targets@.len() as int) =~= targets@);
        }
        let m = Targets {
            configured_targets: configured,
            discovered_targets: Vec::new(),
            target_by_peer: Vec::new(),
            reconnecting: Vec::new(),
        };
        proof {
            assert(m.discovered() =~= Map::<ConnectTarget, u64>::empty());
            assert(m.peers() =~= Map::<u128, ConnectTarget>::empty());
            assert(m.reconnecting() =~= Set::<ConnectTarget>::empty());
        }
        m
    }

    fn find_peer(&self, k: u128) -> (r: Option<usize>)
        requires
            self.wf(),
        ensures
            r matches Some(i) ==> i < self.target_by_peer@.len() && self.target_by_peer@[i as int].peer.key() == k,
            r is None ==> forall|j: int| 0 <= j < self.target_by_peer@.len() ==> (#[trigger] self.target_by_peer@[j]).peer.key() != k,
    {
        let mut i: usize = 0;
        while i < self.target_by_peer.len()
            invariant
                i <= self.target_by_peer@.len(),
                forall|j: int| 0 <= j < i ==> (#[trigger] self.target_by_peer@[j]).peer.key() != k,
            decreases self.target_by_peer@.len() - i,
        {
            if self.target_by_peer[i].peer.key_value() == k {
                return Some(i);
            }
            i = i + 1;
        }
        None
    }

    fn find_discovered(&self, t: ConnectTarget) -> (r: Option<usize>)
        ensures
            r matches Some(i) ==> i < self.discovered_targets@.len() && self.discovered_targets@[i as int].target == t,
            r is None ==> forall|j: int| 0 <= j < self.discovered_targets@.len() ==> (#[trigger] self.discovered_targets@[j]).target != t,
    {
        let mut i: usize = 0;
        while i < self.discovered_targets.len()
            invariant
                i <= self.discovered_targets@.len(),
                forall|j: int| 0 <= j < i ==> (#[trigger] self.discovered_targets@[j]).target != t,
            decreases self.discovered_targets@.len() - i,
        {
            if self.discovered_targets[i].target == t {
                return Some(i);
            }
            i = i + 1;
        }
        None
    }

    /// The target bound to `peer`, if any.
    fn lookup(&self, peer: &NodeId) -> (r: Option<ConnectTarget>)
        requires
            self.wf(),
        ensures
            r == (if self.peers().contains_key(peer.key()) {
                Some(self.peers()[peer.key()])
            } else {
                None
            }),
    {
        match self.find_peer(peer.key_value()) {
            Some(i) => {
                proof {
                    lemma_peer_map_get(self.target_by_peer@, i as int);
                }
                Some(self.target_by_peer[i].target)
            },
            None => {
                proof {
                    lemma_peer_map_absent(self.target_by_peer@, peer.key());
                }
                None
            },
        }
    }

    /// Record `peer_id -> target` after a successful handshake.
    fn register(&mut self, peer_id: NodeId, target: ConnectTarget)
        requires
            old(self).wf(),
        ensures
            final(self).wf(),
            final(self).peers() == old(self).peers().insert(peer_id.key(), target),
            final(self).configured() == old(self).configured(),
            final(self).discovered() == old(self).discovered(),
            final(self).reconnecting() == old(self).reconnecting(),
    {
        let e = PeerTarget { peer: peer_id, target };
        let ghost pre = self.target_by_peer@;
        match self.find_peer(peer_id.key_value()) {
            Some(i) => {
                proof {
                    lemma_peer_map_update(pre, i as int, e);
                }
                self.target_by_peer.set(i, e);
            },
            None => {
                proof {
                    lemma_peer_map_update(pre, pre.len() as int, e);
                }
                self.target_by_peer.push(e);
            },
        }
    }

    /// The configured target of `peer_id`, if it is bound to one.
    fn configured_target(&self, peer_id: &NodeId) -> (r: Option<ConnectTarget>)
        requires
            self.wf(),
        ensures
            r == (if self.peers().contains_key(peer_id.key()) && self.configured().contains(
                self.peers()[peer_id.key()],
            ) {
                Some(self.peers()[peer_id.key()])
            } else {
                None
            }),
    {
        match self.lookup(peer_id) {
            Some(t) => {
                match contains_target(&self.configured_targets, t) {
                    Some(_) => Some(t),
                    None => None,
                }
            },
            None => None,
        }
    }

    /// Register a target that came from dynamic discovery at time `now`,
    /// refreshing its last observation.
    fn register_discovered(&mut self, target: ConnectTarget, now: u64)
        requires
            old(self).wf(),
        ensures
            final(self).wf(),
            final(self).discovered() == old(self).discovered().insert(target, now),
            final(self).configured() == old(self).configured(),
            final(self).peers() == old(self).peers(),
            final(self).reconnecting() == old(self).reconnecting(),
    {
        let e = DiscoveredTarget { target, last_seen: now };
        let ghost pre = self.discovered_targets@;
        match self.find_discovered(target) {
            Some(i) => {
                proof {
                    lemma_discovered_update(pre, i as int, e);
                }
                self.discovered_targets.set(i, e);
            },
            None => {
                proof {
                    lemma_discovered_update(pre, pre.len() as int, e);
                }
                self.discovered_targets.push(e);
            },
        }
    }

    /// Drop discovered targets last observed more than `lifetime` before
    /// `now`.  Returns the number of evicted targets.
    fn expire_discovered_targets(&mut self, lifetime: u64, now: u64) -> (evicted: usize)
        requires
            old(self).wf(),
        ensures
            final(self).wf(),
            final(self).discovered() == old(self).discovered().restrict(
                old(self).discovered().dom().filter(
                    |t: ConnectTarget| elapsed(old(self).discovered()[t], now) <= lifetime,
                ),
            ),
            final(self).discovered().dom().finite(),
            evicted == old(self).discovered().dom().len() - final(self).discovered().dom().len(),
            final(self).configured() == old(self).configured(),
            final(self).peers() == old(self).peers(),
            final(self).reconnecting() == old(self).reconnecting(),
    {
        let ghost pre = self.discovered_targets@;
        let mut kept: Vec<DiscoveredTarget> = Vec::new();
        let mut i: usize = 0;
        while i < self.discovered_targets.len()
            invariant
                i <= pre.len(),
                self.discovered_targets@ == pre,
                distinct_discovered(pre),
                distinct_discovered(kept@),
                kept@.len() <= i,
                forall|k: int| 0 <= k < kept@.len() ==> exists|j: int| 0 <= j < i && #[trigger] kept@[k] == pre[j],
                forall|j: int| 0 <= j < i && elapsed(pre[j].last_seen, now) <= lifetime ==> exists|k: int| 0 <= k < kept@.len() && kept@[k] == #[trigger] pre[j],
                forall|k: int| 0 <= k < kept@.len() ==> elapsed((#[trigger] kept@[k]).last_seen, now) <= lifetime,
            decreases pre.len() - i,
        {
            let d = self.discovered_targets[i];
            let age = if now >= d.last_seen { now - d.last_seen } else { 0 };
            if age <= lifetime {
                let ghost before = kept@;
                kept.push(d);
                proof {
                    assert forall|a: int, b: int| 0 <= a < b < kept@.len() implies (#[trigger] kept@[a]).target != (#[trigger] kept@[b]).target by {
                        if b == kept@.len() - 1 {
                            let ja = choose|j: int| 0 <= j < i && before[a] == pre[j];
                            assert(kept@[a] == before[a]);
                            assert(pre[ja].target != pre[i as int].target);
                        } else {
                            assert(kept@[a] == before[a] && kept@[b] == before[b]);
                        }
                    }
                    assert forall|k: int| 0 <= k < kept@.len() implies exists|j: int| 0 <= j < i + 1 && #[trigger] kept@[k] == pre[j] by {
                        if k == kept@.len() - 1 {
                            assert(kept@[k] == pre[i as int]);
                        } else {
                            assert(kept@[k] == before[k]);
                        }
                    }
                    assert forall|j: int| 0 <= j < i + 1 && elapsed(pre[j].last_seen, now) <= lifetime implies exists|k: int| 0 <= k < kept@.len() && kept@[k] == #[trigger] pre[j] by {
                        if j == i {
                            assert(kept@[kept@.len() - 1] == pre[j]);
                        } else {
                            let k = choose|k: int| 0 <= k < before.len() && before[k] == pre[j];
                            assert(kept@[k] == before[k]);
                        }
                    }
                }
            }
            i = i + 1;
        }
        let before_len = self.discovered_targets.len();
        let after_len = kept.len();
        proof {
            let om = discovered_map(pre);
            let nm = discovered_map(kept@);
            let rm = om.restrict(om.dom().filter(|t: ConnectTarget| elapsed(om[t], now) <= lifetime));
            assert forall|t: ConnectTarget| #[trigger] nm.contains_key(t) == rm.contains_key(t) by {
                if nm.contains_key(t) {
                    let k = choose|k: int| 0 <= k < kept@.len() && (#[trigger] kept@[k]).target == t;
                    let j = choose|j: int| 0 <= j < i && kept@[k] == pre[j];
                    lemma_discovered_get(pre, j);
                }
                if rm.contains_key(t) {
                    let j = choose|j: int| 0 <= j < pre.len() && (#[trigger] pre[j]).target == t;
                    lemma_discovered_get(pre, j);
                    let k = choose|k: int| 0 <= k < kept@.len() && kept@[k] == pre[j];
                    assert(kept@[k].target == t);
                }
            }
            assert forall|t: ConnectTarget| #[trigger] nm.contains_key(t) implies nm[t] == rm[t] by {
                let k = choose|k: int| 0 <= k < kept@.len() && (#[trigger] kept@[k]).target == t;
                lemma_discovered_get(kept@, k);
                let j = choose|j: int| 0 <= j < i && kept@[k] == pre[j];
                lemma_discovered_get(pre, j);
            }
            assert(nm =~= rm);
            lemma_discovered_dom(pre);
            lemma_discovered_dom(kept@);
        }
        self.discovered_targets = kept;
        before_len - after_len
    }

    /// The target of `peer_id` when it is a configured or discovered peer:
    /// both are reconnected on loss.
    fn is_reconnectable_target(&self, peer_id: &NodeId) -> (r: Option<ConnectTarget>)
        requires
            self.wf(),
        ensures
            r == (if self.peers().contains_key(peer_id.key()) && (self.configured().contains(
                self.peers()[peer_id.key()],
            ) || self.discovered().contains_key(self.peers()[peer_id.key()])) {
                Some(self.peers()[peer_id.key()])
            } else {
                None
            }),
    {
        match self.lookup(peer_id) {
            Some(t) => {
                let configured = contains_target(&self.configured_targets, t).is_some();
                let discovered = match self.find_discovered(t) {
                    Some(j) => {
                        proof {
                            lemma_discovered_get(self.discovered_targets@, j as int);
                        }
                        true
                    },
                    None => false,
                };
                if configured || discovered {
                    Some(t)
                } else {
                    None
                }
            },
            None => None,
        }
    }

    /// Snapshot metadata for a connected peer: its target and whether that
    /// target is configured and/or discovered.
    fn peer_info(&self, peer_id: &NodeId) -> (r: Option<(ConnectTarget, bool, bool)>)
        requires
            self.wf(),
        ensures
            r == (if self.peers().contains_key(peer_id.key()) {
                let t = self.peers()[peer_id.key()];
                Some((t, self.configured().contains(t), self.discovered().contains_key(t)))
            } else {
                None
            }),
    {
        match self.lookup(peer_id) {
            Some(t) => {
                let configured = contains_target(&self.configured_targets, t).is_some();
                let discovered = match self.find_discovered(t) {
                    Some(j) => {
                        proof {
                            lemma_discovered_get(self.discovered_targets@, j as int);
                        }
                        true
                    },
                    None => false,
                };
                Some((t, configured, discovered))
            },
            None => None,
        }
    }

    /// Claim the reconnect slot for `target`.  Returns `true` if a new
    /// reconnect task should be spawned, meaning none was already running.
    fn begin_reconnect(&mut self, target: ConnectTarget) -> (claimed: bool)
        requires
            old(self).wf(),
        ensures
            final(self).wf(),
            claimed == !old(self).reconnecting().contains(target),
            final(self).reconnecting() == old(self).reconnecting().insert(target),
            final(self).configured() == old(self).configured(),
            final(self).discovered() == old(self).discovered(),
            final(self).peers() == old(self).peers(),
    {
        let ghost pre = self.reconnecting@;
        match contains_target(&self.reconnecting, target) {
            Some(_) => {
                proof {
                    assert(pre.to_set().insert(target) =~= pre.to_set());
                }
                false
            },
            None => {
                self.reconnecting.push(target);
                proof {
                    pre.lemma_push_to_set_commute(target);
                    assert(self.reconnecting@ == pre.push(target));
                    let r = self.reconnecting@;
                    assert forall|a: int, b: int| 0 <= a < b < r.len() implies r[a] != r[b] by {
                        if b == pre.len() {
                            assert(r[a] == pre[a]);
                        } else {
                            assert(r[a] == pre[a] && r[b] == pre[b]);
                        }
                    }
                }
                true
            },
        }
    }

    /// Release the reconnect slot when the task finishes.
    fn end_reconnect(&mut self, target: ConnectTarget)
        requires
            old(self).wf(),
        ensures
            final(self).wf(),
            final(self).reconnecting() == old(self).reconnecting().remove(target),
            final(self).configured() == old(self).configured(),
            final(self).discovered() == old(self).discovered(),
            final(self).peers() == old(self).peers(),
    {
        let ghost pre = self.reconnecting@;
        match contains_target(&self.reconnecting, target) {
            Some(i) => {
                proof {
                    assert(pre.no_duplicates());
                    lemma_to_set_remove(pre, i as int);
                }
                self.reconnecting.remove(i);
            },
            None => {
                proof {
                    assert(pre.to_set().remove(target) =~= pre.to_set());
                }
            },
        }
    }

    /// A peer most recently bound to `target`, if any.
    fn peer_id_for_target(&self, target: &ConnectTarget) -> (r: Option<NodeId>)
        requires
            self.wf(),
        ensures
            r matches Some(id) ==> self.peers().contains_key(id.key()) && self.peers()[id.key()]
                == *target,
            r is None ==> forall|k: u128| #[trigger] self.peers().contains_key(k) ==> self.peers()[k] != *target,
    {
        let mut i: usize = 0;
        while i < self.target_by_peer.len()
            invariant
                i <= self.target_by_peer@.len(),
                self.wf(),
                forall|j: int| 0 <= j < i ==> (#[trigger] self.target_by_peer@[j]).target != *target,
            decreases self.target_by_peer@.len() - i,
        {
            if self.target_by_peer[i].target == *target {
                proof {
                    lemma_peer_map_get(self.target_by_peer@, i as int);
                }
                return Some(self.target_by_peer[i].peer);
            }
            i = i + 1;
        }
        proof {
            assert forall|k: u128| #[trigger] self.peers().contains_key(k) implies self.peers()[k] != *target by {
                let j = choose|j: int| 0 <= j < self.target_by_peer@.len() && (#[trigger] self.target_by_peer@[j]).peer.key() == k;
                lemma_peer_map_get(self.target_by_peer@, j);
            }
        }
        None
    }
}

/// Tracks configured peer targets and drives exponential-backoff reconnects.
pub struct ReconnectManager {
    targets: Targets,
}

impl ReconnectManager {
    #[verifier::type_invariant]
    spec fn inv(&self) -> bool {
        self.targets.wf()
    }

    fn take_targets(&mut self) -> (l: Targets)
        ensures
            l.wf(),
            l == old(self).targets,
    {
        proof {
            use_type_invariant(&*self);
        }
        let mut l = Targets::placeholder();
        std::mem::swap(&mut l, &mut self.targets);
        l
    }

    pub closed spec fn configured(&self) -> Set<ConnectTarget> {
        self.targets.configured()
    }

    pub closed spec fn discovered(&self) -> Map<ConnectTarget, u64> {
        self.targets.discovered()
    }

    pub closed spec fn peers(&self) -> Map<u128, ConnectTarget> {
        self.targets.peers()
    }

    pub closed spec fn reconnecting(&self) -> Set<ConnectTarget> {
        self.targets.reconnecting()
    }

    pub fn new(targets: &Vec<ConnectTarget>) -> (m: ReconnectManager)
        ensures
            m.configured() == targets@.to_set(),
            m.discovered() == Map::<ConnectTarget, u64>::empty(),
            m.peers() == Map::<u128, ConnectTarget>::empty(),
            m.reconnecting() == Set::<ConnectTarget>::empty(),
    {
        ReconnectManager { targets: Targets::new(targets) }
    }

    /// Record `peer_id -> target` after a successful handshake.
    pub fn register(&mut self, peer_id: NodeId, target: ConnectTarget)
        ensures
            final(self).peers() == old(self).peers().insert(peer_id.key(), target),
            final(self).configured() == old(self).configured(),
            final(self).discovered() == old(self).discovered(),
            final(self).reconnecting() == old(self).reconnecting(),
    {
        let mut l = self.take_targets();
        l.register(peer_id, target);
        self.targets = l;
    }

    /// The configured target of `peer_id`, if it is bound to one.
    pub fn configured_target(&self, peer_id: &NodeId) -> (r: Option<ConnectTarget>)
        ensures
            r == (if self.peers().contains_key(peer_id.key()) && self.configured().contains(
                self.peers()[peer_id.key()],
            ) {
                Some(self.peers()[peer_id.key()])
            } else {
                None
            }),
    {
        proof {
            use_type_invariant(self);
        }
        self.targets.configured_target(peer_id)
    }

    /// Register a target that came from dynamic discovery at time `now`,
    /// refreshing its last observation.
    pub fn register_discovered(&mut self, target: ConnectTarget, now: u64)
        ensures
            final(self).discovered() == old(self).discovered().insert(target, now),
            final(self).configured() == old(self).configured(),
            final(self).peers() == old(self).peers(),
            final(self).reconnecting() == old(self).reconnecting(),
    {
        let mut l = self.take_targets();
        l.register_discovered(target, now);
        self.targets = l;
    }

    /// Drop discovered targets last observed more than `lifetime` before
    /// `now`.  Returns the number of evicted targets.
    pub fn expire_discovered_targets(&mut self, lifetime: u64, now: u64) -> (evicted: usize)
        ensures
            final(self).discovered() == old(self).discovered().restrict(
                old(self).discovered().dom().filter(
                    |t: ConnectTarget| elapsed(old(self).discovered()[t], now) <= lifetime,
                ),
            ),
            final(self).discovered().dom().finite(),
            evicted == old(self).discovered().dom().len() - final(self).discovered().dom().len(),
            final(self).configured() == old(self).configured(),
            final(self).peers() == old(self).peers(),
            final(self).reconnecting() == old(self).reconnecting(),
    {
        let mut l = self.take_targets();
        let r = l.expire_discovered_targets(lifetime, now);
        self.targets = l;
        r
    }

    /// The target of `peer_id` when it is a configured or discovered peer:
    /// both are reconnected on loss.
    pub fn is_reconnectable_target(&self, peer_id: &NodeId) -> (r: Option<ConnectTarget>)
        ensures
            r == (if self.peers().contains_key(peer_id.key()) && (self.configured().contains(
                self.peers()[peer_id.key()],
            ) || self.discovered().contains_key(self.peers()[peer_id.key()])) {
                Some(self.peers()[peer_id.key()])
            } else {
                None
            }),
    {
        proof {
            use_type_invariant(self);
        }
        self.targets.is_reconnectable_target(peer_id)
    }

    /// Snapshot metadata for a connected peer: its target and whether that
    /// target is configured and/or discovered.
    pub fn peer_info(&self, peer_id: &NodeId) -> (r: Option<(ConnectTarget, bool, bool)>)
        ensures
            r == (if self.peers().contains_key(peer_id.key()) {
                let t = self.peers()[peer_id.key()];
                Some((t, self.configured().contains(t), self.discovered().contains_key(t)))
            } else {
                None
            }),
    {
        proof {
            use_type_invariant(self);
        }
        self.targets.peer_info(peer_id)
    }

    /// Claim the reconnect slot for `target`.  Returns `true` if a new
    /// reconnect task should be spawned, meaning none was already running.
    pub fn begin_reconnect(&mut self, target: ConnectTarget) -> (claimed: bool)
        ensures
            claimed == !old(self).reconnecting().contains(target),
            final(self).reconnecting() == old(self).reconnecting().insert(target),
            final(self).configured() == old(self).configured(),
            final(self).discovered() == old(self).discovered(),
            final(self).peers() == old(self).peers(),
    {
        let mut l = self.take_targets();
        let r = l.begin_reconnect(target);
        self.targets = l;
        r
    }

    /// Release the reconnect slot when the task finishes.
    pub fn end_reconnect(&mut self, target: ConnectTarget)
        ensures
            final(self).reconnecting() == old(self).reconnecting().remove(target),
            final(self).configured() == old(self).configured(),
            final(self).discovered() == old(self).discovered(),
            final(self).peers() == old(self).peers(),
    {
        let mut l = self.take_targets();
        l.end_reconnect(target);
        self.targets = l;
    }

    /// A peer most recently bound to `target`, if any.
    pub fn peer_id_for_target(&self, target: &ConnectTarget) -> (r: Option<NodeId>)
        ensures
            r matches Some(id) ==> self.peers().contains_key(id.key()) && self.peers()[id.key()]
                == *target,
            r is None ==> forall|k: u128| #[trigger] self.peers().contains_key(k) ==> self.peers()[k] != *target,
    {
        proof {
            use_type_invariant(self);
        }
        self.targets.peer_id_for_target(target)
    }
}


/// A reconnect slot is held by one task at a time: once `begin_reconnect`
/// claimed `target`, another claim fails until `end_reconnect` releases it,
/// after which it succeeds again.
pub proof fn lemma_reconnect_slot_once(
    start: ReconnectManager,
    claimed: ReconnectManager,
    released: ReconnectManager,
    target: ConnectTarget,
)
    requires
        claimed.reconnecting() == start.reconnecting().insert(target),
        released.reconnecting() == claimed.reconnecting().remove(target),
    ensures
        claimed.reconnecting().contains(target),
        !released.reconnecting().contains(target),
        released.reconnecting() == start.reconnecting().remove(target),
{
    assert(released.reconnecting() =~= start.reconnecting().remove(target));
}

/// First reconnect delay, in milliseconds.
pub const BACKOFF_BASE_MS: u64 = 1_000;

/// Largest reconnect delay before jitter, in milliseconds.
pub const BACKOFF_MAX_MS: u64 = 10_000;

/// Base delay of reconnect attempt `attempt`: one second doubled per
/// attempt, capped at ten seconds.
pub open spec fn backoff_base(attempt: nat) -> int {
    let grown = BACKOFF_BASE_MS * vstd::arithmetic::power2::pow2(attempt);
    if grown < BACKOFF_MAX_MS {
        grown
    } else {
        BACKOFF_MAX_MS as int
    }
}

proof fn lemma_pow2_step(e: nat)
    ensures
        vstd::arithmetic::power2::pow2(e + 1) == 2 * vstd::arithmetic::power2::pow2(e),
        vstd::arithmetic::power2::pow2(e) >= 1,
{
    vstd::arithmetic::power2::lemma_pow2_unfold(e + 1);
    vstd::arithmetic::power2::lemma_pow2_pos(e);
}

proof fn lemma_pow2_mono(a: nat, b: nat)
    requires
        a <= b,
    ensures
        vstd::arithmetic::power2::pow2(a) <= vstd::arithmetic::power2::pow2(b),
    decreases b - a,
{
    if a < b {
        lemma_pow2_mono(a, (b - 1) as nat);
        lemma_pow2_step((b - 1) as nat);
    }
}

/// Base delay in ms for `attempt` without jitter: 1 s * 2^attempt, capped
/// at 10 s.
pub fn backoff_base_ms(attempt: u32) -> (ms: u64)
    ensures
        ms == backoff_base(attempt as nat),
        BACKOFF_BASE_MS <= ms <= BACKOFF_MAX_MS,
{
    let mut ms: u64 = BACKOFF_BASE_MS;
    let mut i: u32 = 0;
    proof {
        vstd::arithmetic::power2::lemma2_to64();
    }
    while i < attempt && ms < BACKOFF_MAX_MS
        invariant
            i <= attempt,
            ms == BACKOFF_BASE_MS * vstd::arithmetic::power2::pow2(i as nat),
            BACKOFF_BASE_MS <= ms < 2 * BACKOFF_MAX_MS,
        decreases attempt - i,
    {
        proof {
            lemma_pow2_step(i as nat);
        }
        ms = ms * 2;
        i = i + 1;
    }
    proof {
        lemma_pow2_mono(i as nat, attempt as nat);
        assert(BACKOFF_BASE_MS * vstd::arithmetic::power2::pow2(i as nat) <= BACKOFF_BASE_MS
            * vstd::arithmetic::power2::pow2(attempt as nat)) by (nonlinear_arith)
            requires
                vstd::arithmetic::power2::pow2(i as nat) <= vstd::arithmetic::power2::pow2(
                    attempt as nat,
                ),
        ;
    }
    if ms < BACKOFF_MAX_MS {
        ms
    } else {
        BACKOFF_MAX_MS
    }
}

/// A uniformly drawn integer in `[lo, hi]` (`rand::thread_rng` and
/// `Rng::gen_range` over an inclusive range).  The draw is random, so only
/// its bounds are stated.
#[verifier::external_body]
fn random_in(lo: i64, hi: i64) -> (j: i64)
    requires
        lo <= hi,
    ensures
        lo <= j <= hi,
{
    rand::thread_rng().gen_range(lo..=hi)
}

/// Reconnect delay for `attempt` with a drawn `jitter`, in milliseconds:
/// the base delay moved by the jitter, at least one millisecond.
pub fn jittered_backoff(attempt: u32, jitter: i64) -> (ms: u64)
    requires
        -(backoff_base(attempt as nat) / 4) <= jitter <= backoff_base(attempt as nat) / 4,
    ensures
        ms == (if backoff_base(attempt as nat) + jitter < 1 {
            1
        } else {
            backoff_base(attempt as nat) + jitter
        }),
{
    let base = backoff_base_ms(attempt);
    let total: i64 = base as i64 + jitter;
    if total < 1 {
        1
    } else {
        total as u64
    }
}

/// Reconnect delay for `attempt`, in milliseconds: the base delay with a
/// uniform jitter of up to a quarter of it either way.
pub fn backoff_duration(attempt: u32) -> (ms: u64)
    ensures
        backoff_base(attempt as nat) - backoff_base(attempt as nat) / 4 <= ms,
        ms <= backoff_base(attempt as nat) + backoff_base(attempt as nat) / 4,
{
    let base = backoff_base_ms(attempt);
    let range: i64 = (base / 4) as i64;
    let jitter = random_in(-range, range);
    jittered_backoff(attempt, jitter)
}

/// How one reconnect attempt ended.
#[derive(Debug, Clone, Copy, PartialEq, Eq)]
pub enum AttemptOutcome {
    /// The daemon is shutting down.
    Cancelled,
    /// A session with the peer behind the target is already up.
    SessionActive,
    /// The transport could not connect (or timed out).
    ConnectFailed,
    /// The handshake completed and identified this peer.
    Connected(NodeId),
    /// The handshake failed.
    HandshakeFailed,
    /// The handshake was abandoned because an inbound one from the same
    /// peer won the race.
    Superseded,
}

/// What the reconnect loop does next.
#[derive(Debug, Clone, Copy, PartialEq, Eq)]
pub enum ReconnectStep {
    /// Wait, then make attempt number `attempt`.
    Retry { attempt: u32 },
    /// Stop and release the reconnect slot; bind the peer to the target
    /// first when one is given.
    Finish { register: Option<NodeId> },
}

/// Whether attempt `attempt` may run under a limit of `max_attempts`.
pub fn reconnect_allowed(attempt: u32, max_attempts: u32) -> (ok: bool)
    ensures
        ok == (attempt < max_attempts),
{
    attempt < max_attempts
}

/// Decision after attempt `attempt` ended with `outcome`: failures retry
/// with the next attempt number while the limit allows it; success,
/// cancellation, an already active session and a lost race stop the loop.
pub fn reconnect_next(attempt: u32, max_attempts: u32, outcome: AttemptOutcome) -> (step:
    ReconnectStep)
    requires
        attempt < max_attempts,
    ensures
        step == (match outcome {
            AttemptOutcome::ConnectFailed | AttemptOutcome::HandshakeFailed => if attempt + 1
                < max_attempts {
                ReconnectStep::Retry { attempt: (attempt + 1) as u32 }
            } else {
                ReconnectStep::Finish { register: None }
            },
            AttemptOutcome::Connected(peer) => ReconnectStep::Finish { register: Some(peer) },
            _ => ReconnectStep::Finish { register: None },
        }),
{
    match outcome {
        AttemptOutcome::ConnectFailed | AttemptOutcome::HandshakeFailed => {
            let next = attempt + 1;
            if reconnect_allowed(next, max_attempts) {
                ReconnectStep::Retry { attempt: next }
            } else {
                ReconnectStep::Finish { register: None }
            }
        },
        AttemptOutcome::Connected(peer) => ReconnectStep::Finish { register: Some(peer) },
        _ => ReconnectStep::Finish { register: None },
    }
}

/// A `[[peers]]` entry after name resolution and address parsing.
#[derive(Debug, Clone, Copy, PartialEq, Eq, Structural)]
pub enum ConfiguredPeer {
    /// A TCP peer and the first address its name resolved to (`None`:
    /// resolution failed or gave nothing).
    Tcp(Option<SocketAddress>),
    /// A Bluetooth PAN peer and its IP address (`None`: not an address).
    Bluetooth(Option<crate::net_addr::IpAddress>),
}

/// Why the configured peers cannot be used; each names the entry.
#[derive(Debug, Clone, Copy, PartialEq, Eq, Structural)]
pub enum PeerConfigError {
    /// A TCP peer's address did not resolve.
    Unresolved { index: usize },
    /// A Bluetooth peer while Bluetooth is disabled.
    BluetoothDisabled { index: usize },
    /// A Bluetooth peer whose IP is not an address.
    BadBluetoothIp { index: usize },
}

/// Targets derived from the configured peers.
pub struct ResolvedPeerTargets {
    /// Dialled at startup: the TCP peers.
    pub startup_targets: Vec<ConnectTarget>,
    /// Reconnected when lost: every peer.
    pub reconnect_targets: Vec<ConnectTarget>,
    /// Addresses of the Bluetooth peers, on the transport's listen port.
    pub bluetooth_static_targets: Vec<SocketAddress>,
}

/// The error of one entry, if any (Bluetooth being disabled is reported
/// before a bad address).
pub open spec fn entry_error(p: ConfiguredPeer, index: usize, bluetooth_enabled: bool) -> Option<
    PeerConfigError,
> {
    match p {
        ConfiguredPeer::Tcp(None) => Some(PeerConfigError::Unresolved { index }),
        ConfiguredPeer::Tcp(Some(_)) => None,
        ConfiguredPeer::Bluetooth(ip) => if !bluetooth_enabled {
            Some(PeerConfigError::BluetoothDisabled { index })
        } else if ip is None {
            Some(PeerConfigError::BadBluetoothIp { index })
        } else {
            None
        },
    }
}

/// The reconnect target of a usable entry.
pub open spec fn entry_target(p: ConfiguredPeer, listen_port: u16) -> ConnectTarget {
    match p {
        ConfiguredPeer::Tcp(a) => ConnectTarget::Tcp(a.unwrap()),
        ConfiguredPeer::Bluetooth(ip) => ConnectTarget::BluetoothPan(
            SocketAddress { ip: ip.unwrap(), port: listen_port },
        ),
    }
}

/// Turns the configured peers into connect targets, in order; the first
/// unusable entry stops it with its error.
pub fn resolve_configured_peer_targets(
    peers: &Vec<ConfiguredPeer>,
    bluetooth_enabled: bool,
    listen_port: u16,
) -> (r: Result<ResolvedPeerTargets, PeerConfigError>)
    requires
        peers@.len() <= usize::MAX,
    ensures
        r matches Err(e) ==> exists|i: int|
            0 <= i < peers@.len() && entry_error(peers@[i], i as usize, bluetooth_enabled)
                == Some(e) && forall|j: int|
                0 <= j < i ==> entry_error(#[trigger] peers@[j], j as usize, bluetooth_enabled)
                    is None,
        r is Ok ==> forall|i: int|
            0 <= i < peers@.len() ==> entry_error(#[trigger] peers@[i], i as usize, bluetooth_enabled)
                is None,
        r matches Ok(t) ==> t.reconnect_targets@ == peers@.map_values(
            |p: ConfiguredPeer| entry_target(p, listen_port),
        ),
        r matches Ok(t) ==> t.startup_targets@ == peers@.filter(
            |p: ConfiguredPeer| p is Tcp,
        ).map_values(|p: ConfiguredPeer| entry_target(p, listen_port)),
        r matches Ok(t) ==> t.bluetooth_static_targets@ == peers@.filter(
            |p: ConfiguredPeer| p is Bluetooth,
        ).map_values(|p: ConfiguredPeer| entry_target(p, listen_port).spec_addr()),
{
    let mut startup: Vec<ConnectTarget> = Vec::new();
    let mut reconnect: Vec<ConnectTarget> = Vec::new();
    let mut bluetooth: Vec<SocketAddress> = Vec::new();
    let mut i: usize = 0;
    while i < peers.len()
        invariant
            i <= peers@.len(),
            forall|j: int| 0 <= j < i ==> entry_error(#[trigger] peers@[j], j as usize, bluetooth_enabled) is None,
            reconnect@ == peers@.take(i as int).map_values(
                |p: ConfiguredPeer| entry_target(p, listen_port),
            ),
            startup@ == peers@.take(i as int).filter(|p: ConfiguredPeer| p is Tcp).map_values(
                |p: ConfiguredPeer| entry_target(p, listen_port),
            ),
            bluetooth@ == peers@.take(i as int).filter(|p: ConfiguredPeer| p is Bluetooth).map_values(
                |p: ConfiguredPeer| entry_target(p, listen_port).spec_addr(),
            ),
        decreases peers@.len() - i,
    {
        let p = peers[i];
        let ghost pre = peers@.take(i as int);
        proof {
            assert(peers@.take(i + 1) =~= pre.push(p));
            reveal(Seq::filter);
            assert(pre.push(p).drop_last() =~= pre);
        }
        match p {
            ConfiguredPeer::Tcp(None) => {
                return Err(PeerConfigError::Unresolved { index: i });
            },
            ConfiguredPeer::Tcp(Some(a)) => {
                let t = ConnectTarget::Tcp(a);
                startup.push(t);
                reconnect.push(t);
                proof {
                    assert(pre.push(p).filter(|p: ConfiguredPeer| p is Tcp) == pre.filter(
                        |p: ConfiguredPeer| p is Tcp,
                    ).push(p));
                    assert(pre.push(p).filter(|p: ConfiguredPeer| p is Bluetooth) == pre.filter(
                        |p: ConfiguredPeer| p is Bluetooth,
                    ));
                }
            },
            ConfiguredPeer::Bluetooth(ip) => {
                if !bluetooth_enabled {
                    return Err(PeerConfigError::BluetoothDisabled { index: i });
                }
                match ip {
                    None => {
                        return Err(PeerConfigError::BadBluetoothIp { index: i });
                    },
                    Some(addr) => {
                        let sa = SocketAddress { ip: addr, port: listen_port };
                        reconnect.push(ConnectTarget::BluetoothPan(sa));
                        bluetooth.push(sa);
                        proof {
                            assert(pre.push(p).filter(|p: ConfiguredPeer| p is Tcp) == pre.filter(
                                |p: ConfiguredPeer| p is Tcp,
                            ));
                            assert(pre.push(p).filter(|p: ConfiguredPeer| p is Bluetooth)
                                == pre.filter(|p: ConfiguredPeer| p is Bluetooth).push(p));
                        }
                    },
                }
            },
        }
        proof {
            assert(reconnect@ =~= peers@.take(i + 1).map_values(
                |p: ConfiguredPeer| entry_target(p, listen_port),
            ));
        }
        i = i + 1;
    }
    proof {
        assert(peers@.take(peers@.len() as int) =~= peers@);
    }
    Ok(
        ResolvedPeerTargets {
            startup_targets: startup,
            reconnect_targets: reconnect,
            bluetooth_static_targets: bluetooth,
        },
    )
}

} // verus!
