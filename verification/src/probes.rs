//! Gateway round-trip probes: which gateways are pinged, the pings still
//! awaiting their pong, and the round-trip time a pong yields.
//!
//! Times are monotonic nanosecond counters handed in by the caller.
use vstd::prelude::*;

use crate::auth::contains_node;
use crate::node_id::NodeId;
use crate::reconnect::elapsed;

verus! {

/// How long a ping waits for its pong, in nanoseconds.
pub const PENDING_PING_TTL_NS: u64 = 30_000_000_000;

/// A ping sent to a gateway.
#[derive(Debug, Clone, Copy)]
pub struct PendingPing {
    pub nonce: u64,
    pub gateway: NodeId,
    pub sent_at_ns: u64,
}

pub open spec fn ping_map(v: Seq<PendingPing>) -> Map<u64, PendingPing> {
    Map::new(
        |n: u64| exists|i: int| 0 <= i < v.len() && (#[trigger] v[i]).nonce == n,
        |n: u64| v[choose|i: int| 0 <= i < v.len() && (#[trigger] v[i]).nonce == n],
    )
}

pub open spec fn distinct_nonces(v: Seq<PendingPing>) -> bool {
    forall|i: int, j: int| 0 <= i < j < v.len() ==> (#[trigger] v[i]).nonce != (#[trigger] v[j]).nonce
}

/// Whether a ping sent at `sent_at_ns` still waits for its pong at `now`.
pub open spec fn ping_live(sent_at_ns: u64, now: u64) -> bool {
    elapsed(sent_at_ns, now) < PENDING_PING_TTL_NS
}

/// The pings of `m` still waiting at `now`.
pub open spec fn unexpired(m: Map<u64, PendingPing>, now: u64) -> Map<u64, PendingPing> {
    m.restrict(m.dom().filter(|n: u64| ping_live(m[n].sent_at_ns, now)))
}

/// Round-trip time in whole milliseconds, as a 32-bit count.
pub open spec fn rtt_ms(sent_at_ns: u64, now: u64) -> u32 {
    (elapsed(sent_at_ns, now) / 1_000_000) as u32
}

proof fn lemma_ping_get(v: Seq<PendingPing>, i: int)
    requires
        distinct_nonces(v),
        0 <= i < v.len(),
    ensures
        ping_map(v).contains_key(v[i].nonce),
        ping_map(v)[v[i].nonce] == v[i],
{
    let k = v[i].nonce;
    assert(exists|j: int| 0 <= j < v.len() && (#[trigger] v[j]).nonce == k);
    let c = choose|j: int| 0 <= j < v.len() && (#[trigger] v[j]).nonce == k;
    if c != i {
        if c < i {
            assert(v[c].nonce != v[i].nonce);
        } else {
            assert(v[i].nonce != v[c].nonce);
        }
    }
}

proof fn lemma_ping_update(v: Seq<PendingPing>, i: int, e: PendingPing)
    requires
        distinct_nonces(v),
        0 <= i <= v.len(),
        i < v.len() ==> v[i].nonce == e.nonce,
        i == v.len() ==> forall|j: int| 0 <= j < v.len() ==> (#[trigger] v[j]).nonce != e.nonce,
    ensures
        distinct_nonces(if i < v.len() { v.update(i, e) } else { v.push(e) }),
        ping_map(if i < v.len() { v.update(i, e) } else { v.push(e) }) == ping_map(v).insert(e.nonce, e),
{
    let w = if i < v.len() { v.update(i, e) } else { v.push(e) };
    assert(w[i] == e);
    assert forall|a: int, b: int| 0 <= a < b < w.len() implies (#[trigger] w[a]).nonce != (#[trigger] w[b]).nonce by {
        if a != i && b != i {
            assert(w[a] == v[a] && w[b] == v[b]);
        } else if a == i {
            assert(w[b] == v[b]);
            if i < v.len() {
                assert(v[a].nonce != v[b].nonce);
            }
        } else {
            assert(w[a] == v[a]);
            if i < v.len() {
                assert(v[a].nonce != v[b].nonce);
            }
        }
    }
    let m = ping_map(v).insert(e.nonce, e);
    assert forall|k: u64| #[trigger] ping_map(w).contains_key(k) == m.contains_key(k) by {
        if k == e.nonce {
            assert(w[i].nonce == k);
        } else if m.contains_key(k) {
            let j = choose|j: int| 0 <= j < v.len() && (#[trigger] v[j]).nonce == k;
            assert(w[j] == v[j]);
        } else if ping_map(w).contains_key(k) {
            let j = choose|j: int| 0 <= j < w.len() && (#[trigger] w[j]).nonce == k;
            assert(j != i);
            assert(w[j] == v[j]);
        }
    }
    assert forall|k: u64| #[trigger] ping_map(w).contains_key(k) implies ping_map(w)[k] == m[k] by {
        if k == e.nonce {
            lemma_ping_get(w, i);
        } else {
            let j = choose|j: int| 0 <= j < w.len() && (#[trigger] w[j]).nonce == k;
            lemma_ping_get(w, j);
            assert(j != i);
            assert(w[j] == v[j]);
            lemma_ping_get(v, j);
        }
    }
    assert(ping_map(w) =~= m);
}

proof fn lemma_ping_remove(v: Seq<PendingPing>, i: int)
    requires
        distinct_nonces(v),
        0 <= i < v.len(),
    ensures
        distinct_nonces(v.remove(i)),
        ping_map(v.remove(i)) == ping_map(v).remove(v[i].nonce),
{
    let w = v.remove(i);
    let gone = v[i].nonce;
    assert forall|a: int, b: int| 0 <= a < b < w.len() implies (#[trigger] w[a]).nonce != (#[trigger] w[b]).nonce by {
        let a2 = if a < i { a } else { a + 1 };
        let b2 = if b < i { b } else { b + 1 };
        assert(w[a] == v[a2] && w[b] == v[b2]);
        assert(v[a2].nonce != v[b2].nonce);
    }
    let m = ping_map(v).remove(gone);
    assert forall|k: u64| #[trigger] ping_map(w).contains_key(k) == m.contains_key(k) by {
        if ping_map(w).contains_key(k) {
            let j = choose|j: int| 0 <= j < w.len() && (#[trigger] w[j]).nonce == k;
            let j2 = if j < i { j } else { j + 1 };
            assert(w[j] == v[j2]);
            if k == gone {
                if j2 < i {
                    assert(v[j2].nonce != v[i].nonce);
                } else {
                    assert(v[i].nonce != v[j2].nonce);
                }
            }
        }
        if m.contains_key(k) {
            let j = choose|j: int| 0 <= j < v.len() && (#[trigger] v[j]).nonce == k;
            assert(j != i);
            if j < i {
                assert(w[j] == v[j]);
            } else {
                assert(w[j - 1] == v[j]);
            }
        }
    }
    assert forall|k: u64| #[trigger] ping_map(w).contains_key(k) implies ping_map(w)[k] == m[k] by {
        let j = choose|j: int| 0 <= j < w.len() && (#[trigger] w[j]).nonce == k;
        let j2 = if j < i { j } else { j + 1 };
        assert(w[j] == v[j2]);
        lemma_ping_get(w, j);
        lemma_ping_get(v, j2);
    }
    assert(ping_map(w) =~= m);
}

/// The list behind a [`PendingPings`].
struct PingList {
    pings: Vec<PendingPing>,
}

impl PingList {
    spec fn pending(&self) -> Map<u64, PendingPing> {
        ping_map(self.pings@)
    }

    spec fn wf(&self) -> bool {
        distinct_nonces(self.pings@)
    }

    fn new() -> (p: PingList)
        ensures
            p.wf(),
            p.pending() == Map::<u64, PendingPing>::empty(),
    {
        let p = PingList { pings: Vec::new() };
        proof {
            assert(p.pending() =~= Map::<u64, PendingPing>::empty());
        }
        p
    }

    fn find(&self, nonce: u64) -> (r: Option<usize>)
        ensures
            r matches Some(i) ==> i < self.pings@.len() && self.pings@[i as int].nonce == nonce,
            r is None ==> forall|j: int| 0 <= j < self.pings@.len() ==> (#[trigger] self.pings@[j]).nonce != nonce,
    {
        let mut i: usize = 0;
        while i < self.pings.len()
            invariant
                i <= self.pings@.len(),
                forall|j: int| 0 <= j < i ==> (#[trigger] self.pings@[j]).nonce != nonce,
            decreases self.pings@.len() - i,
        {
            if self.pings[i].nonce == nonce {
                return Some(i);
            }
            i = i + 1;
        }
        None
    }

    /// Drops the pings whose pong has not come within the TTL.
    fn expire(&mut self, now: u64)
        requires
            old(self).wf(),
        ensures
            final(self).wf(),
            final(self).pending() == unexpired(old(self).pending(), now),
    {
        let ghost pre = self.pings@;
        let mut kept: Vec<PendingPing> = Vec::new();
        let mut i: usize = 0;
        while i < self.pings.len()
            invariant
                i <= pre.len(),
                self.pings@ == pre,
                distinct_nonces(pre),
                distinct_nonces(kept@),
                forall|k: int| 0 <= k < kept@.len() ==> exists|j: int| 0 <= j < i && #[trigger] kept@[k] == pre[j],
                forall|j: int| 0 <= j < i && ping_live(pre[j].sent_at_ns, now) ==> exists|k: int| 0 <= k < kept@.len() && kept@[k] == #[trigger] pre[j],
                forall|k: int| 0 <= k < kept@.len() ==> ping_live((#[trigger] kept@[k]).sent_at_ns, now),
            decreases pre.len() - i,
        {
            let p = self.pings[i];
            let age = if now >= p.sent_at_ns { now - p.sent_at_ns } else { 0 };
            if age < PENDING_PING_TTL_NS {
                let ghost before = kept@;
                kept.push(p);
                proof {
                    assert forall|a: int, b: int| 0 <= a < b < kept@.len() implies (#[trigger] kept@[a]).nonce != (#[trigger] kept@[b]).nonce by {
                        if b == kept@.len() - 1 {
                            let ja = choose|j: int| 0 <= j < i && before[a] == pre[j];
                            assert(kept@[a] == before[a]);
                            assert(pre[ja].nonce != pre[i as int].nonce);
                        } else {
                            assert(kept@[a] == before[a] && kept@[b] == before[b]);
                        }
                    }
                    assert forall|k: int| 0 <= k < kept@.len() implies exists|j: int| 0 <= j < i + 1 && #[trigger] kept@[k] == pre[j] by {
                        if k == kept@.len() - 1 {
                            assert(kept@[k] == pre[i as int]);
                        } else {
                            assert(kept@[k] == before[k]);
                        }
                    }
                    assert forall|j: int| 0 <= j < i + 1 && ping_live(pre[j].sent_at_ns, now) implies exists|k: int| 0 <= k < kept@.len() && kept@[k] == #[trigger] pre[j] by {
                        if j == i {
                            assert(kept@[kept@.len() - 1] == pre[j]);
                        } else {
                            let k = choose|k: int| 0 <= k < before.len() && before[k] == pre[j];
                            assert(kept@[k] == before[k]);
                        }
                    }
                }
            }
            i = i + 1;
        }
        proof {
            let om = ping_map(pre);
            let nm = ping_map(kept@);
            let rm = unexpired(om, now);
            assert forall|n: u64| #[trigger] nm.contains_key(n) == rm.contains_key(n) by {
                if nm.contains_key(n) {
                    let k = choose|k: int| 0 <= k < kept@.len() && (#[trigger] kept@[k]).nonce == n;
                    let j = choose|j: int| 0 <= j < i && kept@[k] == pre[j];
                    lemma_ping_get(pre, j);
                }
                if rm.contains_key(n) {
                    let j = choose|j: int| 0 <= j < pre.len() && (#[trigger] pre[j]).nonce == n;
                    lemma_ping_get(pre, j);
                    let k = choose|k: int| 0 <= k < kept@.len() && kept@[k] == pre[j];
                    assert(kept@[k].nonce == n);
                }
            }
            assert forall|n: u64| #[trigger] nm.contains_key(n) implies nm[n] == rm[n] by {
                let k = choose|k: int| 0 <= k < kept@.len() && (#[trigger] kept@[k]).nonce == n;
                lemma_ping_get(kept@, k);
                let j = choose|j: int| 0 <= j < i && kept@[k] == pre[j];
                lemma_ping_get(pre, j);
            }
            assert(nm =~= rm);
        }
        self.pings = kept;
    }

    /// Records a ping with `nonce` sent to `gateway` at `now`; a ping
    /// already filed under the same nonce is replaced.
    fn record(&mut self, nonce: u64, gateway: NodeId, now: u64)
        requires
            old(self).wf(),
        ensures
            final(self).wf(),
            final(self).pending() == old(self).pending().insert(
                nonce,
                PendingPing { nonce, gateway, sent_at_ns: now },
            ),
    {
        let e = PendingPing { nonce, gateway, sent_at_ns: now };
        let ghost before = self.pings@;
        match self.find(nonce) {
            Some(i) => {
                proof {
                    lemma_ping_update(before, i as int, e);
                }
                self.pings.set(i, e);
            },
            None => {
                proof {
                    lemma_ping_update(before, before.len() as int, e);
                }
                self.pings.push(e);
            },
        }
    }

    /// A pong with `nonce` arrived at `now`: the matching ping is taken
    /// out, giving its gateway and the round-trip time; an unknown nonce
    /// gives `None` and changes nothing.
    fn take_pong(&mut self, nonce: u64, now: u64) -> (r: Option<(NodeId, u32)>)
        requires
            old(self).wf(),
        ensures
            final(self).wf(),
            final(self).pending() == old(self).pending().remove(nonce),
            r == (if old(self).pending().contains_key(nonce) {
                Some(
                    (
                        old(self).pending()[nonce].gateway,
                        rtt_ms(old(self).pending()[nonce].sent_at_ns, now),
                    ),
                )
            } else {
                None::<(NodeId, u32)>
            }),
    {
        let ghost before = self.pings@;
        match self.find(nonce) {
            Some(i) => {
                proof {
                    lemma_ping_get(before, i as int);
                    lemma_ping_remove(before, i as int);
                }
                let p = self.pings.remove(i);
                let age = if now >= p.sent_at_ns { now - p.sent_at_ns } else { 0 };
                let ms = age / 1_000_000;
                Some((p.gateway, ms as u32))
            },
            None => {
                proof {
                    assert(ping_map(before).remove(nonce) =~= ping_map(before));
                }
                None
            },
        }
    }
}

/// Pings awaiting their pong, by nonce.
pub struct PendingPings {
    pings: PingList,
}

impl PendingPings {
    #[verifier::type_invariant]
    spec fn inv(&self) -> bool {
        self.pings.wf()
    }

    fn take_pings(&mut self) -> (l: PingList)
        ensures
            l.wf(),
            l == old(self).pings,
    {
        proof {
            use_type_invariant(&*self);
        }
        let mut l = PingList::new();
        std::mem::swap(&mut l, &mut self.pings);
        l
    }

    pub closed spec fn pending(&self) -> Map<u64, PendingPing> {
        self.pings.pending()
    }

    pub fn new() -> (p: PendingPings)
        ensures
            p.pending() == Map::<u64, PendingPing>::empty(),
    {
        PendingPings { pings: PingList::new() }
    }

    /// Drops the pings whose pong has not come within the TTL.
    pub fn expire(&mut self, now: u64)
        ensures
            final(self).pending() == unexpired(old(self).pending(), now),
    {
        let mut l = self.take_pings();
        l.expire(now);
        self.pings = l;
    }

    /// Records a ping with `nonce` sent to `gateway` at `now`; a ping
    /// already filed under the same nonce is replaced.
    pub fn record(&mut self, nonce: u64, gateway: NodeId, now: u64)
        ensures
            final(self).pending() == old(self).pending().insert(
                nonce,
                PendingPing { nonce, gateway, sent_at_ns: now },
            ),
    {
        let mut l = self.take_pings();
        l.record(nonce, gateway, now);
        self.pings = l;
    }

    /// A pong with `nonce` arrived at `now`: the matching ping is taken
    /// out, giving its gateway and the round-trip time; an unknown nonce
    /// gives `None` and changes nothing.
    pub fn take_pong(&mut self, nonce: u64, now: u64) -> (r: Option<(NodeId, u32)>)
        ensures
            final(self).pending() == old(self).pending().remove(nonce),
            r == (if old(self).pending().contains_key(nonce) {
                Some(
                    (
                        old(self).pending()[nonce].gateway,
                        rtt_ms(old(self).pending()[nonce].sent_at_ns, now),
                    ),
                )
            } else {
                None::<(NodeId, u32)>
            }),
    {
        let mut l = self.take_pings();
        let r = l.take_pong(nonce, now);
        self.pings = l;
        r
    }
}

/// A pong is matched at most once: after one is taken, the same nonce
/// finds nothing until a new ping is recorded under it.
pub proof fn lemma_pong_matched_once(m: Map<u64, PendingPing>, nonce: u64)
    ensures
        !m.remove(nonce).contains_key(nonce),
{
}

/// The gateways probed on a round: the known gateways that are direct
/// peers, in the order the gateways are listed.
pub open spec fn direct_gateways_of(gateways: Seq<NodeId>, direct: Seq<NodeId>) -> Seq<NodeId> {
    gateways.filter(|g: NodeId| direct.contains(g))
}

pub fn direct_gateways(gateways: &Vec<NodeId>, direct: &Vec<NodeId>) -> (v: Vec<NodeId>)
    ensures
        v@ == direct_gateways_of(gateways@, direct@),
{
    let mut out: Vec<NodeId> = Vec::new();
    let mut i: usize = 0;
    while i < gateways.len()
        invariant
            i <= gateways@.len(),
            out@ == direct_gateways_of(gateways@.take(i as int), direct@),
        decreases gateways@.len() - i,
    {
        let g = gateways[i];
        proof {
            assert(gateways@.take(i + 1) =~= gateways@.take(i as int).push(g));
            gateways@.take(i as int).lemma_filter_push(g, |x: NodeId| direct@.contains(x));
        }
        if contains_node(direct, g).is_some() {
            out.push(g);
        }
        i = i + 1;
    }
    proof {
        assert(gateways@.take(gateways@.len() as int) =~= gateways@);
    }
    out
}

} // verus!
