//! Per-peer memory of routed identity arrivals: the rate gate applied to
//! each arrival, and the cleanup that bounds the table.
//!
//! Times are monotonic nanosecond counters handed in by the caller.
use vstd::prelude::*;

use crate::messaging::{peer_info_gate, PeerInfoGate, PeerInfoSource, NANOS_PER_SEC};
use crate::node_id::NodeId;
use crate::reconnect::elapsed;

verus! {

/// One peer and the time of its latest accepted routed identity.
#[derive(Debug, Clone, Copy)]
pub struct SeenEntry {
    pub peer: NodeId,
    pub at_ns: u64,
}

pub open spec fn seen_map(v: Seq<SeenEntry>) -> Map<u128, u64> {
    Map::new(
        |k: u128| exists|i: int| 0 <= i < v.len() && (#[trigger] v[i]).peer.key() == k,
        |k: u128| v[choose|i: int| 0 <= i < v.len() && (#[trigger] v[i]).peer.key() == k].at_ns,
    )
}

pub open spec fn distinct_seen(v: Seq<SeenEntry>) -> bool {
    forall|i: int, j: int|
        0 <= i < j < v.len() ==> (#[trigger] v[i]).peer.key() != (#[trigger] v[j]).peer.key()
}

/// The rate limiter's verdict on an identity from the peer keyed `k` given the
/// table `m` of latest arrivals.
pub open spec fn gate_for(m: Map<u128, u64>, k: u128, source: PeerInfoSource, min_interval_s: u64, now: u64) -> PeerInfoGate {
    let previous = if m.contains_key(k) {
        Some(m[k])
    } else {
        None
    };
    if source == PeerInfoSource::Routed && min_interval_s > 0 {
        match previous {
            Some(p) => if crate::messaging::whole_secs_between(p, now) < min_interval_s {
                PeerInfoGate::Drop
            } else {
                PeerInfoGate::Accept { record: true }
            },
            None => PeerInfoGate::Accept { record: true },
        }
    } else {
        PeerInfoGate::Accept { record: false }
    }
}

/// The table once that identity has been judged.
pub open spec fn table_after(m: Map<u128, u64>, k: u128, source: PeerInfoSource, min_interval_s: u64, now: u64) -> Map<u128, u64> {
    match gate_for(m, k, source, min_interval_s, now) {
        PeerInfoGate::Accept { record: true } => m.insert(k, now),
        _ => m,
    }
}

/// Whether an entry seen at `at_ns` survives a cleanup at `now` with a
/// lifetime of `lifetime_s` seconds (a negative lifetime counts as zero).
pub open spec fn seen_fresh(at_ns: u64, now: u64, lifetime_s: i64) -> bool {
    elapsed(at_ns, now) <= (if lifetime_s < 0 {
        0
    } else {
        lifetime_s as int
    }) * NANOS_PER_SEC
}

proof fn lemma_seen_get(v: Seq<SeenEntry>, i: int)
    requires
        distinct_seen(v),
        0 <= i < v.len(),
    ensures
        seen_map(v).contains_key(v[i].peer.key()),
        seen_map(v)[v[i].peer.key()] == v[i].at_ns,
{
    let k = v[i].peer.key();
    assert(exists|j: int| 0 <= j < v.len() && (#[trigger] v[j]).peer.key() == k);
    let c = choose|j: int| 0 <= j < v.len() && (#[trigger] v[j]).peer.key() == k;
    if c != i {
        if c < i {
            assert(v[c].peer.key() != v[i].peer.key());
        } else {
            assert(v[i].peer.key() != v[c].peer.key());
        }
    }
}

proof fn lemma_seen_update(v: Seq<SeenEntry>, i: int, e: SeenEntry)
    requires
        distinct_seen(v),
        0 <= i <= v.len(),
        i < v.len() ==> v[i].peer.key() == e.peer.key(),
        i == v.len() ==> forall|j: int| 0 <= j < v.len() ==> (#[trigger] v[j]).peer.key() != e.peer.key(),
    ensures
        distinct_seen(if i < v.len() { v.update(i, e) } else { v.push(e) }),
        seen_map(if i < v.len() { v.update(i, e) } else { v.push(e) }) == seen_map(v).insert(
            e.peer.key(),
            e.at_ns,
        ),
{
    let w = if i < v.len() { v.update(i, e) } else { v.push(e) };
    assert(w[i] == e);
    assert forall|a: int, b: int| 0 <= a < b < w.len() implies (#[trigger] w[a]).peer.key() != (#[trigger] w[b]).peer.key() by {
        if a != i && b != i {
            assert(w[a] == v[a] && w[b] == v[b]);
        } else if a == i {
            assert(w[b] == v[b]);
            if i < v.len() {
                assert(v[a].peer.key() != v[b].peer.key());
            }
        } else {
            assert(w[a] == v[a]);
            if i < v.len() {
                assert(v[a].peer.key() != v[b].peer.key());
            }
        }
    }
    let m = seen_map(v).insert(e.peer.key(), e.at_ns);
    assert forall|k: u128| #[trigger] seen_map(w).contains_key(k) == m.contains_key(k) by {
        if k == e.peer.key() {
            assert(w[i].peer.key() == k);
        } else if m.contains_key(k) {
            let j = choose|j: int| 0 <= j < v.len() && (#[trigger] v[j]).peer.key() == k;
            assert(w[j] == v[j]);
        } else if seen_map(w).contains_key(k) {
            let j = choose|j: int| 0 <= j < w.len() && (#[trigger] w[j]).peer.key() == k;
            assert(j != i);
            assert(w[j] == v[j]);
        }
    }
    assert forall|k: u128| #[trigger] seen_map(w).contains_key(k) implies seen_map(w)[k] == m[k] by {
        if k == e.peer.key() {
            lemma_seen_get(w, i);
        } else {
            let j = choose|j: int| 0 <= j < w.len() && (#[trigger] w[j]).peer.key() == k;
            lemma_seen_get(w, j);
            assert(j != i);
            assert(w[j] == v[j]);
            lemma_seen_get(v, j);
        }
    }
    assert(seen_map(w) =~= m);
}

proof fn lemma_seen_dom(v: Seq<SeenEntry>)
    requires
        distinct_seen(v),
    ensures
        seen_map(v).dom().finite(),
        seen_map(v).dom().len() == v.len(),
{
    let ks = v.map_values(|e: SeenEntry| e.peer.key());
    assert forall|k: u128| #[trigger] seen_map(v).dom().contains(k) == ks.to_set().contains(k) by {
        if seen_map(v).dom().contains(k) {
            let j = choose|j: int| 0 <= j < v.len() && (#[trigger] v[j]).peer.key() == k;
            assert(ks[j] == k);
        }
        if ks.to_set().contains(k) {
            let j = choose|j: int| 0 <= j < ks.len() && ks[j] == k;
            assert(v[j].peer.key() == k);
        }
    }
    assert(seen_map(v).dom() =~= ks.to_set());
    assert(ks.no_duplicates()) by {
        assert forall|a: int, b: int| 0 <= a < ks.len() && 0 <= b < ks.len() && a != b implies ks[a] != ks[b] by {
            if a < b {
                assert(v[a].peer.key() != v[b].peer.key());
            } else {
                assert(v[b].peer.key() != v[a].peer.key());
            }
        }
    }
    ks.unique_seq_to_set();
}

/// The list behind an [`IdentityArrivals`].
struct ArrivalList {
    entries: Vec<SeenEntry>,
}

impl ArrivalList {
    /// Time of each peer's latest recorded arrival, by node key.
    spec fn seen(&self) -> Map<u128, u64> {
        seen_map(self.entries@)
    }

    spec fn wf(&self) -> bool {
        distinct_seen(self.entries@)
    }

    fn new() -> (t: ArrivalList)
        ensures
            t.wf(),
            t.seen() == Map::<u128, u64>::empty(),
    {
        let t = ArrivalList { entries: Vec::new() };
        proof {
            assert(t.seen() =~= Map::<u128, u64>::empty());
        }
        t
    }

    fn find(&self, peer: &NodeId) -> (r: Option<usize>)
        ensures
            r matches Some(i) ==> i < self.entries@.len() && self.entries@[i as int].peer.key() == peer.key(),
            r is None ==> forall|j: int|
                0 <= j < self.entries@.len() ==> (#[trigger] self.entries@[j]).peer.key() != peer.key(),
    {
        let k = peer.key_value();
        let mut i: usize = 0;
        while i < self.entries.len()
            invariant
                i <= self.entries@.len(),
                k == peer.key(),
                forall|j: int| 0 <= j < i ==> (#[trigger] self.entries@[j]).peer.key() != k,
            decreases self.entries@.len() - i,
        {
            if self.entries[i].peer.key_value() == k {
                return Some(i);
            }
            i = i + 1;
        }
        None
    }

    /// Passes an identity from `peer` through the rate gate: whether it is
    /// processed, with a processed routed arrival remembered while rate
    /// limiting is on.
    fn pass_gate(&mut self, peer: NodeId, source: PeerInfoSource, min_interval_s: u64, now: u64) -> (accepted: bool)
        requires
            old(self).wf(),
        ensures
            final(self).wf(),
            accepted == (gate_for(old(self).seen(), peer.key(), source, min_interval_s, now) != PeerInfoGate::Drop),
            final(self).seen() == table_after(old(self).seen(), peer.key(), source, min_interval_s, now),
    {
        let ghost before = self.entries@;
        let found = self.find(&peer);
        let previous = match found {
            Some(i) => {
                proof {
                    lemma_seen_get(before, i as int);
                }
                Some(self.entries[i].at_ns)
            },
            None => None,
        };
        match peer_info_gate(source, min_interval_s, previous, now) {
            PeerInfoGate::Drop => false,
            PeerInfoGate::Accept { record } => {
                if record {
                    let e = SeenEntry { peer, at_ns: now };
                    match found {
                        Some(i) => {
                            proof {
                                lemma_seen_update(before, i as int, e);
                            }
                            self.entries.set(i, e);
                        },
                        None => {
                            proof {
                                lemma_seen_update(before, before.len() as int, e);
                            }
                            self.entries.push(e);
                        },
                    }
                }
                true
            },
        }
    }

    /// Drops the peers not seen within `lifetime_s` seconds; returns how
    /// many were dropped.
    fn sweep(&mut self, lifetime_s: i64, now: u64) -> (evicted: usize)
        requires
            old(self).wf(),
        ensures
            final(self).wf(),
            final(self).seen() == old(self).seen().restrict(
                old(self).seen().dom().filter(|k: u128| seen_fresh(old(self).seen()[k], now, lifetime_s)),
            ),
            final(self).seen().dom().finite(),
            evicted == old(self).seen().dom().len() - final(self).seen().dom().len(),
    {
        let ghost pre = self.entries@;
        let lifetime: u128 = if lifetime_s < 0 {
            0
        } else {
            lifetime_s as u128
        };
        let limit: u128 = lifetime * 1_000_000_000;
        let mut kept: Vec<SeenEntry> = Vec::new();
        let mut i: usize = 0;
        while i < self.entries.len()
            invariant
                i <= pre.len(),
                self.entries@ == pre,
                limit == (if lifetime_s < 0 { 0 } else { lifetime_s as int }) * NANOS_PER_SEC,
                distinct_seen(pre),
                distinct_seen(kept@),
                kept@.len() <= i,
                forall|k: int| 0 <= k < kept@.len() ==> exists|j: int| 0 <= j < i && #[trigger] kept@[k] == pre[j],
                forall|j: int| 0 <= j < i && seen_fresh(pre[j].at_ns, now, lifetime_s) ==> exists|k: int| 0 <= k < kept@.len() && kept@[k] == #[trigger] pre[j],
                forall|k: int| 0 <= k < kept@.len() ==> seen_fresh((#[trigger] kept@[k]).at_ns, now, lifetime_s),
            decreases pre.len() - i,
        {
            let e = self.entries[i];
            let age: u64 = if now >= e.at_ns { now - e.at_ns } else { 0 };
            if (age as u128) <= limit {
                let ghost before = kept@;
                kept.push(e);
                proof {
                    assert forall|a: int, b: int| 0 <= a < b < kept@.len() implies (#[trigger] kept@[a]).peer.key() != (#[trigger] kept@[b]).peer.key() by {
                        if b == kept@.len() - 1 {
                            let ja = choose|j: int| 0 <= j < i && before[a] == pre[j];
                            assert(kept@[a] == before[a]);
                            assert(pre[ja].peer.key() != pre[i as int].peer.key());
                        } else {
                            assert(kept@[a] == before[a] && kept@[b] == before[b]);
                        }
                    }
                    assert forall|k: int| 0 <= k < kept@.len() implies exists|j: int| 0 <= j < i + 1 && #[trigger] kept@[k] == pre[j] by {
                        if k == kept@.len() - 1 {
                            assert(kept@[k] == pre[i as int]);
                        } else {
                            assert(kept@[k] == before[k]);
                        }
                    }
                    assert forall|j: int| 0 <= j < i + 1 && seen_fresh(pre[j].at_ns, now, lifetime_s) implies exists|k: int| 0 <= k < kept@.len() && kept@[k] == #[trigger] pre[j] by {
                        if j == i {
                            assert(kept@[kept@.len() - 1] == pre[j]);
                        } else {
                            let k = choose|k: int| 0 <= k < before.len() && before[k] == pre[j];
                            assert(kept@[k] == before[k]);
                        }
                    }
                }
            }
            i = i + 1;
        }
        proof {
            let om = seen_map(pre);
            let nm = seen_map(kept@);
            let rm = om.restrict(om.dom().filter(|k: u128| seen_fresh(om[k], now, lifetime_s)));
            assert forall|k: u128| #[trigger] nm.contains_key(k) == rm.contains_key(k) by {
                if nm.contains_key(k) {
                    let x = choose|x: int| 0 <= x < kept@.len() && (#[trigger] kept@[x]).peer.key() == k;
                    let j = choose|j: int| 0 <= j < i && kept@[x] == pre[j];
                    lemma_seen_get(pre, j);
                }
                if rm.contains_key(k) {
                    let j = choose|j: int| 0 <= j < pre.len() && (#[trigger] pre[j]).peer.key() == k;
                    lemma_seen_get(pre, j);
                    let x = choose|x: int| 0 <= x < kept@.len() && kept@[x] == pre[j];
                    assert(kept@[x].peer.key() == k);
                }
            }
            assert forall|k: u128| #[trigger] nm.contains_key(k) implies nm[k] == rm[k] by {
                let x = choose|x: int| 0 <= x < kept@.len() && (#[trigger] kept@[x]).peer.key() == k;
                lemma_seen_get(kept@, x);
                let j = choose|j: int| 0 <= j < i && kept@[x] == pre[j];
                lemma_seen_get(pre, j);
            }
            assert(nm =~= rm);
            lemma_seen_dom(pre);
            lemma_seen_dom(kept@);
        }
        let evicted = self.entries.len() - kept.len();
        self.entries = kept;
        evicted
    }
}

/// Latest accepted routed identity per peer.
pub struct IdentityArrivals {
    entries: ArrivalList,
}

impl IdentityArrivals {
    #[verifier::type_invariant]
    spec fn inv(&self) -> bool {
        self.entries.wf()
    }

    fn take_entries(&mut self) -> (l: ArrivalList)
        ensures
            l.wf(),
            l == old(self).entries,
    {
        proof {
            use_type_invariant(&*self);
        }
        let mut l = ArrivalList::new();
        std::mem::swap(&mut l, &mut self.entries);
        l
    }

    /// Time of each peer's latest recorded arrival, by node key.
    pub closed spec fn seen(&self) -> Map<u128, u64> {
        self.entries.seen()
    }

    pub fn new() -> (t: IdentityArrivals)
        ensures
            t.seen() == Map::<u128, u64>::empty(),
    {
        IdentityArrivals { entries: ArrivalList::new() }
    }

    /// Passes an identity from `peer` through the rate gate: whether it is
    /// processed, with a processed routed arrival remembered while rate
    /// limiting is on.
    pub fn pass_gate(&mut self, peer: NodeId, source: PeerInfoSource, min_interval_s: u64, now: u64) -> (accepted: bool)
        ensures
            accepted == (gate_for(old(self).seen(), peer.key(), source, min_interval_s, now) != PeerInfoGate::Drop),
            final(self).seen() == table_after(old(self).seen(), peer.key(), source, min_interval_s, now),
    {
        let mut l = self.take_entries();
        let r = l.pass_gate(peer, source, min_interval_s, now);
        self.entries = l;
        r
    }

    /// Drops the peers not seen within `lifetime_s` seconds; returns how
    /// many were dropped.
    pub fn sweep(&mut self, lifetime_s: i64, now: u64) -> (evicted: usize)
        ensures
            final(self).seen() == old(self).seen().restrict(
                old(self).seen().dom().filter(|k: u128| seen_fresh(old(self).seen()[k], now, lifetime_s)),
            ),
            final(self).seen().dom().finite(),
            evicted == old(self).seen().dom().len() - final(self).seen().dom().len(),
    {
        let mut l = self.take_entries();
        let r = l.sweep(lifetime_s, now);
        self.entries = l;
        r
    }
}

/// Routed identities from one peer are rate limited: once one is accepted
/// with a nonzero interval, another from the same peer less than the interval
/// later is dropped; direct identities always pass and are not recorded.
pub proof fn lemma_routed_repeat_dropped(m: Map<u128, u64>, k: u128, min_interval_s: u64, t1: u64, t2: u64)
    requires
        min_interval_s > 0,
        gate_for(m, k, PeerInfoSource::Routed, min_interval_s, t1) != PeerInfoGate::Drop,
        crate::messaging::whole_secs_between(t1, t2) < min_interval_s,
    ensures
        gate_for(table_after(m, k, PeerInfoSource::Routed, min_interval_s, t1), k, PeerInfoSource::Routed, min_interval_s, t2)
            == PeerInfoGate::Drop,
        gate_for(m, k, PeerInfoSource::Direct, min_interval_s, t1) != PeerInfoGate::Drop,
        table_after(m, k, PeerInfoSource::Direct, min_interval_s, t1) == m,
{
}

} // verus!
