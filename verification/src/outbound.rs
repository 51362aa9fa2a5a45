//! Bookkeeping of outbound connect attempts still in their handshake, so
//! that a simultaneous inbound handshake from the same address can cancel
//! the outbound one and the outbound side can tell a cancellation from a
//! failure.
use vstd::prelude::*;

use crate::auth::{contains_node, lemma_remove_to_set};
use crate::net_addr::IpAddress;
use crate::node_id::NodeId;
use crate::reconnect::ConnectTarget;

verus! {

/// An outbound attempt: the provisional transport key it was dialled
/// under and the target it dials.
#[derive(Debug, Clone, Copy)]
pub struct PendingOutbound {
    pub transport_key: NodeId,
    pub target: ConnectTarget,
}

/// The address an attempt is filed under: the IP of its target.
pub open spec fn ip_of(t: ConnectTarget) -> IpAddress {
    t.spec_addr().ip
}

/// The table after an attempt on `target` under `key` is registered: it
/// replaces any attempt filed under the same IP.
pub open spec fn registered(m: Map<IpAddress, PendingOutbound>, target: ConnectTarget, key: NodeId) -> Map<
    IpAddress,
    PendingOutbound,
> {
    m.insert(ip_of(target), PendingOutbound { transport_key: key, target })
}

/// The table after the attempt on `target` under `key` finished: its entry
/// goes, but only while it is still the one filed (a later attempt on the
/// same IP under another key stays).
pub open spec fn cleared(m: Map<IpAddress, PendingOutbound>, target: ConnectTarget, key: NodeId) -> Map<
    IpAddress,
    PendingOutbound,
> {
    if m.contains_key(ip_of(target)) && m[ip_of(target)].transport_key == key {
        m.remove(ip_of(target))
    } else {
        m
    }
}

pub open spec fn pending_map(v: Seq<PendingOutbound>) -> Map<IpAddress, PendingOutbound> {
    Map::new(
        |ip: IpAddress| exists|i: int| 0 <= i < v.len() && ip_of((#[trigger] v[i]).target) == ip,
        |ip: IpAddress| v[choose|i: int| 0 <= i < v.len() && ip_of((#[trigger] v[i]).target) == ip],
    )
}

pub open spec fn distinct_ips(v: Seq<PendingOutbound>) -> bool {
    forall|i: int, j: int|
        0 <= i < j < v.len() ==> ip_of((#[trigger] v[i]).target) != ip_of((#[trigger] v[j]).target)
}

proof fn lemma_pending_get(v: Seq<PendingOutbound>, i: int)
    requires
        distinct_ips(v),
        0 <= i < v.len(),
    ensures
        pending_map(v).contains_key(ip_of(v[i].target)),
        pending_map(v)[ip_of(v[i].target)] == v[i],
{
    let k = ip_of(v[i].target);
    assert(exists|j: int| 0 <= j < v.len() && ip_of((#[trigger] v[j]).target) == k);
    let c = choose|j: int| 0 <= j < v.len() && ip_of((#[trigger] v[j]).target) == k;
    if c != i {
        if c < i {
            assert(ip_of(v[c].target) != ip_of(v[i].target));
        } else {
            assert(ip_of(v[i].target) != ip_of(v[c].target));
        }
    }
}

proof fn lemma_pending_update(v: Seq<PendingOutbound>, i: int, e: PendingOutbound)
    requires
        distinct_ips(v),
        0 <= i <= v.len(),
        i < v.len() ==> ip_of(v[i].target) == ip_of(e.target),
        i == v.len() ==> forall|j: int| 0 <= j < v.len() ==> ip_of((#[trigger] v[j]).target) != ip_of(e.target),
    ensures
        distinct_ips(if i < v.len() { v.update(i, e) } else { v.push(e) }),
        pending_map(if i < v.len() { v.update(i, e) } else { v.push(e) }) == pending_map(v).insert(
            ip_of(e.target),
            e,
        ),
{
    let w = if i < v.len() { v.update(i, e) } else { v.push(e) };
    assert(w[i] == e);
    assert forall|a: int, b: int| 0 <= a < b < w.len() implies ip_of((#[trigger] w[a]).target) != ip_of((#[trigger] w[b]).target) by {
        if a != i && b != i {
            assert(w[a] == v[a] && w[b] == v[b]);
        } else if a == i {
            assert(w[b] == v[b]);
            if i < v.len() {
                assert(ip_of(v[a].target) != ip_of(v[b].target));
            }
        } else {
            assert(w[a] == v[a]);
            if i < v.len() {
                assert(ip_of(v[a].target) != ip_of(v[b].target));
            }
        }
    }
    let m = pending_map(v).insert(ip_of(e.target), e);
    assert forall|k: IpAddress| #[trigger] pending_map(w).contains_key(k) == m.contains_key(k) by {
        if k == ip_of(e.target) {
            assert(ip_of(w[i].target) == k);
        } else if m.contains_key(k) {
            let j = choose|j: int| 0 <= j < v.len() && ip_of((#[trigger] v[j]).target) == k;
            assert(w[j] == v[j]);
        } else if pending_map(w).contains_key(k) {
            let j = choose|j: int| 0 <= j < w.len() && ip_of((#[trigger] w[j]).target) == k;
            assert(j != i);
            assert(w[j] == v[j]);
        }
    }
    assert forall|k: IpAddress| #[trigger] pending_map(w).contains_key(k) implies pending_map(w)[k] == m[k] by {
        if k == ip_of(e.target) {
            lemma_pending_get(w, i);
        } else {
            let j = choose|j: int| 0 <= j < w.len() && ip_of((#[trigger] w[j]).target) == k;
            lemma_pending_get(w, j);
            assert(j != i);
            assert(w[j] == v[j]);
            lemma_pending_get(v, j);
        }
    }
    assert(pending_map(w) =~= m);
}

proof fn lemma_pending_remove(v: Seq<PendingOutbound>, i: int)
    requires
        distinct_ips(v),
        0 <= i < v.len(),
    ensures
        distinct_ips(v.remove(i)),
        pending_map(v.remove(i)) == pending_map(v).remove(ip_of(v[i].target)),
{
    let w = v.remove(i);
    let gone = ip_of(v[i].target);
    assert forall|a: int, b: int| 0 <= a < b < w.len() implies ip_of((#[trigger] w[a]).target) != ip_of((#[trigger] w[b]).target) by {
        let a2 = if a < i { a } else { a + 1 };
        let b2 = if b < i { b } else { b + 1 };
        assert(w[a] == v[a2] && w[b] == v[b2]);
        assert(ip_of(v[a2].target) != ip_of(v[b2].target));
    }
    let m = pending_map(v).remove(gone);
    assert forall|k: IpAddress| #[trigger] pending_map(w).contains_key(k) == m.contains_key(k) by {
        if pending_map(w).contains_key(k) {
            let j = choose|j: int| 0 <= j < w.len() && ip_of((#[trigger] w[j]).target) == k;
            let j2 = if j < i { j } else { j + 1 };
            assert(w[j] == v[j2]);
            assert(j2 != i);
            if k == gone {
                if j2 < i {
                    assert(ip_of(v[j2].target) != ip_of(v[i].target));
                } else {
                    assert(ip_of(v[i].target) != ip_of(v[j2].target));
                }
            }
        }
        if m.contains_key(k) {
            let j = choose|j: int| 0 <= j < v.len() && ip_of((#[trigger] v[j]).target) == k;
            assert(j != i);
            if j < i {
                assert(w[j] == v[j]);
            } else {
                assert(w[j - 1] == v[j]);
            }
        }
    }
    assert forall|k: IpAddress| #[trigger] pending_map(w).contains_key(k) implies pending_map(w)[k] == m[k] by {
        let j = choose|j: int| 0 <= j < w.len() && ip_of((#[trigger] w[j]).target) == k;
        let j2 = if j < i { j } else { j + 1 };
        assert(w[j] == v[j2]);
        lemma_pending_get(w, j);
        lemma_pending_get(v, j2);
    }
    assert(pending_map(w) =~= m);
}

/// The two lists behind an [`OutboundTable`].
struct Lists {
    pending: Vec<PendingOutbound>,
    cancelled: Vec<NodeId>,
}

impl Lists {
    spec fn pending(&self) -> Map<IpAddress, PendingOutbound> {
        pending_map(self.pending@)
    }

    spec fn cancelled(&self) -> Set<NodeId> {
        self.cancelled@.to_set()
    }

    spec fn wf(&self) -> bool {
        distinct_ips(self.pending@) && self.cancelled@.no_duplicates()
    }

    fn new() -> (t: Lists)
        ensures
            t.wf(),
            t.pending() == Map::<IpAddress, PendingOutbound>::empty(),
            t.cancelled() == Set::<NodeId>::empty(),
    {
        let t = Lists { pending: Vec::new(), cancelled: Vec::new() };
        proof {
            assert(t.pending() =~= Map::<IpAddress, PendingOutbound>::empty());
            assert(t.cancelled() =~= Set::<NodeId>::empty());
        }
        t
    }

    fn find_ip(&self, ip: IpAddress) -> (r: Option<usize>)
        ensures
            r matches Some(i) ==> i < self.pending@.len() && ip_of(self.pending@[i as int].target) == ip,
            r is None ==> forall|j: int|
                0 <= j < self.pending@.len() ==> ip_of((#[trigger] self.pending@[j]).target) != ip,
    {
        let mut i: usize = 0;
        while i < self.pending.len()
            invariant
                i <= self.pending@.len(),
                forall|j: int| 0 <= j < i ==> ip_of((#[trigger] self.pending@[j]).target) != ip,
            decreases self.pending@.len() - i,
        {
            if self.pending[i].target.addr().ip == ip {
                return Some(i);
            }
            i = i + 1;
        }
        None
    }

    /// Files an outbound attempt on `target` dialled under `transport_key`.
    fn register(&mut self, target: ConnectTarget, transport_key: NodeId)
        requires
            old(self).wf(),
        ensures
            final(self).wf(),
            final(self).pending() == registered(old(self).pending(), target, transport_key),
            final(self).cancelled() == old(self).cancelled(),
    {
        let e = PendingOutbound { transport_key, target };
        let ghost before = self.pending@;
        match self.find_ip(target.addr().ip) {
            Some(i) => {
                proof {
                    lemma_pending_update(before, i as int, e);
                }
                self.pending.set(i, e);
            },
            None => {
                proof {
                    lemma_pending_update(before, before.len() as int, e);
                }
                self.pending.push(e);
            },
        }
    }

    /// The attempt on `target` under `transport_key` has finished (connected
    /// or failed): its entry goes unless a later attempt replaced it.
    fn clear(&mut self, target: ConnectTarget, transport_key: NodeId)
        requires
            old(self).wf(),
        ensures
            final(self).wf(),
            final(self).pending() == cleared(old(self).pending(), target, transport_key),
            final(self).cancelled() == old(self).cancelled(),
    {
        let ghost before = self.pending@;
        let ip = target.addr().ip;
        match self.find_ip(ip) {
            Some(i) => {
                proof {
                    lemma_pending_get(before, i as int);
                }
                if self.pending[i].transport_key.key_value() == transport_key.key_value() {
                    proof {
                        NodeId::lemma_key_injective(before[i as int].transport_key, transport_key);
                        lemma_pending_remove(before, i as int);
                    }
                    self.pending.remove(i);
                } else {
                    proof {
                        if before[i as int].transport_key == transport_key {
                            assert(before[i as int].transport_key.key() == transport_key.key());
                        }
                    }
                }
            },
            None => {},
        }
    }

    /// An inbound handshake from `remote_ip` won: the outbound attempt
    /// filed under that IP, if any, is taken out and its transport key
    /// marked cancelled.
    fn cancel_for_ip(&mut self, remote_ip: IpAddress) -> (r: Option<PendingOutbound>)
        requires
            old(self).wf(),
        ensures
            final(self).wf(),
            r == (if old(self).pending().contains_key(remote_ip) {
                Some(old(self).pending()[remote_ip])
            } else {
                None::<PendingOutbound>
            }),
            final(self).pending() == old(self).pending().remove(remote_ip),
            final(self).cancelled() == (match r {
                Some(e) => old(self).cancelled().insert(e.transport_key),
                None => old(self).cancelled(),
            }),
    {
        let ghost before = self.pending@;
        match self.find_ip(remote_ip) {
            Some(i) => {
                proof {
                    lemma_pending_get(before, i as int);
                    lemma_pending_remove(before, i as int);
                }
                let e = self.pending.remove(i);
                let ghost cb = self.cancelled@;
                match contains_node(&self.cancelled, e.transport_key) {
                    Some(_) => {
                        proof {
                            assert(cb.to_set().insert(e.transport_key) =~= cb.to_set());
                        }
                    },
                    None => {
                        self.cancelled.push(e.transport_key);
                        proof {
                            cb.lemma_push_to_set_commute(e.transport_key);
                            assert forall|a: int, b: int|
                                0 <= a < self.cancelled@.len() && 0 <= b < self.cancelled@.len() && a
                                    != b implies self.cancelled@[a] != self.cancelled@[b] by {
                                if a < cb.len() && b < cb.len() {
                                    assert(self.cancelled@[a] == cb[a] && self.cancelled@[b] == cb[b]);
                                } else if a < cb.len() {
                                    assert(self.cancelled@[a] == cb[a]);
                                } else {
                                    assert(self.cancelled@[b] == cb[b]);
                                }
                            }
                        }
                    },
                }
                Some(e)
            },
            None => {
                proof {
                    assert(!pending_map(before).contains_key(remote_ip));
                    assert(pending_map(before).remove(remote_ip) =~= pending_map(before));
                }
                None
            },
        }
    }

    /// Whether the attempt under `transport_key` was cancelled; the mark is
    /// consumed.
    fn take_cancelled(&mut self, transport_key: NodeId) -> (was: bool)
        requires
            old(self).wf(),
        ensures
            final(self).wf(),
            was == old(self).cancelled().contains(transport_key),
            final(self).cancelled() == old(self).cancelled().remove(transport_key),
            final(self).pending() == old(self).pending(),
    {
        let ghost cb = self.cancelled@;
        match contains_node(&self.cancelled, transport_key) {
            Some(i) => {
                proof {
                    lemma_remove_to_set(cb, i as int);
                }
                self.cancelled.remove(i);
                proof {
                    assert(self.cancelled@ =~= cb.remove(i as int));
                }
                true
            },
            None => {
                proof {
                    assert(cb.to_set().remove(transport_key) =~= cb.to_set());
                }
                false
            },
        }
    }
}

/// Outbound attempts by the IP they dial, and the transport keys of the
/// attempts cancelled in favour of an inbound handshake.
pub struct OutboundTable {
    lists: Lists,
}

impl OutboundTable {
    #[verifier::type_invariant]
    spec fn inv(&self) -> bool {
        self.lists.wf()
    }

    /// Attempts in their handshake, by the IP they dial.
    pub closed spec fn pending(&self) -> Map<IpAddress, PendingOutbound> {
        self.lists.pending()
    }

    /// Transport keys of cancelled attempts not yet reported.
    pub closed spec fn cancelled(&self) -> Set<NodeId> {
        self.lists.cancelled()
    }

    pub fn new() -> (t: OutboundTable)
        ensures
            t.pending() == Map::<IpAddress, PendingOutbound>::empty(),
            t.cancelled() == Set::<NodeId>::empty(),
    {
        OutboundTable { lists: Lists::new() }
    }

    fn take_lists(&mut self) -> (l: Lists)
        ensures
            l.wf(),
            l == old(self).lists,
    {
        proof {
            use_type_invariant(&*self);
        }
        let mut l = Lists::new();
        std::mem::swap(&mut l, &mut self.lists);
        l
    }

    /// Files an outbound attempt on `target` dialled under `transport_key`.
    pub fn register(&mut self, target: ConnectTarget, transport_key: NodeId)
        ensures
            final(self).pending() == registered(old(self).pending(), target, transport_key),
            final(self).cancelled() == old(self).cancelled(),
    {
        let mut l = self.take_lists();
        l.register(target, transport_key);
        self.lists = l;
    }

    /// The attempt on `target` under `transport_key` has finished (connected
    /// or failed): its entry goes unless a later attempt replaced it.
    pub fn clear(&mut self, target: ConnectTarget, transport_key: NodeId)
        ensures
            final(self).pending() == cleared(old(self).pending(), target, transport_key),
            final(self).cancelled() == old(self).cancelled(),
    {
        let mut l = self.take_lists();
        l.clear(target, transport_key);
        self.lists = l;
    }

    /// An inbound handshake from `remote_ip` won: the outbound attempt
    /// filed under that IP, if any, is taken out and its transport key
    /// marked cancelled.
    pub fn cancel_for_ip(&mut self, remote_ip: IpAddress) -> (r: Option<PendingOutbound>)
        ensures
            r == (if old(self).pending().contains_key(remote_ip) {
                Some(old(self).pending()[remote_ip])
            } else {
                None::<PendingOutbound>
            }),
            final(self).pending() == old(self).pending().remove(remote_ip),
            final(self).cancelled() == (match r {
                Some(e) => old(self).cancelled().insert(e.transport_key),
                None => old(self).cancelled(),
            }),
    {
        let mut l = self.take_lists();
        let r = l.cancel_for_ip(remote_ip);
        self.lists = l;
        r
    }

    /// Whether the attempt under `transport_key` was cancelled; the mark is
    /// consumed.
    pub fn take_cancelled(&mut self, transport_key: NodeId) -> (was: bool)
        ensures
            was == old(self).cancelled().contains(transport_key),
            final(self).cancelled() == old(self).cancelled().remove(transport_key),
            final(self).pending() == old(self).pending(),
    {
        let mut l = self.take_lists();
        let was = l.take_cancelled(transport_key);
        self.lists = l;
        was
    }
}

/// A finished attempt never clears a newer one: after an attempt on a
/// target is re-registered under another transport key, clearing the old
/// key leaves the new registration filed; clearing the current key takes
/// the IP's entry out.
pub proof fn lemma_stale_clear_keeps_newer(
    m: Map<IpAddress, PendingOutbound>,
    target: ConnectTarget,
    old_key: NodeId,
    new_key: NodeId,
)
    ensures
        old_key != new_key ==> cleared(registered(m, target, new_key), target, old_key) == registered(
            m,
            target,
            new_key,
        ),
        cleared(registered(m, target, new_key), target, new_key) == m.remove(ip_of(target)),
{
    assert(registered(m, target, new_key).remove(ip_of(target)) =~= m.remove(ip_of(target)));
}

/// A cancellation is reported once: right after an attempt is cancelled
/// its key is marked, and once taken it is no longer marked.
pub proof fn lemma_cancel_taken_once(cancelled: Set<NodeId>, key: NodeId)
    ensures
        cancelled.insert(key).contains(key),
        !cancelled.insert(key).remove(key).contains(key),
{
}

} // verus!
