//! Peer authorization: allow-all, an allow list, or trust on first use with
//! a persisted trust store; and the discovery shared key's hex form.
use vstd::prelude::*;

use vstd::string::StringSliceAdditionalSpecFns;

use crate::hex::{byte_pair_value, decode_byte_pairs, decode_pairs, first_bad_pair};
use crate::node_id::NodeId;

verus! {

/// How peers are admitted.
#[derive(Debug, Clone, Copy, PartialEq, Eq, Structural)]
pub enum AuthorizationPolicy {
    /// Every peer.
    AllowAll,
    /// Only listed peers.
    AllowList,
    /// Any peer the first time, remembered from then on.
    TrustOnFirstUse,
}

/// Verdict on an authenticated peer.
#[derive(Debug, Clone, Copy, PartialEq, Eq, Structural)]
pub enum AuthorizationDecision {
    Allowed,
    TrustedOnFirstUse,
    Rejected,
}

/// What authorizing an authenticated peer needs next.
#[derive(Debug, Clone, Copy, PartialEq, Eq, Structural)]
pub enum AuthorizationStep {
    /// The verdict is final.
    Decided(AuthorizationDecision),
    /// The peer was added to the trust set; the trust store must be
    /// written (see [`AuthorizationManager::trust_store_order`]) and the
    /// result reported with [`AuthorizationManager::finish_trust`].
    Persist,
}

/// Writing the trust store failed; the peer was not trusted.
#[derive(Debug, Clone, Copy, PartialEq, Eq, Structural)]
pub struct TrustStoreError;

pub(crate) fn contains_node(v: &Vec<NodeId>, n: NodeId) -> (r: Option<usize>)
    ensures
        r matches Some(i) ==> i < v@.len() && v@[i as int] == n,
        r is None ==> !v@.contains(n),
{
    let mut i: usize = 0;
    while i < v.len()
        invariant
            i <= v@.len(),
            forall|k: int| 0 <= k < i ==> v@[k] != n,
        decreases v@.len() - i,
    {
        if v[i].key_value() == n.key_value() {
            proof {
                NodeId::lemma_key_injective(v@[i as int], n);
            }
            return Some(i);
        }
        i = i + 1;
    }
    None
}

fn dedup_nodes(v: &Vec<NodeId>) -> (r: Vec<NodeId>)
    ensures
        r@.no_duplicates(),
        r@.to_set() == v@.to_set(),
{
    let mut r: Vec<NodeId> = Vec::new();
    let mut i: usize = 0;
    while i < v.len()
        invariant
            i <= v@.len(),
            r@.no_duplicates(),
            r@.to_set() == v@.take(i as int).to_set(),
        decreases v@.len() - i,
    {
        let n = v[i];
        proof {
            assert(v@.take(i + 1) =~= v@.take(i as int).push(n));
            v@.take(i as int).lemma_push_to_set_commute(n);
        }
        match contains_node(&r, n) {
            Some(_) => {
                proof {
                    assert(r@.to_set().contains(n));
                    assert(r@.to_set().insert(n) =~= r@.to_set());
                }
            },
            None => {
                let ghost before = r@;
                r.push(n);
                proof {
                    before.lemma_push_to_set_commute(n);
                    assert forall|a: int, b: int|
                        0 <= a < r@.len() && 0 <= b < r@.len() && a != b implies r@[a] != r@[b] by {
                        if a == before.len() {
                            assert(r@[b] == before[b]);
                        } else if b == before.len() {
                            assert(r@[a] == before[a]);
                        } else {
                            assert(r@[a] == before[a] && r@[b] == before[b]);
                        }
                    }
                }
            },
        }
        i = i + 1;
    }
    proof {
        assert(v@.take(v@.len() as int) =~= v@);
    }
    r
}

/// The sets behind an [`AuthorizationManager`].
struct PeerSets {
    policy: AuthorizationPolicy,
    allow_list: Vec<NodeId>,
    trusted_peers: Vec<NodeId>,
}

impl PeerSets {
    fn placeholder() -> (l: PeerSets)
        ensures
            l.wf(),
    {
        let v: Vec<NodeId> = Vec::new();
        PeerSets::new(AuthorizationPolicy::AllowAll, &v, &v)
    }

    spec fn policy(&self) -> AuthorizationPolicy {
        self.policy
    }

    spec fn allowed(&self) -> Set<NodeId> {
        self.allow_list@.to_set()
    }

    /// Peers trusted on first use so far.
    spec fn trusted(&self) -> Set<NodeId> {
        self.trusted_peers@.to_set()
    }

    /// What authorizing `peer` amounts to in this state.
    spec fn step_for(&self, peer: NodeId) -> AuthorizationStep {
        match self.policy() {
            AuthorizationPolicy::AllowAll => AuthorizationStep::Decided(
                AuthorizationDecision::Allowed,
            ),
            AuthorizationPolicy::AllowList => AuthorizationStep::Decided(
                if self.allowed().contains(peer) {
                    AuthorizationDecision::Allowed
                } else {
                    AuthorizationDecision::Rejected
                },
            ),
            AuthorizationPolicy::TrustOnFirstUse => if self.trusted().contains(peer) {
                AuthorizationStep::Decided(AuthorizationDecision::Allowed)
            } else {
                AuthorizationStep::Persist
            },
        }
    }

    spec fn wf(&self) -> bool {
        self.trusted_peers@.no_duplicates()
    }

    /// A manager for `policy`; the trust store's peers are only kept under
    /// trust on first use.
    fn new(policy: AuthorizationPolicy, allow_list: &Vec<NodeId>, stored_trust: &Vec<NodeId>) -> (m:
        PeerSets)
        ensures
            m.wf(),
            m.policy() == policy,
            m.allowed() == allow_list@.to_set(),
            m.trusted() == (if policy == AuthorizationPolicy::TrustOnFirstUse {
                stored_trust@.to_set()
            } else {
                Set::empty()
            }),
    {
        let trusted = if policy == AuthorizationPolicy::TrustOnFirstUse {
            dedup_nodes(stored_trust)
        } else {
            let v: Vec<NodeId> = Vec::new();
            proof {
                assert(v@.to_set() =~= Set::<NodeId>::empty());
            }
            v
        };
        PeerSets {
            policy,
            allow_list: dedup_nodes(allow_list),
            trusted_peers: trusted,
        }
    }

    /// Whether a peer seen through discovery may be connected to: always,
    /// except under an allow list that does not name it.
    fn authorize_discovered_peer(&self, peer_id: NodeId) -> (ok: bool)
        ensures
            ok == (self.policy() != AuthorizationPolicy::AllowList || self.allowed().contains(
                peer_id,
            )),
    {
        match self.policy {
            AuthorizationPolicy::AllowAll | AuthorizationPolicy::TrustOnFirstUse => true,
            AuthorizationPolicy::AllowList => contains_node(&self.allow_list, peer_id).is_some(),
        }
    }

    /// First half of authorizing an authenticated peer.  Under trust on
    /// first use an unknown peer is added to the trust set right away, and
    /// the trust store has to be written before the verdict is final.
    fn authorize_authenticated_peer(&mut self, peer_id: NodeId) -> (step: AuthorizationStep)
        requires
            old(self).wf(),
        ensures
            final(self).wf(),
            final(self).policy() == old(self).policy(),
            final(self).allowed() == old(self).allowed(),
            step == old(self).step_for(peer_id),
            final(self).trusted() == (if step == AuthorizationStep::Persist {
                old(self).trusted().insert(peer_id)
            } else {
                old(self).trusted()
            }),
    {
        match self.policy {
            AuthorizationPolicy::AllowAll => AuthorizationStep::Decided(
                AuthorizationDecision::Allowed,
            ),
            AuthorizationPolicy::AllowList => {
                if contains_node(&self.allow_list, peer_id).is_some() {
                    AuthorizationStep::Decided(AuthorizationDecision::Allowed)
                } else {
                    AuthorizationStep::Decided(AuthorizationDecision::Rejected)
                }
            },
            AuthorizationPolicy::TrustOnFirstUse => {
                if contains_node(&self.trusted_peers, peer_id).is_some() {
                    return AuthorizationStep::Decided(AuthorizationDecision::Allowed);
                }
                let ghost before = self.trusted_peers@;
                self.trusted_peers.push(peer_id);
                proof {
                    before.lemma_push_to_set_commute(peer_id);
                    let r = self.trusted_peers@;
                    assert forall|a: int, b: int|
                        0 <= a < r.len() && 0 <= b < r.len() && a != b implies r[a] != r[b] by {
                        if a == before.len() {
                            assert(r[b] == before[b]);
                        } else if b == before.len() {
                            assert(r[a] == before[a]);
                        } else {
                            assert(r[a] == before[a] && r[b] == before[b]);
                        }
                    }
                }
                AuthorizationStep::Persist
            },
        }
    }

    /// Second half of a trust-on-first-use admission: with the trust store
    /// written the peer is trusted; otherwise it is taken out of the trust
    /// set again and the failure reported.
    fn finish_trust(&mut self, peer_id: NodeId, persisted: bool) -> (r: Result<
        AuthorizationDecision,
        TrustStoreError,
    >)
        requires
            old(self).wf(),
        ensures
            final(self).wf(),
            final(self).policy() == old(self).policy(),
            final(self).allowed() == old(self).allowed(),
            persisted ==> r == Ok::<AuthorizationDecision, TrustStoreError>(
                AuthorizationDecision::TrustedOnFirstUse,
            ) && final(self).trusted() == old(self).trusted(),
            !persisted ==> r == Err::<AuthorizationDecision, TrustStoreError>(TrustStoreError)
                && final(self).trusted() == old(self).trusted().remove(peer_id),
    {
        if persisted {
            return Ok(AuthorizationDecision::TrustedOnFirstUse);
        }
        let ghost before = self.trusted_peers@;
        match contains_node(&self.trusted_peers, peer_id) {
            Some(i) => {
                self.trusted_peers.remove(i);
                proof {
                    lemma_remove_to_set(before, i as int);
                }
            },
            None => {
                proof {
                    assert(before.to_set().remove(peer_id) =~= before.to_set());
                }
            },
        }
        Err(TrustStoreError)
    }

    /// The trusted peers in the order the trust store lists them: by their
    /// hex form, which is the order of their keys.
    fn trust_store_order(&self) -> (v: Vec<NodeId>)
        requires
            self.wf(),
        ensures
            v@.to_set() == self.trusted(),
            v@.len() == self.trusted().len(),
            forall|i: int, j: int| 0 <= i < j < v@.len() ==> (#[trigger] v@[i]).key() < (#[trigger] v@[j]).key(),
    {
        let mut v: Vec<NodeId> = Vec::new();
        let mut i: usize = 0;
        while i < self.trusted_peers.len()
            invariant
                i <= self.trusted_peers@.len(),
                self.trusted_peers@.no_duplicates(),
                v@.to_set() == self.trusted_peers@.take(i as int).to_set(),
                v@.len() == i,
                forall|a: int, b: int| 0 <= a < b < v@.len() ==> (#[trigger] v@[a]).key() < (#[trigger] v@[b]).key(),
            decreases self.trusted_peers@.len() - i,
        {
            let n = self.trusted_peers[i];
            proof {
                assert(self.trusted_peers@.take(i + 1) =~= self.trusted_peers@.take(i as int).push(n));
                self.trusted_peers@.take(i as int).lemma_push_to_set_commute(n);
                assert(!self.trusted_peers@.take(i as int).contains(n)) by {
                    if self.trusted_peers@.take(i as int).contains(n) {
                        let k = choose|k: int| 0 <= k < i && self.trusted_peers@.take(i as int)[k] == n;
                        assert(self.trusted_peers@[k] == self.trusted_peers@[i as int]);
                    }
                }
                assert(!v@.to_set().contains(n));
                assert(!v@.contains(n));
            }
            insert_sorted(&mut v, n);
            i = i + 1;
        }
        proof {
            assert(self.trusted_peers@.take(self.trusted_peers@.len() as int) =~= self.trusted_peers@);
            self.trusted_peers@.unique_seq_to_set();
        }
        v
    }
}

/// Admission of peers under one policy.
pub struct AuthorizationManager {
    sets: PeerSets,
}

impl AuthorizationManager {
    #[verifier::type_invariant]
    spec fn inv(&self) -> bool {
        self.sets.wf()
    }

    fn take_sets(&mut self) -> (l: PeerSets)
        ensures
            l.wf(),
            l == old(self).sets,
    {
        proof {
            use_type_invariant(&*self);
        }
        let mut l = PeerSets::placeholder();
        std::mem::swap(&mut l, &mut self.sets);
        l
    }

    pub closed spec fn policy(&self) -> AuthorizationPolicy {
        self.sets.policy()
    }

    pub closed spec fn allowed(&self) -> Set<NodeId> {
        self.sets.allowed()
    }

    /// Peers trusted on first use so far.
    pub closed spec fn trusted(&self) -> Set<NodeId> {
        self.sets.trusted()
    }

    /// What authorizing `peer` amounts to in this state.
    pub open spec fn step_for(&self, peer: NodeId) -> AuthorizationStep {
        match self.policy() {
            AuthorizationPolicy::AllowAll => AuthorizationStep::Decided(
                AuthorizationDecision::Allowed,
            ),
            AuthorizationPolicy::AllowList => AuthorizationStep::Decided(
                if self.allowed().contains(peer) {
                    AuthorizationDecision::Allowed
                } else {
                    AuthorizationDecision::Rejected
                },
            ),
            AuthorizationPolicy::TrustOnFirstUse => if self.trusted().contains(peer) {
                AuthorizationStep::Decided(AuthorizationDecision::Allowed)
            } else {
                AuthorizationStep::Persist
            },
        }
    }

    /// A manager for `policy`; the trust store's peers are only kept under
    /// trust on first use.
    pub fn new(policy: AuthorizationPolicy, allow_list: &Vec<NodeId>, stored_trust: &Vec<NodeId>) -> (m:
        AuthorizationManager)
        ensures
            m.policy() == policy,
            m.allowed() == allow_list@.to_set(),
            m.trusted() == (if policy == AuthorizationPolicy::TrustOnFirstUse {
                stored_trust@.to_set()
            } else {
                Set::empty()
            }),
    {
        AuthorizationManager { sets: PeerSets::new(policy, allow_list, stored_trust) }
    }

    /// Whether a peer seen through discovery may be connected to: always,
    /// except under an allow list that does not name it.
    pub fn authorize_discovered_peer(&self, peer_id: NodeId) -> (ok: bool)
        ensures
            ok == (self.policy() != AuthorizationPolicy::AllowList || self.allowed().contains(
                peer_id,
            )),
    {
        proof {
            use_type_invariant(self);
        }
        self.sets.authorize_discovered_peer(peer_id)
    }

    /// First half of authorizing an authenticated peer.  Under trust on
    /// first use an unknown peer is added to the trust set right away, and
    /// the trust store has to be written before the verdict is final.
    pub fn authorize_authenticated_peer(&mut self, peer_id: NodeId) -> (step: AuthorizationStep)
        ensures
            final(self).policy() == old(self).policy(),
            final(self).allowed() == old(self).allowed(),
            step == old(self).step_for(peer_id),
            final(self).trusted() == (if step == AuthorizationStep::Persist {
                old(self).trusted().insert(peer_id)
            } else {
                old(self).trusted()
            }),
    {
        let mut l = self.take_sets();
        let r = l.authorize_authenticated_peer(peer_id);
        self.sets = l;
        r
    }

    /// Second half of a trust-on-first-use admission: with the trust store
    /// written the peer is trusted; otherwise it is taken out of the trust
    /// set again and the failure reported.
    pub fn finish_trust(&mut self, peer_id: NodeId, persisted: bool) -> (r: Result<
        AuthorizationDecision,
        TrustStoreError,
    >)
        ensures
            final(self).policy() == old(self).policy(),
            final(self).allowed() == old(self).allowed(),
            persisted ==> r == Ok::<AuthorizationDecision, TrustStoreError>(
                AuthorizationDecision::TrustedOnFirstUse,
            ) && final(self).trusted() == old(self).trusted(),
            !persisted ==> r == Err::<AuthorizationDecision, TrustStoreError>(TrustStoreError)
                && final(self).trusted() == old(self).trusted().remove(peer_id),
    {
        let mut l = self.take_sets();
        let r = l.finish_trust(peer_id, persisted);
        self.sets = l;
        r
    }

    /// The trusted peers in the order the trust store lists them: by their
    /// hex form, which is the order of their keys.
    pub fn trust_store_order(&self) -> (v: Vec<NodeId>)
        ensures
            v@.to_set() == self.trusted(),
            v@.len() == self.trusted().len(),
            forall|i: int, j: int| 0 <= i < j < v@.len() ==> (#[trigger] v@[i]).key() < (#[trigger] v@[j]).key(),
    {
        proof {
            use_type_invariant(self);
        }
        self.sets.trust_store_order()
    }
}

/// A trust-on-first-use admission whose trust store could not be written
/// leaves the trust set as it was before the peer was seen.
pub proof fn lemma_failed_trust_restores(
    before: AuthorizationManager,
    pending: AuthorizationManager,
    after: AuthorizationManager,
    peer: NodeId,
)
    requires
        !before.trusted().contains(peer),
        pending.trusted() == before.trusted().insert(peer),
        after.trusted() == pending.trusted().remove(peer),
    ensures
        after.trusted() == before.trusted(),
{
    assert(after.trusted() =~= before.trusted());
}

/// A trusted peer stays admitted: under trust on first use a peer in the
/// trust set is allowed without another write of the trust store.
pub proof fn lemma_trusted_stays_allowed(m: AuthorizationManager, peer: NodeId)
    requires
        m.policy() == AuthorizationPolicy::TrustOnFirstUse,
        m.trusted().contains(peer),
    ensures
        m.step_for(peer) == AuthorizationStep::Decided(AuthorizationDecision::Allowed),
{
}

pub(crate) proof fn lemma_remove_to_set(v: Seq<NodeId>, i: int)
    requires
        v.no_duplicates(),
        0 <= i < v.len(),
    ensures
        v.remove(i).to_set() == v.to_set().remove(v[i]),
        v.remove(i).no_duplicates(),
{
    let w = v.remove(i);
    assert forall|x: NodeId| #[trigger] w.to_set().contains(x) == v.to_set().remove(v[i]).contains(x) by {
        if w.to_set().contains(x) {
            let j = choose|j: int| 0 <= j < w.len() && w[j] == x;
            let j2 = if j < i {
                j
            } else {
                j + 1
            };
            assert(v[j2] == x);
        }
        if v.to_set().remove(v[i]).contains(x) {
            let j = choose|j: int| 0 <= j < v.len() && v[j] == x;
            if j < i {
                assert(w[j] == x);
            } else {
                assert(w[j - 1] == x);
            }
        }
    }
    assert(w.to_set() =~= v.to_set().remove(v[i]));
}

/// Inserts `n` into a vector kept in increasing key order.
fn insert_sorted(v: &mut Vec<NodeId>, n: NodeId)
    requires
        !old(v)@.contains(n),
        forall|a: int, b: int| 0 <= a < b < old(v)@.len() ==> (#[trigger] old(v)@[a]).key() < (#[trigger] old(v)@[b]).key(),
    ensures
        final(v)@.to_set() == old(v)@.to_set().insert(n),
        final(v)@.len() == old(v)@.len() + 1,
        forall|a: int, b: int| 0 <= a < b < final(v)@.len() ==> (#[trigger] final(v)@[a]).key() < (#[trigger] final(v)@[b]).key(),
{
    let k = n.key_value();
    let mut pos: usize = 0;
    while pos < v.len() && v[pos].key_value() < k
        invariant
            pos <= v@.len(),
            forall|a: int| 0 <= a < pos ==> (#[trigger] v@[a]).key() < k,
        decreases v@.len() - pos,
    {
        pos = pos + 1;
    }
    let ghost before = v@;
    proof {
        if pos < before.len() {
            assert(before[pos as int].key() >= k);
            if before[pos as int].key() == k {
                NodeId::lemma_key_injective(before[pos as int], n);
                assert(before.contains(n));
            }
        }
    }
    v.insert(pos, n);
    proof {
        assert(v@ =~= before.insert(pos as int, n));
        assert forall|x: NodeId| #[trigger] v@.to_set().contains(x) == before.to_set().insert(
            n,
        ).contains(x) by {
            if v@.to_set().contains(x) {
                let j = choose|j: int| 0 <= j < v@.len() && v@[j] == x;
                if j < pos {
                    assert(before[j] == x);
                } else if j > pos {
                    assert(before[j - 1] == x);
                }
            }
            if before.to_set().contains(x) {
                let j = choose|j: int| 0 <= j < before.len() && before[j] == x;
                if j < pos {
                    assert(v@[j] == x);
                } else {
                    assert(v@[j + 1] == x);
                }
            }
            if x == n {
                assert(v@[pos as int] == n);
            }
        }
        assert(v@.to_set() =~= before.to_set().insert(n));
        assert forall|a: int, b: int| 0 <= a < b < v@.len() implies (#[trigger] v@[a]).key() < (
        #[trigger] v@[b]).key() by {
            if b < pos {
                assert(v@[a] == before[a] && v@[b] == before[b]);
            } else if b == pos {
                assert(v@[a] == before[a]);
            } else if a < pos {
                assert(v@[a] == before[a] && v@[b] == before[b - 1]);
                assert(before[a].key() < k);
                assert(before[pos as int].key() > k);
                if b - 1 > pos {
                    assert(before[pos as int].key() < before[b - 1].key());
                }
            } else if a == pos {
                assert(v@[b] == before[b - 1]);
                assert(before[pos as int].key() > k);
                if b - 1 > pos {
                    assert(before[pos as int].key() < before[b - 1].key());
                }
            } else {
                assert(v@[a] == before[a - 1] && v@[b] == before[b - 1]);
            }
        }
    }
}

/// Why a hex key was refused.
#[derive(Debug, Clone, Copy, PartialEq, Eq, Structural)]
pub enum HexKeyError {
    /// The text is not 64 bytes long.
    WrongLength,
    /// Byte pair `index` is not UTF-8 text on its own.
    InvalidUtf8 { index: usize },
    /// Byte pair `index` is text but not a hex byte.
    InvalidByte { index: usize },
}

/// The byte pair an error points at (zero for a wrong length).
pub open spec fn error_pair(e: HexKeyError) -> int {
    match e {
        HexKeyError::WrongLength => 0,
        HexKeyError::InvalidUtf8 { index } => index as int,
        HexKeyError::InvalidByte { index } => index as int,
    }
}

/// Whether two bytes are UTF-8 text on their own: two ASCII bytes, or one
/// two-byte character.
pub open spec fn pair_is_text(a: u8, b: u8) -> bool {
    (a < 0x80 && b < 0x80) || (0xc2 <= a <= 0xdf && 0x80 <= b <= 0xbf)
}

/// Parses the 64-hex-character discovery shared key, two hex digits (either
/// case) per byte.
pub fn parse_discovery_shared_key(value: &str) -> (r: Result<[u8; 32], HexKeyError>)
    ensures
        key_parse_result(value.spec_bytes(), r),
{
    parse_key32(value)
}

/// Parses a peer's 64-hex-character X25519 public key, two hex digits
/// (either case) per byte.
pub fn parse_x25519_hex(value: &str) -> (r: Result<[u8; 32], HexKeyError>)
    ensures
        key_parse_result(value.spec_bytes(), r),
{
    parse_key32(value)
}

/// What parsing a 32-byte key from the bytes `b` gives: a length error
/// off 64 bytes, the decoded key, or the first pair that does not decode
/// and whether it was not even text.
pub open spec fn key_parse_result(b: Seq<u8>, r: Result<[u8; 32], HexKeyError>) -> bool {
    &&& b.len() != 64 ==> r == Err::<[u8; 32], HexKeyError>(HexKeyError::WrongLength)
    &&& b.len() == 64 && decode_byte_pairs(b) is Some ==> (r is Ok && Some(r->Ok_0@)
        == decode_byte_pairs(b))
    &&& b.len() == 64 && decode_byte_pairs(b) is None ==> (r is Err && first_bad_pair(
        b,
        error_pair(r->Err_0),
    ) && (r->Err_0 is InvalidUtf8 <==> !pair_is_text(
        b[2 * error_pair(r->Err_0)],
        b[2 * error_pair(r->Err_0) + 1],
    )) && !(r->Err_0 is WrongLength))
}

fn parse_key32(value: &str) -> (r: Result<[u8; 32], HexKeyError>)
    ensures
        key_parse_result(value.spec_bytes(), r),
{
    let bytes = value.as_bytes();
    if bytes.len() != 64 {
        return Err(HexKeyError::WrongLength);
    }
    match decode_pairs(bytes, 32) {
        Ok(v) => {
            let mut key = [0u8; 32];
            let mut i: usize = 0;
            while i < 32
                invariant
                    v@.len() == 32,
                    key@.len() == 32,
                    i <= 32,
                    forall|k: int| 0 <= k < i ==> key@[k] == v@[k],
                decreases 32 - i,
            {
                key[i] = v[i];
                i = i + 1;
            }
            proof {
                assert(key@ =~= v@);
            }
            Ok(key)
        },
        Err(k) => {
            let a = bytes[2 * k];
            let b = bytes[2 * k + 1];
            if (a < 0x80 && b < 0x80) || (0xc2 <= a && a <= 0xdf && 0x80 <= b && b <= 0xbf) {
                Err(HexKeyError::InvalidByte { index: k })
            } else {
                Err(HexKeyError::InvalidUtf8 { index: k })
            }
        },
    }
}

} // verus!
