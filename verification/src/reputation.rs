//! Peer reputation and automatic blacklisting.
//!
//! Each peer starts with a score of 0.  Failures (heartbeat timeout, invalid
//! frames) increment the score; successful interactions (Pong response)
//! decrement it.  When the score reaches [`BLACKLIST_THRESHOLD`] the peer is
//! considered malicious and is blacklisted in the routing table.
use std::collections::HashMap;

use vstd::prelude::*;

use crate::node_id::NodeId;

verus! {

broadcast use vstd::std_specs::hash::group_hash_axioms;

/// Score at which a peer is considered malicious and blacklisted.
pub const BLACKLIST_THRESHOLD: u32 = 10;

/// Score of `peer` in a score table (0 when the peer is unknown).
pub open spec fn score_of(scores: Map<u128, u32>, peer: u128) -> u32 {
    if scores.contains_key(peer) {
        scores[peer]
    } else {
        0
    }
}

/// The score table after one failure of `peer`.
pub open spec fn after_failure(scores: Map<u128, u32>, peer: u128) -> Map<u128, u32> {
    let s = score_of(scores, peer);
    scores.insert(peer, if s == u32::MAX { u32::MAX } else { (s + 1) as u32 })
}

/// The score table after one success of `peer` (floor 0, unknown peers untouched).
pub open spec fn after_success(scores: Map<u128, u32>, peer: u128) -> Map<u128, u32> {
    if scores.contains_key(peer) {
        scores.insert(peer, if scores[peer] == 0 { 0 } else { (scores[peer] - 1) as u32 })
    } else {
        scores
    }
}

/// The score table after `n` consecutive failures of `peer`.
pub open spec fn after_failures(scores: Map<u128, u32>, peer: u128, n: nat) -> Map<u128, u32>
    decreases n,
{
    if n == 0 {
        scores
    } else {
        after_failure(after_failures(scores, peer, (n - 1) as nat), peer)
    }
}

pub struct ReputationTracker {
    scores: HashMap<u128, u32>,
}

impl ReputationTracker {
    /// Peer key → accumulated score.
    pub closed spec fn view(&self) -> Map<u128, u32> {
        self.scores@
    }

    pub open spec fn score(&self, peer: NodeId) -> u32 {
        score_of(self@, peer.key())
    }

    pub fn new() -> (t: ReputationTracker)
        ensures
            t@ == Map::<u128, u32>::empty(),
    {
        ReputationTracker { scores: HashMap::new() }
    }

    /// Record a failure for `peer_id`.
    ///
    /// Returns `true` the first time the peer's score reaches
    /// `BLACKLIST_THRESHOLD` (i.e., the peer is *newly* blacklisted).
    pub fn record_failure(&mut self, peer_id: NodeId) -> (newly: bool)
        ensures
            final(self)@ == after_failure(old(self)@, peer_id.key()),
            newly == (old(self).score(peer_id) + 1 == BLACKLIST_THRESHOLD),
    {
        let k = peer_id.key_value();
        let current = match self.scores.get(&k) {
            Some(s) => *s,
            None => 0,
        };
        let next = current.saturating_add(1);
        self.scores.insert(k, next);
        next == BLACKLIST_THRESHOLD
    }

    /// Record a successful interaction, decrementing the score (floor 0).
    /// Unknown peers are left untouched.
    pub fn record_success(&mut self, peer_id: NodeId)
        ensures
            final(self)@ == after_success(old(self)@, peer_id.key()),
    {
        let k = peer_id.key_value();
        match self.scores.get(&k) {
            Some(s) => {
                let next = (*s).saturating_sub(1);
                self.scores.insert(k, next);
            },
            None => {},
        }
    }

    /// Returns `true` if `peer_id` is at or above the blacklist threshold.
    pub fn is_blacklisted(&self, peer_id: &NodeId) -> (b: bool)
        ensures
            b == (self.score(*peer_id) >= BLACKLIST_THRESHOLD),
    {
        let k = peer_id.key_value();
        let s = match self.scores.get(&k) {
            Some(s) => *s,
            None => 0,
        };
        s >= BLACKLIST_THRESHOLD
    }

    /// Pardon a peer by removing all accumulated score.
    pub fn pardon(&mut self, peer_id: &NodeId)
        ensures
            final(self)@ == old(self)@.remove(peer_id.key()),
    {
        let k = peer_id.key_value();
        self.scores.remove(&k);
    }
}

/// A failure that reports "newly blacklisted" leaves the peer blacklisted, and
/// a peer already at or above the threshold is never reported again.
pub proof fn lemma_newly_blacklisted_is_blacklisted(scores: Map<u128, u32>, peer: u128)
    ensures
        score_of(scores, peer) + 1 == BLACKLIST_THRESHOLD ==> score_of(
            after_failure(scores, peer),
            peer,
        ) >= BLACKLIST_THRESHOLD,
        score_of(scores, peer) >= BLACKLIST_THRESHOLD ==> score_of(after_failure(scores, peer), peer)
            + 1 != BLACKLIST_THRESHOLD && score_of(after_failure(scores, peer), peer)
            >= BLACKLIST_THRESHOLD,
{
}

/// Starting from a clean record, `n` consecutive failures leave a score of
/// `n`; the peer is blacklisted exactly when `n` reaches the threshold, and
/// only the failure that reaches it reports the peer as newly blacklisted.
pub proof fn lemma_failures_accumulate(scores: Map<u128, u32>, peer: u128, n: nat)
    requires
        score_of(scores, peer) == 0,
        n <= u32::MAX,
    ensures
        score_of(after_failures(scores, peer, n), peer) == n,
        (score_of(after_failures(scores, peer, n), peer) >= BLACKLIST_THRESHOLD) == (n
            >= BLACKLIST_THRESHOLD),
        n > 0 ==> ((score_of(after_failures(scores, peer, (n - 1) as nat), peer) + 1
            == BLACKLIST_THRESHOLD) == (n == BLACKLIST_THRESHOLD)),
    decreases n,
{
    if n > 0 {
        lemma_failures_accumulate(scores, peer, (n - 1) as nat);
    }
}

/// A success lowers the score by one, never below zero.
pub proof fn lemma_success_floor_zero(scores: Map<u128, u32>, peer: u128)
    ensures
        score_of(after_success(scores, peer), peer) == if score_of(scores, peer) == 0 {
            0
        } else {
            score_of(scores, peer) - 1
        },
{
}

/// A pardon clears the peer's score.
pub proof fn lemma_pardon_clears(scores: Map<u128, u32>, peer: u128)
    ensures
        score_of(scores.remove(peer), peer) == 0,
        score_of(scores.remove(peer), peer) < BLACKLIST_THRESHOLD,
{
}

/// Failures, successes and pardons of one peer leave every other peer's
/// score as it was.
pub proof fn lemma_other_peers_unaffected(scores: Map<u128, u32>, peer: u128, other: u128)
    requires
        peer != other,
    ensures
        score_of(after_failure(scores, peer), other) == score_of(scores, other),
        score_of(after_success(scores, peer), other) == score_of(scores, other),
        score_of(scores.remove(peer), other) == score_of(scores, other),
{
}

} // verus!
