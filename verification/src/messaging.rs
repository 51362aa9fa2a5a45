//! Messaging model: message and conversation records, their text forms,
//! and the decisions the message store and the dispatch path make.
//!
//! The SQLite store itself lives outside the library; it reads rows, hands
//! them to the functions here, and writes back what they return.
use vstd::prelude::*;

use crate::bytes::{bytes_eq, copy_bytes};
use crate::hex::{hex_of, push_hex};
use crate::node_id::NodeId;
use crate::text::{chars_of, prefix_chars, push_char, str_eq, take_chars};

verus! {

/// Maximum plaintext body size, in bytes, of a message sent locally.
pub const MAX_BODY_BYTES: usize = 8192;

/// Characters of a message body kept in a conversation preview.
pub const PREVIEW_CHARS: usize = 80;

/// Characters of a node id kept in its short form.
pub const SHORT_ID_CHARS: usize = 8;

/// Source of an incoming `PeerInfo` frame: a direct neighbour over an
/// existing session, or routed over the multi-hop control plane.
#[derive(Debug, Clone, Copy, PartialEq, Eq, Structural)]
pub enum PeerInfoSource {
    Direct,
    Routed,
}

/// Discriminator for a history wipe: one conversation or everything.
#[derive(Debug, Clone, Copy, PartialEq, Eq, Structural)]
pub enum HistoryScope {
    Peer,
    All,
}

/// Direction of a stored message relative to the local node.
#[derive(Debug, Clone, Copy, PartialEq, Eq, Structural)]
pub enum MessageDirection {
    /// Outbound message originated locally.
    Sent,
    /// Inbound message received from a peer.
    Received,
}

/// The stored text of a direction.
pub open spec fn direction_text(d: MessageDirection) -> Seq<char> {
    match d {
        MessageDirection::Sent => "sent"@,
        MessageDirection::Received => "received"@,
    }
}

impl MessageDirection {
    pub fn as_str(&self) -> (s: &'static str)
        ensures
            s@ == direction_text(*self),
    {
        match self {
            MessageDirection::Sent => "sent",
            MessageDirection::Received => "received",
        }
    }

    /// Parses the stored text; anything else is handed back as the error.
    pub fn from_str(s: &str) -> (r: Result<MessageDirection, String>)
        ensures
            r matches Ok(d) ==> direction_text(d) == s@,
            r matches Err(e) ==> e@ == s@ && forall|d: MessageDirection| direction_text(d) != s@,
    {
        if str_eq(s, "sent") {
            Ok(MessageDirection::Sent)
        } else if str_eq(s, "received") {
            Ok(MessageDirection::Received)
        } else {
            proof {
                assert forall|d: MessageDirection| direction_text(d) != s@ by {
                    match d {
                        MessageDirection::Sent => {},
                        MessageDirection::Received => {},
                    }
                }
            }
            Err(s.to_owned())
        }
    }
}

/// Lifecycle of a message, from local persistence to peer
/// acknowledgement.  Inbound messages start at `Delivered`.
#[derive(Debug, Clone, Copy, PartialEq, Eq, Structural)]
pub enum MessageStatus {
    Pending,
    Sent,
    Delivered,
    Read,
    Failed,
}

/// The stored text of a status.
pub open spec fn status_text(st: MessageStatus) -> Seq<char> {
    match st {
        MessageStatus::Pending => "pending"@,
        MessageStatus::Sent => "sent"@,
        MessageStatus::Delivered => "delivered"@,
        MessageStatus::Read => "read"@,
        MessageStatus::Failed => "failed"@,
    }
}

impl MessageStatus {
    pub fn as_str(&self) -> (s: &'static str)
        ensures
            s@ == status_text(*self),
    {
        match self {
            MessageStatus::Pending => "pending",
            MessageStatus::Sent => "sent",
            MessageStatus::Delivered => "delivered",
            MessageStatus::Read => "read",
            MessageStatus::Failed => "failed",
        }
    }

    /// Parses the stored text; anything else is handed back as the error.
    pub fn from_str(s: &str) -> (r: Result<MessageStatus, String>)
        ensures
            r matches Ok(st) ==> status_text(st) == s@,
            r matches Err(e) ==> e@ == s@ && forall|st: MessageStatus| status_text(st) != s@,
    {
        if str_eq(s, "pending") {
            Ok(MessageStatus::Pending)
        } else if str_eq(s, "sent") {
            Ok(MessageStatus::Sent)
        } else if str_eq(s, "delivered") {
            Ok(MessageStatus::Delivered)
        } else if str_eq(s, "read") {
            Ok(MessageStatus::Read)
        } else if str_eq(s, "failed") {
            Ok(MessageStatus::Failed)
        } else {
            proof {
                assert forall|st: MessageStatus| status_text(st) != s@ by {
                    match st {
                        MessageStatus::Pending => {},
                        MessageStatus::Sent => {},
                        MessageStatus::Delivered => {},
                        MessageStatus::Read => {},
                        MessageStatus::Failed => {},
                    }
                }
            }
            Err(s.to_owned())
        }
    }
}

/// Acknowledgement category carried by a `MessageAck` frame.
#[derive(Debug, Clone, Copy, PartialEq, Eq, Structural)]
pub enum AckKind {
    /// Recipient persisted the message.
    Delivered,
    /// Recipient marked the message read.
    Read,
}

/// The wire tag of an acknowledgement category.
pub open spec fn ack_tag(k: AckKind) -> u8 {
    match k {
        AckKind::Delivered => 1,
        AckKind::Read => 2,
    }
}

impl AckKind {
    /// Decodes the wire-level ack tag; `None` for unknown values.
    pub fn from_u8(v: u8) -> (r: Option<AckKind>)
        ensures
            r matches Some(k) ==> ack_tag(k) == v,
            r is None ==> v != 1 && v != 2,
    {
        match v {
            1 => Some(AckKind::Delivered),
            2 => Some(AckKind::Read),
            _ => None,
        }
    }

    /// The wire-level ack tag.
    pub fn to_u8(self) -> (v: u8)
        ensures
            v == ack_tag(self),
    {
        match self {
            AckKind::Delivered => 1,
            AckKind::Read => 2,
        }
    }
}

/// One stored message, sent or received.
#[derive(Debug, Clone)]
pub struct MessageRecord {
    /// 32-char lowercase hex of the message id.
    pub id: String,
    /// Peer node id, 32-char lowercase hex.
    pub peer_node_id: String,
    pub direction: MessageDirection,
    /// Plaintext UTF-8 body.
    pub body: String,
    /// Wall-clock at the sender.
    pub timestamp_ms: i64,
    pub status: MessageStatus,
    /// Last failure reason (only set when the status is `Failed`).
    pub failure_reason: Option<String>,
    /// Wall-clock when the delivery ack was applied.
    pub delivered_at_ms: Option<i64>,
    /// Wall-clock when the read ack was applied.
    pub read_at_ms: Option<i64>,
}

/// Denormalized conversation row.
#[derive(Debug, Clone)]
pub struct ConversationSummary {
    pub peer_node_id: String,
    /// 8-char prefix of the peer node id.
    pub peer_node_id_short: String,
    /// Latest friendly name for the peer; falls back to the short id.
    pub name: String,
    /// Start of the most recent message body (at most 80 chars).
    pub last_message_preview: Option<String>,
    pub last_message_ts_ms: Option<i64>,
    /// Received messages since the conversation was last read.
    pub unread_count: i64,
    /// Cached X25519 public key (64-char lowercase hex), if known.
    pub x25519_pubkey: Option<String>,
}

/// What forgetting a peer removed.
#[derive(Debug, Clone, PartialEq, Eq, Structural)]
pub struct ForgetPeerOutcome {
    /// A cached identity existed and was removed.
    pub forgot_identity: bool,
    /// Message rows deleted (non-zero only when history was wiped too).
    pub deleted_messages: usize,
    /// A conversation row existed and was removed.
    pub deleted_conversation: bool,
}

/// Outcome of an out-of-band identity import.
#[derive(Debug, Clone, PartialEq, Eq)]
pub enum ImportOutcome {
    /// The node was not cached; a fresh row was created.
    Inserted,
    /// The node was cached with the same key; timestamps (and possibly the
    /// name) were refreshed.
    Refreshed,
    /// The node is cached with a different key, left untouched; its hex
    /// form is reported.
    KeyMismatch { existing_x25519_hex: String },
}

/// Event emitted by the messaging subsystem.
#[allow(inconsistent_fields)]
#[derive(Debug, Clone)]
pub enum MessageEvent {
    MessageReceived { message: Box<MessageRecord>, conversation: Box<ConversationSummary> },
    MessageStatus {
        message_id: String,
        peer_node_id: String,
        new_status: MessageStatus,
        at_ms: i64,
    },
    PeerSeen { peer_node_id: String, name: String, x25519_known: bool, via: PeerInfoSource },
    HistoryCleared {
        peer_node_id: Option<String>,
        scope: HistoryScope,
        deleted_messages: i64,
    },
}

/// A conversation preview: the first 80 characters, newlines shown as
/// spaces.
pub open spec fn preview_text(body: Seq<char>) -> Seq<char> {
    prefix_chars(body, PREVIEW_CHARS as nat).map_values(
        |c: char|
            if c == '\n' {
                ' '
            } else {
                c
            },
    )
}

/// Preview of a message body for the conversation list.
pub fn preview_of(body: &str) -> (p: String)
    ensures
        p@ == preview_text(body@),
{
    let head = take_chars(body, PREVIEW_CHARS);
    let cs = chars_of(head.as_str());
    let mut out = String::new();
    let mut i: usize = 0;
    while i < cs.len()
        invariant
            cs@ == prefix_chars(body@, PREVIEW_CHARS as nat),
            i <= cs@.len(),
            out@ == preview_text(body@).take(i as int),
        decreases cs@.len() - i,
    {
        let c = cs[i];
        let shown = if c == '\n' {
            ' '
        } else {
            c
        };
        proof {
            assert(preview_text(body@).take(i + 1) =~= preview_text(body@).take(i as int).push(
                shown,
            ));
        }
        push_char(&mut out, shown);
        i = i + 1;
    }
    proof {
        assert(preview_text(body@).take(cs@.len() as int) =~= preview_text(body@));
    }
    out
}

/// The 8-character prefix of a hex node id.
pub fn short_id(hex: &str) -> (s: String)
    ensures
        s@ == prefix_chars(hex@, SHORT_ID_CHARS as nat),
{
    take_chars(hex, SHORT_ID_CHARS)
}

/// Lowercase hex of a 16-byte identifier.
pub fn hex16(bytes: &[u8; 16]) -> (s: String)
    ensures
        s@ == hex_of(bytes@),
{
    let mut out = String::new();
    push_hex(&mut out, bytes.as_slice());
    proof {
        assert(out@ =~= hex_of(bytes@));
    }
    out
}

/// Lowercase hex of a key or any other byte string.
pub fn hex32(bytes: &[u8]) -> (s: String)
    ensures
        s@ == hex_of(bytes@),
{
    let mut out = String::new();
    push_hex(&mut out, bytes);
    proof {
        assert(out@ =~= hex_of(bytes@));
    }
    out
}

/// 32-character lowercase hex form of a node id.
pub fn hex_node_id(id: &NodeId) -> (s: String)
    ensures
        s@ == hex_of(id.bytes()),
{
    id.to_hex()
}

/// Whether a body of `len` bytes may be sent.
pub fn body_within_limit(len: usize) -> (ok: bool)
    ensures
        ok == (len <= MAX_BODY_BYTES),
{
    len <= MAX_BODY_BYTES
}

/// A cached peer identity, as the store keeps it.
#[derive(Debug)]
pub struct PeerSeenRow {
    pub x25519_pub: Vec<u8>,
    pub last_known_name: String,
    pub first_seen_ms: i64,
    pub last_seen_ms: i64,
}

/// The name an import applies: only a supplied, non-empty one.
pub open spec fn name_override(name_if_set: Option<Seq<char>>) -> Option<Seq<char>> {
    match name_if_set {
        Some(n) => if n.len() > 0 {
            Some(n)
        } else {
            None
        },
        None => None,
    }
}

/// `row` holds exactly these values.
pub open spec fn row_is(row: PeerSeenRow, key: Seq<u8>, name: Seq<char>, first: i64, last: i64) -> bool {
    &&& row.x25519_pub@ == key
    &&& row.last_known_name@ == name
    &&& row.first_seen_ms == first
    &&& row.last_seen_ms == last
}

/// The view of an optional string slice.
pub open spec fn opt_view(o: Option<&str>) -> Option<Seq<char>> {
    match o {
        Some(s) => Some(s@),
        None => None,
    }
}

fn copy_str(s: &str) -> (r: String)
    ensures
        r@ == s@,
{
    s.to_owned()
}

/// Out-of-band identity import against the cached row `existing`.
///
/// Returns the outcome and the row to write back (`None`: leave the
/// store as it is).  A new node is inserted with the given name (empty
/// when none); a node cached with the same key gets its last-seen time
/// and, when a non-empty name is given, its name refreshed; a node cached
/// with a different key is refused and its key reported.
pub fn import_identity(
    existing: Option<&PeerSeenRow>,
    x25519_pub: &[u8; 32],
    name_if_set: Option<&str>,
    now_ms: i64,
) -> (r: (ImportOutcome, Option<PeerSeenRow>))
    ensures
        existing is None ==> (r.0 == ImportOutcome::Inserted && r.1 is Some && row_is(
            r.1->0,
            x25519_pub@,
            match name_if_set {
                Some(n) => n@,
                None => Seq::<char>::empty(),
            },
            now_ms,
            now_ms,
        )),
        existing is Some && existing->0.x25519_pub@ == x25519_pub@ ==> (r.0
            == ImportOutcome::Refreshed && r.1 is Some && row_is(
            r.1->0,
            x25519_pub@,
            match name_override(opt_view(name_if_set)) {
                Some(n) => n,
                None => existing->0.last_known_name@,
            },
            existing->0.first_seen_ms,
            now_ms,
        )),
        existing is Some && existing->0.x25519_pub@ != x25519_pub@ ==> (r.1 is None
            && r.0 is KeyMismatch && r.0->existing_x25519_hex@ == hex_of(existing->0.x25519_pub@)),
{
    match existing {
        None => {
            let name = match name_if_set {
                Some(n) => copy_str(n),
                None => String::new(),
            };
            let row = PeerSeenRow {
                x25519_pub: copy_bytes(x25519_pub.as_slice()),
                last_known_name: name,
                first_seen_ms: now_ms,
                last_seen_ms: now_ms,
            };
            (ImportOutcome::Inserted, Some(row))
        },
        Some(old_row) => {
            if bytes_eq(old_row.x25519_pub.as_slice(), x25519_pub.as_slice()) {
                let name = match name_if_set {
                    Some(n) => if !n.is_empty() {
                        copy_str(n)
                    } else {
                        old_row.last_known_name.clone()
                    },
                    None => old_row.last_known_name.clone(),
                };
                let row = PeerSeenRow {
                    x25519_pub: copy_bytes(x25519_pub.as_slice()),
                    last_known_name: name,
                    first_seen_ms: old_row.first_seen_ms,
                    last_seen_ms: now_ms,
                };
                (ImportOutcome::Refreshed, Some(row))
            } else {
                let hex = hex32(old_row.x25519_pub.as_slice());
                (ImportOutcome::KeyMismatch { existing_x25519_hex: hex }, None)
            }
        },
    }
}

/// Wire-learned identity: insert the node or refresh its key, name and
/// last-seen time.  Returns whether the row is new, and the row to write.
pub fn upsert_peer_seen(
    existing: Option<&PeerSeenRow>,
    x25519_pub: &[u8; 32],
    name: &str,
    now_ms: i64,
) -> (r: (bool, PeerSeenRow))
    ensures
        r.0 == existing is None,
        r.1.x25519_pub@ == x25519_pub@,
        r.1.last_known_name@ == name@,
        r.1.last_seen_ms == now_ms,
        r.1.first_seen_ms == (match existing {
            Some(old_row) => old_row.first_seen_ms,
            None => now_ms,
        }),
{
    let first = match existing {
        Some(old_row) => old_row.first_seen_ms,
        None => now_ms,
    };
    let row = PeerSeenRow {
        x25519_pub: copy_bytes(x25519_pub.as_slice()),
        last_known_name: copy_str(name),
        first_seen_ms: first,
        last_seen_ms: now_ms,
    };
    (existing.is_none(), row)
}

/// The X25519 key stored in a row, when it has the right length.
pub fn x25519_from_row(bytes: &[u8]) -> (r: Option<[u8; 32]>)
    ensures
        r matches Some(k) ==> bytes@.len() == 32 && k@ == bytes@,
        r is None ==> bytes@.len() != 32,
{
    if bytes.len() != 32 {
        return None;
    }
    let mut out = [0u8; 32];
    let mut i: usize = 0;
    while i < 32
        invariant
            bytes@.len() == 32,
            out@.len() == 32,
            i <= 32,
            forall|k: int| 0 <= k < i ==> out@[k] == bytes@[k],
        decreases 32 - i,
    {
        out[i] = bytes[i];
        i = i + 1;
    }
    proof {
        assert(out@ =~= bytes@);
    }
    Some(out)
}

/// Hex of a stored key, when it has the right length.
pub fn x25519_hex_from_row(bytes: Option<&[u8]>) -> (r: Option<String>)
    ensures
        r is Some <==> (bytes is Some && bytes->0@.len() == 32),
        r is Some ==> r->0@ == hex_of(bytes->0@),
{
    match bytes {
        Some(b) => if b.len() == 32 {
            Some(hex32(b))
        } else {
            None
        },
        None => None,
    }
}

/// Conversation row for the conversation list and for the event of a
/// received message.  The displayed name is the first of the preferred and
/// fallback names that is present, else the short id.
pub fn conversation_summary(
    peer_node_id: String,
    preferred_name: Option<String>,
    fallback_name: Option<String>,
    last_message_preview: Option<String>,
    last_message_ts_ms: Option<i64>,
    unread_count: i64,
    x25519_pub: Option<&[u8]>,
) -> (c: ConversationSummary)
    ensures
        c.peer_node_id@ == peer_node_id@,
        c.peer_node_id_short@ == prefix_chars(peer_node_id@, SHORT_ID_CHARS as nat),
        c.name@ == (match preferred_name {
            Some(n) => n@,
            None => match fallback_name {
                Some(n) => n@,
                None => prefix_chars(peer_node_id@, SHORT_ID_CHARS as nat),
            },
        }),
        c.last_message_preview == last_message_preview,
        c.last_message_ts_ms == last_message_ts_ms,
        c.unread_count == unread_count,
        c.x25519_pubkey is Some <==> (x25519_pub is Some && x25519_pub->0@.len() == 32),
        c.x25519_pubkey is Some ==> c.x25519_pubkey->0@ == hex_of(x25519_pub->0@),
{
    let short = short_id(peer_node_id.as_str());
    let name = match preferred_name {
        Some(n) => n,
        None => match fallback_name {
            Some(n) => n,
            None => short.clone(),
        },
    };
    ConversationSummary {
        peer_node_id,
        peer_node_id_short: short,
        name,
        last_message_preview,
        last_message_ts_ms,
        unread_count,
        x25519_pubkey: x25519_hex_from_row(x25519_pub),
    }
}

/// Unread count of a conversation after one more message arrives
/// (a new conversation starts at one).
pub fn unread_after_receive(existing: Option<i64>) -> (n: i64)
    requires
        existing matches Some(u) ==> u < i64::MAX,
    ensures
        n == (match existing {
            Some(u) => u + 1,
            None => 1,
        }),
{
    match existing {
        Some(u) => u + 1,
        None => 1,
    }
}

/// The record persisted for a locally sent message: pending, no ack yet.
pub fn local_send_record(peer: &NodeId, message_id: &[u8; 16], body: String, timestamp_ms: i64) -> (m:
    MessageRecord)
    ensures
        m.id@ == hex_of(message_id@),
        m.peer_node_id@ == hex_of(peer.bytes()),
        m.direction == MessageDirection::Sent,
        m.body == body,
        m.timestamp_ms == timestamp_ms,
        m.status == MessageStatus::Pending,
        m.failure_reason is None,
        m.delivered_at_ms is None,
        m.read_at_ms is None,
{
    MessageRecord {
        id: hex16(message_id),
        peer_node_id: hex_node_id(peer),
        direction: MessageDirection::Sent,
        body,
        timestamp_ms,
        status: MessageStatus::Pending,
        failure_reason: None,
        delivered_at_ms: None,
        read_at_ms: None,
    }
}

/// The record persisted for a received message: delivered at
/// `received_at_ms`, stamped with the sender's clock.
pub fn remote_receive_record(
    peer: &NodeId,
    message_id: &[u8; 16],
    body: String,
    sender_timestamp_ms: i64,
    received_at_ms: i64,
) -> (m: MessageRecord)
    ensures
        m.id@ == hex_of(message_id@),
        m.peer_node_id@ == hex_of(peer.bytes()),
        m.direction == MessageDirection::Received,
        m.body == body,
        m.timestamp_ms == sender_timestamp_ms,
        m.status == MessageStatus::Delivered,
        m.failure_reason is None,
        m.delivered_at_ms == Some(received_at_ms),
        m.read_at_ms is None,
{
    MessageRecord {
        id: hex16(message_id),
        peer_node_id: hex_node_id(peer),
        direction: MessageDirection::Received,
        body,
        timestamp_ms: sender_timestamp_ms,
        status: MessageStatus::Delivered,
        failure_reason: None,
        delivered_at_ms: Some(received_at_ms),
        read_at_ms: None,
    }
}

/// A timestamp that is only filled in when still empty.
pub open spec fn coalesce(current: Option<i64>, value: i64) -> Option<i64> {
    match current {
        Some(t) => Some(t),
        None => Some(value),
    }
}

/// Status transition of a stored message.  With both ack times given they
/// are both written; with one, it only fills that time when still empty.
pub fn apply_status(
    m: &mut MessageRecord,
    status: MessageStatus,
    delivered_at_ms: Option<i64>,
    read_at_ms: Option<i64>,
)
    ensures
        final(m).status == status,
        final(m).delivered_at_ms == (match (delivered_at_ms, read_at_ms) {
            (Some(d), Some(_)) => Some(d),
            (Some(d), None) => coalesce(old(m).delivered_at_ms, d),
            _ => old(m).delivered_at_ms,
        }),
        final(m).read_at_ms == (match (delivered_at_ms, read_at_ms) {
            (Some(_), Some(r)) => Some(r),
            (None, Some(r)) => coalesce(old(m).read_at_ms, r),
            _ => old(m).read_at_ms,
        }),
        final(m).id == old(m).id,
        final(m).peer_node_id == old(m).peer_node_id,
        final(m).direction == old(m).direction,
        final(m).body == old(m).body,
        final(m).timestamp_ms == old(m).timestamp_ms,
        final(m).failure_reason == old(m).failure_reason,
{
    m.status = status;
    match (delivered_at_ms, read_at_ms) {
        (Some(d), Some(r)) => {
            m.delivered_at_ms = Some(d);
            m.read_at_ms = Some(r);
        },
        (Some(d), None) => {
            if m.delivered_at_ms.is_none() {
                m.delivered_at_ms = Some(d);
            }
        },
        (None, Some(r)) => {
            if m.read_at_ms.is_none() {
                m.read_at_ms = Some(r);
            }
        },
        (None, None) => {},
    }
}

/// Marks a message failed with a reason; its delivery time is filled in
/// with `at_ms` when still empty.
pub fn apply_failure(m: &mut MessageRecord, reason: String, at_ms: i64)
    ensures
        final(m).status == MessageStatus::Failed,
        final(m).failure_reason == Some(reason),
        final(m).delivered_at_ms == coalesce(old(m).delivered_at_ms, at_ms),
        final(m).read_at_ms == old(m).read_at_ms,
        final(m).id == old(m).id,
        final(m).peer_node_id == old(m).peer_node_id,
        final(m).direction == old(m).direction,
        final(m).body == old(m).body,
        final(m).timestamp_ms == old(m).timestamp_ms,
{
    m.status = MessageStatus::Failed;
    m.failure_reason = Some(reason);
    if m.delivered_at_ms.is_none() {
        m.delivered_at_ms = Some(at_ms);
    }
}

/// Whether marking a conversation read up to `up_to_ts_ms` touches this
/// message: a received one, not yet read, no newer than the mark.
pub open spec fn read_mark_applies(m: MessageRecord, up_to_ts_ms: i64) -> bool {
    &&& m.direction == MessageDirection::Received
    &&& m.timestamp_ms <= up_to_ts_ms
    &&& m.status != MessageStatus::Read
}

/// Marks one message read when the read mark up to `up_to_ts_ms` applies
/// to it; returns whether it did.
pub fn apply_read_mark(m: &mut MessageRecord, up_to_ts_ms: i64) -> (changed: bool)
    ensures
        changed == read_mark_applies(*old(m), up_to_ts_ms),
        !read_mark_applies(*final(m), up_to_ts_ms),
        changed ==> final(m).status == MessageStatus::Read && final(m).read_at_ms == coalesce(
            old(m).read_at_ms,
            up_to_ts_ms,
        ),
        !changed ==> final(m).status == old(m).status && final(m).read_at_ms == old(m).read_at_ms,
        final(m).delivered_at_ms == old(m).delivered_at_ms,
        final(m).failure_reason == old(m).failure_reason,
        final(m).id == old(m).id,
        final(m).peer_node_id == old(m).peer_node_id,
        final(m).direction == old(m).direction,
        final(m).body == old(m).body,
        final(m).timestamp_ms == old(m).timestamp_ms,
{
    if m.direction == MessageDirection::Received && m.timestamp_ms <= up_to_ts_ms && m.status
        != MessageStatus::Read {
        m.status = MessageStatus::Read;
        if m.read_at_ms.is_none() {
            m.read_at_ms = Some(up_to_ts_ms);
        }
        true
    } else {
        false
    }
}

/// Rows to fetch for a history page of `limit`: one more than asked, to
/// learn whether more exist, and never fewer than two.
pub fn history_fetch_limit(limit: i64) -> (n: i64)
    ensures
        n == (if limit >= i64::MAX {
            i64::MAX as int
        } else if limit + 1 < 2 {
            2
        } else {
            limit + 1
        }),
{
    let plus = if limit == i64::MAX {
        i64::MAX
    } else {
        limit + 1
    };
    if plus < 2 {
        2
    } else {
        plus
    }
}

/// Cuts fetched history rows to a page of `limit`, and reports whether
/// more rows than that were found.  A negative limit keeps every row.
pub fn history_page(rows: Vec<MessageRecord>, limit: i64) -> (r: (Vec<MessageRecord>, bool))
    ensures
        r.1 == (rows@.len() > limit),
        r.0@ == (if r.1 && limit >= 0 {
            rows@.take(limit as int)
        } else {
            rows@
        }),
{
    let has_more = rows.len() as i128 > limit as i128;
    let mut out = rows;
    if has_more && limit >= 0 {
        let keep = limit as usize;
        out.truncate(keep);
    }
    (out, has_more)
}

/// Outcome of forgetting a peer, from the rows each delete removed.
pub fn forget_outcome(
    identity_rows: usize,
    also_delete_messages: bool,
    message_rows: usize,
    conversation_rows: usize,
) -> (o: ForgetPeerOutcome)
    ensures
        o.forgot_identity == (identity_rows > 0),
        o.deleted_messages == (if also_delete_messages {
            message_rows
        } else {
            0
        }),
        o.deleted_conversation == (also_delete_messages && conversation_rows > 0),
{
    if also_delete_messages {
        ForgetPeerOutcome {
            forgot_identity: identity_rows > 0,
            deleted_messages: message_rows,
            deleted_conversation: conversation_rows > 0,
        }
    } else {
        ForgetPeerOutcome {
            forgot_identity: identity_rows > 0,
            deleted_messages: 0,
            deleted_conversation: false,
        }
    }
}

/// Whether recording a peer identity also announces it: direct
/// identities always are, routed ones only while incoming broadcasts are
/// watched.
pub fn should_emit_peer_seen(source: PeerInfoSource, watch_incoming: bool) -> (emit: bool)
    ensures
        emit == (source == PeerInfoSource::Direct || watch_incoming),
{
    match source {
        PeerInfoSource::Direct => true,
        PeerInfoSource::Routed => watch_incoming,
    }
}

/// Nanoseconds per second.
pub const NANOS_PER_SEC: u64 = 1_000_000_000;

/// Whole seconds from `earlier` to `now` (zero when `now` is earlier).
pub open spec fn whole_secs_between(earlier: u64, now: u64) -> int {
    if now >= earlier {
        (now - earlier) / (NANOS_PER_SEC as int)
    } else {
        0
    }
}

/// Verdict of the per-peer rate gate on an incoming identity.
#[derive(Debug, Clone, Copy, PartialEq, Eq, Structural)]
pub enum PeerInfoGate {
    /// Process it; when `record` is set, remember `now` as the peer's
    /// latest routed arrival.
    Accept { record: bool },
    /// A routed identity from this peer arrived too soon: ignore it.
    Drop,
}

/// Rate gate for identities: routed arrivals from one peer closer than
/// `min_interval_s` whole seconds apart are dropped, unless that interval
/// is zero; direct arrivals are always accepted.
pub fn peer_info_gate(
    source: PeerInfoSource,
    min_interval_s: u64,
    previous_ns: Option<u64>,
    now_ns: u64,
) -> (g: PeerInfoGate)
    ensures
        g == (if source == PeerInfoSource::Routed && min_interval_s > 0 {
            match previous_ns {
                Some(p) => if whole_secs_between(p, now_ns) < min_interval_s {
                    PeerInfoGate::Drop
                } else {
                    PeerInfoGate::Accept { record: true }
                },
                None => PeerInfoGate::Accept { record: true },
            }
        } else {
            PeerInfoGate::Accept { record: false }
        }),
{
    if source == PeerInfoSource::Routed && min_interval_s > 0 {
        match previous_ns {
            Some(p) => {
                let elapsed = if now_ns >= p {
                    (now_ns - p) / NANOS_PER_SEC
                } else {
                    0
                };
                if elapsed < min_interval_s {
                    PeerInfoGate::Drop
                } else {
                    PeerInfoGate::Accept { record: true }
                }
            },
            None => PeerInfoGate::Accept { record: true },
        }
    } else {
        PeerInfoGate::Accept { record: false }
    }
}

/// Recipients of an identity-broadcast cycle: every routed destination
/// except this node, in the routing table's order.
pub fn broadcast_recipients(destinations: &Vec<NodeId>, self_id: NodeId) -> (v: Vec<NodeId>)
    ensures
        v@ == destinations@.filter(|n: NodeId| n != self_id),
{
    let own = self_id.key_value();
    let mut out: Vec<NodeId> = Vec::new();
    let mut i: usize = 0;
    while i < destinations.len()
        invariant
            i <= destinations@.len(),
            own == self_id.key(),
            out@ == destinations@.take(i as int).filter(|n: NodeId| n != self_id),
        decreases destinations@.len() - i,
    {
        let d = destinations[i];
        proof {
            assert(destinations@.take(i + 1) =~= destinations@.take(i as int).push(d));
            destinations@.take(i as int).lemma_filter_push(d, |n: NodeId| n != self_id);
        }
        if d.key_value() != own {
            out.push(d);
        } else {
            proof {
                NodeId::lemma_key_injective(d, self_id);
            }
        }
        i = i + 1;
    }
    proof {
        assert(destinations@.take(destinations@.len() as int) =~= destinations@);
    }
    out
}

/// Seconds the identity-broadcast task waits between cycles: the
/// configured interval (at least one second), or a 30-second recheck
/// while broadcasting is off.
pub fn broadcast_sleep_secs(interval_s: Option<u64>) -> (secs: u64)
    ensures
        secs == (match interval_s {
            Some(i) => if i < 1 {
                1
            } else {
                i
            },
            None => 30,
        }),
{
    match interval_s {
        Some(i) => if i < 1 {
            1
        } else {
            i
        },
        None => 30,
    }
}

/// Name announced after an identity import: the supplied name when it is
/// non-empty, else the stored one, else empty.
pub fn import_event_name(name_if_set: Option<String>, stored_name: Option<String>) -> (n: String)
    ensures
        n@ == (match name_if_set {
            Some(s) => if s@.len() > 0 {
                s@
            } else {
                match stored_name {
                    Some(t) => t@,
                    None => Seq::<char>::empty(),
                }
            },
            None => match stored_name {
                Some(t) => t@,
                None => Seq::<char>::empty(),
            },
        }),
{
    let fallback = match stored_name {
        Some(t) => t,
        None => String::new(),
    };
    match name_if_set {
        Some(s) => if !s.as_str().is_empty() {
            s
        } else {
            fallback
        },
        None => fallback,
    }
}

/// Whether an import outcome is announced as a seen peer.
pub fn import_announced(outcome: &ImportOutcome) -> (b: bool)
    ensures
        b == !(*outcome is KeyMismatch),
{
    match outcome {
        ImportOutcome::KeyMismatch { .. } => false,
        _ => true,
    }
}

/// Events announced after forgetting a peer: the dropped identity, and
/// the wiped history when messages were deleted too.
pub fn forget_events(peer_hex: &str, also_delete_messages: bool, outcome: &ForgetPeerOutcome) -> (v:
    Vec<MessageEvent>)
    requires
        outcome.deleted_messages <= i64::MAX,
    ensures
        v@.len() == (if outcome.forgot_identity {
            1int
        } else {
            0
        }) + (if also_delete_messages && outcome.deleted_messages > 0 {
            1int
        } else {
            0
        }),
        outcome.forgot_identity ==> (v@[0] matches MessageEvent::PeerSeen {
            peer_node_id,
            name,
            x25519_known,
            via,
        } && peer_node_id@ == peer_hex@ && name@.len() == 0 && !x25519_known && via
            == PeerInfoSource::Direct),
        also_delete_messages && outcome.deleted_messages > 0 ==> (v@.last() matches MessageEvent::HistoryCleared {
            peer_node_id,
            scope,
            deleted_messages,
        } && peer_node_id is Some && peer_node_id->0@ == peer_hex@ && scope == HistoryScope::Peer
            && deleted_messages == outcome.deleted_messages),
{
    let mut v: Vec<MessageEvent> = Vec::new();
    if outcome.forgot_identity {
        v.push(
            MessageEvent::PeerSeen {
                peer_node_id: copy_str(peer_hex),
                name: String::new(),
                x25519_known: false,
                via: PeerInfoSource::Direct,
            },
        );
    }
    if also_delete_messages && outcome.deleted_messages > 0 {
        v.push(
            MessageEvent::HistoryCleared {
                peer_node_id: Some(copy_str(peer_hex)),
                scope: HistoryScope::Peer,
                deleted_messages: outcome.deleted_messages as i64,
            },
        );
    }
    v
}

} // verus!
