//! IP packet inspection: versions, destinations, Internet checksums and the
//! ICMP echo responder, plus the address fields of interface listings.
use vstd::prelude::*;

use crate::bytes::copy_bytes;
use crate::text::{
    before_char, before_char_exec, chars_of, string_of, word_after, word_after_exec, words,
    words_of,
};

verus! {

/// IP version nibble of a packet, if it has a first byte.
pub fn packet_ip_version(packet: &[u8]) -> (v: Option<u8>)
    ensures
        v == (if packet@.len() == 0 {
            None
        } else {
            Some((packet@[0] / 16) as u8)
        }),
{
    if packet.len() == 0 {
        None
    } else {
        Some(packet[0] / 16)
    }
}

/// Destination address of an IPv4 packet (bytes 16..20 of a header of at
/// least 20 bytes whose version is 4).
pub fn ipv4_destination(packet: &[u8]) -> (d: Option<[u8; 4]>)
    ensures
        d is Some <==> (packet@.len() >= 20 && packet@[0] / 16 == 4),
        d matches Some(a) ==> a@ == packet@.subrange(16, 20),
{
    if packet.len() < 20 || packet[0] / 16 != 4 {
        return None;
    }
    let a = [packet[16], packet[17], packet[18], packet[19]];
    proof {
        assert(a@ =~= packet@.subrange(16, 20));
    }
    Some(a)
}

/// Destination address of an IPv6 packet (bytes 24..40 of a header of at
/// least 40 bytes whose version is 6).
pub fn ipv6_destination(packet: &[u8]) -> (d: Option<[u8; 16]>)
    ensures
        d is Some <==> (packet@.len() >= 40 && packet@[0] / 16 == 6),
        d matches Some(a) ==> a@ == packet@.subrange(24, 40),
{
    if packet.len() < 40 || packet[0] / 16 != 6 {
        return None;
    }
    let mut a = [0u8; 16];
    let mut i: usize = 0;
    while i < 16
        invariant
            packet@.len() >= 40,
            a@.len() == 16,
            i <= 16,
            forall|k: int| 0 <= k < i ==> a@[k] == packet@[24 + k],
        decreases 16 - i,
    {
        a[i] = packet[24 + i];
        i = i + 1;
    }
    proof {
        assert(a@ =~= packet@.subrange(24, 40));
    }
    Some(a)
}

/// Sum of the big-endian 16-bit words of `b`; an odd final byte counts as
/// the high byte of a word.
pub open spec fn word_sum(b: Seq<u8>) -> nat
    decreases b.len(),
{
    if b.len() == 0 {
        0
    } else if b.len() % 2 == 1 {
        word_sum(b.take(b.len() - 1)) + (b.last() as nat) * 256
    } else {
        word_sum(b.take(b.len() - 2)) + (b[b.len() - 2] as nat) * 256 + (b.last() as nat)
    }
}

/// End-around-carry folding of a sum into 16 bits.
pub open spec fn fold_carries(s: nat) -> nat
    decreases s,
{
    if s < 0x10000 {
        s
    } else {
        fold_carries(s % 0x10000 + s / 0x10000)
    }
}

/// The Internet checksum of `b`: the ones' complement of its folded word
/// sum.
pub open spec fn internet_checksum(b: Seq<u8>) -> int {
    0xffff - fold_carries(word_sum(b))
}

proof fn lemma_word_sum_bound(b: Seq<u8>)
    ensures
        word_sum(b) <= (b.len() + 1) / 2 * 0xffff,
    decreases b.len(),
{
    if b.len() > 0 {
        if b.len() % 2 == 1 {
            lemma_word_sum_bound(b.take(b.len() - 1));
        } else {
            lemma_word_sum_bound(b.take(b.len() - 2));
        }
    }
}

/// The Internet checksum of `b[start..end]`.
pub fn checksum_range(b: &Vec<u8>, start: usize, end: usize) -> (c: u16)
    requires
        start <= end <= b@.len(),
        end - start <= 131_070,
    ensures
        c == internet_checksum(b@.subrange(start as int, end as int)),
{
    let ghost seg = b@.subrange(start as int, end as int);
    let mut sum: u64 = 0;
    let mut i: usize = start;
    while i < end && end - i >= 2
        invariant
            start <= i <= end,
            end <= b@.len(),
            end - start <= 131_070,
            seg == b@.subrange(start as int, end as int),
            (i - start) % 2 == 0,
            sum == word_sum(seg.take(i - start)),
            sum <= (i - start) / 2 * 0xffff,
        decreases end - i,
    {
        proof {
            let t = seg.take(i + 2 - start);
            assert(t.take(t.len() - 2) =~= seg.take(i - start));
            assert(t[t.len() - 2] == b@[i as int]);
            assert(t.last() == b@[i + 1]);
        }
        sum = sum + (b[i] as u64) * 256 + b[i + 1] as u64;
        i = i + 2;
    }
    if i < end {
        proof {
            let t = seg.take(i + 1 - start);
            assert(t.take(t.len() - 1) =~= seg.take(i - start));
            assert(t.last() == b@[i as int]);
        }
        sum = sum + (b[i] as u64) * 256;
        i = i + 1;
    }
    proof {
        assert(seg.take(i - start) =~= seg);
        assert(sum < 0x1_0000_0000);
    }
    let ghost total = sum as nat;
    while sum >= 0x10000
        invariant
            fold_carries(sum as nat) == fold_carries(total),
            sum < 0x1_0000_0000,
        decreases sum,
    {
        let lo = sum % 0x10000;
        let hi = sum / 0x10000;
        sum = lo + hi;
    }
    let folded = sum as u16;
    0xffff - folded
}

/// Whether `packet` is an IPv4 ICMP echo request the responder answers:
/// at least 28 bytes, IP version 4 with a header of at least 20 bytes,
/// room for an 8-byte ICMP header after the IP header, protocol 1, type 8
/// and code 0.
pub open spec fn is_echo_request(p: Seq<u8>) -> bool {
    let ihl = (p[0] % 16) * 4;
    &&& p.len() >= 28
    &&& p[0] / 16 == 4
    &&& ihl >= 20
    &&& p.len() >= ihl + 8
    &&& p[9] == 1
    &&& p[ihl] == 8
    &&& p[ihl + 1] == 0
}

/// `p` with the 4-byte fields at 12 and 16 (source and destination
/// addresses) exchanged.
pub open spec fn swap_addresses(p: Seq<u8>) -> Seq<u8> {
    Seq::new(
        p.len(),
        |i: int|
            if 12 <= i < 16 {
                p[i + 4]
            } else if 16 <= i < 20 {
                p[i - 4]
            } else {
                p[i]
            },
    )
}

/// The echo reply to the request `p`: addresses swapped, type set to 0,
/// the ICMP checksum and then the IP header checksum recomputed.
pub open spec fn echo_reply(p: Seq<u8>) -> Seq<u8> {
    let ihl = (p[0] % 16) * 4;
    let r1 = swap_addresses(p).update(ihl, 0).update(ihl + 2, 0).update(ihl + 3, 0);
    let c1 = internet_checksum(r1.skip(ihl));
    let r2 = r1.update(ihl + 2, (c1 / 256) as u8).update(ihl + 3, (c1 % 256) as u8).update(
        10,
        0,
    ).update(11, 0);
    let c2 = internet_checksum(r2.take(ihl));
    r2.update(10, (c2 / 256) as u8).update(11, (c2 % 256) as u8)
}

/// The echo reply to an IPv4 ICMP echo request; `None` for any other
/// packet.
pub fn icmp_echo_reply(packet: &[u8]) -> (r: Option<Vec<u8>>)
    requires
        packet@.len() <= 131_070,
    ensures
        r is Some <==> is_echo_request(packet@),
        r matches Some(v) ==> v@ == echo_reply(packet@),
{
    answer_echo_request(packet)
}

fn answer_echo_request(packet: &[u8]) -> (r: Option<Vec<u8>>)
    requires
        packet@.len() <= 131_070,
    ensures
        r is Some <==> is_echo_request(packet@),
        r matches Some(v) ==> v@ == echo_reply(packet@),
{
    if packet.len() < 28 {
        return None;
    }
    if packet[0] / 16 != 4 {
        return None;
    }
    let ihl = ((packet[0] % 16) as usize) * 4;
    if ihl < 20 || packet.len() < ihl + 8 {
        return None;
    }
    if packet[9] != 1 {
        return None;
    }
    if packet[ihl] != 8 || packet[ihl + 1] != 0 {
        return None;
    }
    let mut reply = copy_bytes(packet);
    let mut i: usize = 0;
    while i < 4
        invariant
            i <= 4,
            reply@.len() == packet@.len(),
            packet@.len() >= 28,
            forall|k: int|
                0 <= k < reply@.len() ==> #[trigger] reply@[k] == (if 12 <= k < 12 + i {
                    packet@[k + 4]
                } else if 16 <= k < 16 + i {
                    packet@[k - 4]
                } else {
                    packet@[k]
                }),
        decreases 4 - i,
    {
        let a = reply[12 + i];
        let b = reply[16 + i];
        reply.set(12 + i, b);
        reply.set(16 + i, a);
        i = i + 1;
    }
    proof {
        assert(reply@ =~= swap_addresses(packet@));
    }
    reply.set(ihl, 0);
    reply.set(ihl + 2, 0);
    reply.set(ihl + 3, 0);
    let n = reply.len();
    let c1 = checksum_range(&reply, ihl, n);
    proof {
        assert(reply@.subrange(ihl as int, n as int) =~= reply@.skip(ihl as int));
    }
    reply.set(ihl + 2, (c1 / 256) as u8);
    reply.set(ihl + 3, (c1 % 256) as u8);
    reply.set(10, 0);
    reply.set(11, 0);
    let c2 = checksum_range(&reply, 0, ihl);
    proof {
        assert(reply@.subrange(0, ihl as int) =~= reply@.take(ihl as int));
    }
    reply.set(10, (c2 / 256) as u8);
    reply.set(11, (c2 % 256) as u8);
    Some(reply)
}

/// The per-direction nonce prefix of a session: bytes 0..8 of the session
/// key for the initiator, bytes 8..16 for the responder.
pub fn nonce_prefix(session_key: &[u8; 32], is_initiator: bool) -> (p: [u8; 8])
    ensures
        p@ == (if is_initiator {
            session_key@.subrange(0, 8)
        } else {
            session_key@.subrange(8, 16)
        }),
{
    let off: usize = if is_initiator {
        0
    } else {
        8
    };
    let mut p = [0u8; 8];
    let mut i: usize = 0;
    while i < 8
        invariant
            off == 0 || off == 8,
            off == 0 <==> is_initiator,
            p@.len() == 8,
            i <= 8,
            forall|k: int| 0 <= k < i ==> p@[k] == session_key@[off + k],
        decreases 8 - i,
    {
        p[i] = session_key[off + i];
        i = i + 1;
    }
    proof {
        assert(p@ =~= session_key@.subrange(off as int, off + 8));
    }
    p
}

/// The address text an interface listing gives after `key` (`inet` or
/// `inet6`): the word following the first `key` word, cut at `/` and, for
/// IPv6, at the `%` of a zone.
pub open spec fn listed_address(output: Seq<char>, key: Seq<char>, cut_zone: bool) -> Option<
    Seq<char>,
> {
    match word_after(words(output), key) {
        Some(w) => if cut_zone {
            Some(before_char(before_char(w, '/'), '%'))
        } else {
            Some(before_char(w, '/'))
        },
        None => None,
    }
}

fn listed_address_exec(output: &str, key: &str, cut_zone: bool) -> (r: Option<String>)
    ensures
        r matches Some(s) ==> listed_address(output@, key@, cut_zone) == Some(s@),
        r is None ==> listed_address(output@, key@, cut_zone) is None,
{
    let ws = words_of(output);
    let k = chars_of(key);
    proof {
        assert(ws@.map_values(|x: Vec<char>| x@) =~= words(output@));
    }
    match word_after_exec(&ws, &k) {
        Some(w) => {
            let a = before_char_exec(&w, '/');
            if cut_zone {
                let b = before_char_exec(&a, '%');
                Some(string_of(&b))
            } else {
                Some(string_of(&a))
            }
        },
        None => None,
    }
}

/// The IPv4 address text in `ip -4 -o addr show` or `ifconfig` output: the
/// word after the first `inet`, without its prefix length.
pub fn interface_ipv4_text(output: &str) -> (r: Option<String>)
    ensures
        r matches Some(s) ==> listed_address(output@, "inet"@, false) == Some(s@),
        r is None ==> listed_address(output@, "inet"@, false) is None,
{
    listed_address_exec(output, "inet", false)
}

/// The IPv6 address text in an interface listing: the word after the first
/// `inet6`, without its prefix length or zone.
pub fn interface_ipv6_text(output: &str) -> (r: Option<String>)
    ensures
        r matches Some(s) ==> listed_address(output@, "inet6"@, true) == Some(s@),
        r is None ==> listed_address(output@, "inet6"@, true) is None,
{
    listed_address_exec(output, "inet6", true)
}

/// Where the gateway's raw socket sends a packet to the internet.
#[derive(Debug, Clone, Copy, PartialEq, Eq)]
pub enum RawDestination {
    V4([u8; 4]),
    V6([u8; 16]),
}

/// Why a packet cannot be sent on the raw socket.
#[derive(Debug, Clone, Copy, PartialEq, Eq, Structural)]
pub enum RawSendError {
    /// Version 4, but no complete IPv4 header.
    NotIpv4,
    /// Version 6, but no complete IPv6 header.
    NotIpv6,
    /// Neither IPv4 nor IPv6.
    UnknownVersion,
}

/// Destination of a packet the gateway sends on its raw sockets, chosen by
/// the packet's IP version.
pub fn raw_send_destination(packet: &[u8]) -> (r: Result<RawDestination, RawSendError>)
    ensures
        packet@.len() == 0 || (packet@[0] / 16 != 4 && packet@[0] / 16 != 6) ==> r == Err::<
            RawDestination,
            RawSendError,
        >(RawSendError::UnknownVersion),
        packet@.len() > 0 && packet@[0] / 16 == 4 ==> (if packet@.len() >= 20 {
            r matches Ok(RawDestination::V4(a)) && a@ == packet@.subrange(16, 20)
        } else {
            r == Err::<RawDestination, RawSendError>(RawSendError::NotIpv4)
        }),
        packet@.len() > 0 && packet@[0] / 16 == 6 ==> (if packet@.len() >= 40 {
            r matches Ok(RawDestination::V6(a)) && a@ == packet@.subrange(24, 40)
        } else {
            r == Err::<RawDestination, RawSendError>(RawSendError::NotIpv6)
        }),
{
    match packet_ip_version(packet) {
        Some(4) => match ipv4_destination(packet) {
            Some(a) => Ok(RawDestination::V4(a)),
            None => Err(RawSendError::NotIpv4),
        },
        Some(6) => match ipv6_destination(packet) {
            Some(a) => Ok(RawDestination::V6(a)),
            None => Err(RawSendError::NotIpv6),
        },
        _ => Err(RawSendError::UnknownVersion),
    }
}

/// Nonce prefixes `(send, receive)` of the initiating or responding end
/// of a session with key `key`.
pub open spec fn session_prefixes(key: Seq<u8>, is_initiator: bool) -> (Seq<u8>, Seq<u8>) {
    if is_initiator {
        (key.subrange(0, 8), key.subrange(8, 16))
    } else {
        (key.subrange(8, 16), key.subrange(0, 8))
    }
}

/// Nonce prefixes `(send, receive)` of one end of a session.
pub fn session_nonce_prefixes(session_key: &[u8; 32], is_initiator: bool) -> (r: ([u8; 8], [u8; 8]))
    ensures
        (r.0@, r.1@) == session_prefixes(session_key@, is_initiator),
{
    (nonce_prefix(session_key, is_initiator), nonce_prefix(session_key, !is_initiator))
}

/// The two ends of a session agree: what the initiator sends with, the
/// responder receives with, and the other way round.
pub proof fn lemma_session_prefixes_pair(key: Seq<u8>)
    ensures
        session_prefixes(key, true).0 == session_prefixes(key, false).1,
        session_prefixes(key, true).1 == session_prefixes(key, false).0,
{
}

} // verus!
