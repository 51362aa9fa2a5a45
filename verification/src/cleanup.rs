//! Peer cleanup policy: schedule floors, freshness of lifecycle rows, and
//! the parsers for `bluetoothctl` output the sweeps depend on.
//!
//! The sweeps themselves shell out and touch the peer directory; they run
//! outside the library and ask the functions here what to do with each row.
use vstd::prelude::*;

use crate::node_id::NodeId;
use crate::text::{
    chars_of, lines_of, skip_chars, slice_chars, split_lines, starts_with, starts_with_exec,
    string_of, trim, trim_chars,
};

verus! {

/// Smallest unreachable-lifetime accepted, in seconds (one hour).
pub const MIN_LIFETIME_S: u64 = 3_600;

/// Smallest sweep cadence accepted, in seconds.
pub const MIN_INTERVAL_S: u64 = 60;

/// Schedule of the RFCOMM cleanup task.
#[derive(Debug, Clone)]
pub struct CleanupConfig {
    /// `bluetoothctl` (or its override).
    pub bluetoothctl_command: String,
    /// Age past which an unreachable peer is unpaired, in seconds.
    pub max_unreachable_lifetime_s: u64,
    /// Sweep cadence, in seconds.
    pub interval_s: u64,
}

pub open spec fn max_u64(a: u64, b: u64) -> u64 {
    if a < b {
        b
    } else {
        a
    }
}

/// Composes the RFCOMM cleanup schedule from user-supplied seconds,
/// raising each value to its floor.
pub fn build_cleanup_config(
    bluetoothctl_command: String,
    max_unreachable_lifetime_s: u64,
    cleanup_interval_s: u64,
) -> (c: CleanupConfig)
    ensures
        c.bluetoothctl_command == bluetoothctl_command,
        c.max_unreachable_lifetime_s == max_u64(max_unreachable_lifetime_s, MIN_LIFETIME_S),
        c.interval_s == max_u64(cleanup_interval_s, MIN_INTERVAL_S),
{
    let lifetime = if max_unreachable_lifetime_s < MIN_LIFETIME_S {
        MIN_LIFETIME_S
    } else {
        max_unreachable_lifetime_s
    };
    let interval = if cleanup_interval_s < MIN_INTERVAL_S {
        MIN_INTERVAL_S
    } else {
        cleanup_interval_s
    };
    CleanupConfig {
        bluetoothctl_command,
        max_unreachable_lifetime_s: lifetime,
        interval_s: interval,
    }
}

/// Schedule of a generic cleanup task: `None` when disabled, else the
/// sweep interval and the lifetime handed to each sweep, both raised to
/// their floors (the lifetime read as a signed count of seconds).
pub fn cleanup_schedule(enabled: bool, cleanup_interval_s: u64, max_unreachable_lifetime_s: u64) -> (r:
    Option<(u64, i64)>)
    ensures
        r == (if enabled {
            Some(
                (
                    max_u64(cleanup_interval_s, MIN_INTERVAL_S),
                    max_u64(max_unreachable_lifetime_s, MIN_LIFETIME_S) as i64,
                ),
            )
        } else {
            None
        }),
{
    if !enabled {
        return None;
    }
    let interval = if cleanup_interval_s < MIN_INTERVAL_S {
        MIN_INTERVAL_S
    } else {
        cleanup_interval_s
    };
    let lifetime = if max_unreachable_lifetime_s < MIN_LIFETIME_S {
        MIN_LIFETIME_S
    } else {
        max_unreachable_lifetime_s
    };
    Some((interval, lifetime as i64))
}

/// Latest sign of life of a lifecycle row: the later of its first
/// observation and its last connection.
pub open spec fn last_seen(first_s: i64, last_connected_s: Option<i64>) -> i64 {
    let c = match last_connected_s {
        Some(t) => t,
        None => first_s,
    };
    if c < first_s {
        first_s
    } else {
        c
    }
}

/// `i64::saturating_sub`.
pub open spec fn sat_sub_i64(a: i64, b: i64) -> i64 {
    let d = a - b;
    if d > i64::MAX {
        i64::MAX
    } else if d < i64::MIN {
        i64::MIN
    } else {
        d as i64
    }
}

/// Whether a row last seen at `last_seen_s` has outlived `lifetime_s` at
/// `now_s`.
pub open spec fn outlived(last_seen_s: i64, now_s: i64, lifetime_s: i64) -> bool {
    sat_sub_i64(now_s, last_seen_s) > lifetime_s
}

fn sat_sub(a: i64, b: i64) -> (d: i64)
    ensures
        d == sat_sub_i64(a, b),
{
    if b >= 0 {
        if a >= i64::MIN + b {
            a - b
        } else {
            i64::MIN
        }
    } else {
        if a <= i64::MAX + b {
            a - b
        } else {
            i64::MAX
        }
    }
}

/// Latest sign of life of a lifecycle row.
pub fn lifecycle_last_seen(first_s: i64, last_connected_s: Option<i64>) -> (t: i64)
    ensures
        t == last_seen(first_s, last_connected_s),
{
    let c = match last_connected_s {
        Some(t) => t,
        None => first_s,
    };
    if c < first_s {
        first_s
    } else {
        c
    }
}

/// Verdict of a sweep on one paired-peer lifecycle row.
#[derive(Debug, Clone, Copy, PartialEq, Eq, Structural)]
pub enum PairedRowVerdict {
    /// The peer is no longer paired: drop the dangling row.
    DropRow,
    /// Seen within the lifetime: leave it.
    Keep,
    /// Unreachable for longer than the lifetime: unpair it unless it is
    /// connected right now, and drop its row once unpaired.
    Stale,
}

/// Sweep decision for a row of a paired Bluetooth peer (RFCOMM or PAN).
pub fn paired_row_verdict(
    paired: bool,
    first_paired_at_s: i64,
    last_connected_at_s: Option<i64>,
    now_s: i64,
    lifetime_s: i64,
) -> (v: PairedRowVerdict)
    ensures
        v == (if !paired {
            PairedRowVerdict::DropRow
        } else if outlived(last_seen(first_paired_at_s, last_connected_at_s), now_s, lifetime_s) {
            PairedRowVerdict::Stale
        } else {
            PairedRowVerdict::Keep
        }),
{
    if !paired {
        return PairedRowVerdict::DropRow;
    }
    let seen = lifecycle_last_seen(first_paired_at_s, last_connected_at_s);
    if sat_sub(now_s, seen) <= lifetime_s {
        PairedRowVerdict::Keep
    } else {
        PairedRowVerdict::Stale
    }
}

/// Whether a Wi-Fi Direct lifecycle row is past its lifetime and dropped.
pub fn wfd_row_is_stale(
    first_seen_at_s: i64,
    last_connected_at_s: Option<i64>,
    now_s: i64,
    lifetime_s: i64,
) -> (stale: bool)
    ensures
        stale == outlived(last_seen(first_seen_at_s, last_connected_at_s), now_s, lifetime_s),
{
    let seen = lifecycle_last_seen(first_seen_at_s, last_connected_at_s);
    sat_sub(now_s, seen) > lifetime_s
}

/// `i64::saturating_mul` by a thousand.
pub open spec fn sat_mul_1000(a: i64) -> i64 {
    let p = a * 1000;
    if p > i64::MAX {
        i64::MAX
    } else if p < i64::MIN {
        i64::MIN
    } else {
        p as i64
    }
}

/// Millisecond cut-off of the mesh-identity sweep: identities last seen
/// before `now_s - lifetime_s` seconds are stale.
pub fn mesh_identity_threshold_ms(now_s: i64, lifetime_s: i64) -> (t: i64)
    ensures
        t == sat_mul_1000(sat_sub_i64(now_s, lifetime_s)),
{
    let s = sat_sub(now_s, lifetime_s);
    if s > i64::MAX / 1000 {
        i64::MAX
    } else if s < i64::MIN / 1000 {
        i64::MIN
    } else {
        s * 1000
    }
}

/// The stale identities a mesh-identity sweep forgets: those without an
/// active session, in order.
pub fn identities_to_forget(stale: &Vec<NodeId>, active: &Vec<NodeId>) -> (v: Vec<NodeId>)
    ensures
        v@ == stale@.filter(|n: NodeId| !active@.contains(n)),
{
    let mut v: Vec<NodeId> = Vec::new();
    let mut i: usize = 0;
    while i < stale.len()
        invariant
            i <= stale@.len(),
            v@ == stale@.take(i as int).filter(|n: NodeId| !active@.contains(n)),
        decreases stale@.len() - i,
    {
        let n = stale[i];
        let mut found = false;
        let mut j: usize = 0;
        while j < active.len()
            invariant
                j <= active@.len(),
                found == (exists|k: int| 0 <= k < j && active@[k] == n),
            decreases active@.len() - j,
        {
            if active[j].key_value() == n.key_value() {
                proof {
                    NodeId::lemma_key_injective(active@[j as int], n);
                }
                found = true;
            }
            j = j + 1;
        }
        proof {
            let t = stale@.take(i + 1);
            assert(t.drop_last() =~= stale@.take(i as int));
            assert(t.last() == n);
            reveal(Seq::filter);
            if found {
                let k = choose|k: int| 0 <= k < active@.len() && active@[k] == n;
                assert(active@.contains(n));
            } else {
                assert(!active@.contains(n));
            }
        }
        if !found {
            v.push(n);
        }
        i = i + 1;
    }
    proof {
        assert(stale@.take(stale@.len() as int) =~= stale@);
    }
    v
}

/// Whether a `bluetoothctl info` value is "yes" in any ASCII case.
pub open spec fn is_yes(v: Seq<char>) -> bool {
    &&& v.len() == 3
    &&& (v[0] == 'y' || v[0] == 'Y')
    &&& (v[1] == 'e' || v[1] == 'E')
    &&& (v[2] == 's' || v[2] == 'S')
}

/// The verdict of `bluetoothctl info` output, read line by line: the first
/// trimmed line starting with `Connected:` decides, by whether its trimmed
/// value is "yes"; without such a line the device is not connected.
pub open spec fn connected_in(lines: Seq<Seq<char>>) -> bool
    decreases lines.len(),
{
    if lines.len() == 0 {
        false
    } else {
        let t = trim(lines[0]);
        if starts_with(t, "Connected:"@) {
            is_yes(trim(t.skip("Connected:"@.len() as int)))
        } else {
            connected_in(lines.drop_first())
        }
    }
}

/// Whether `bluetoothctl info` output reports the device connected.
pub fn parse_connected(info_output: &str) -> (connected: bool)
    ensures
        connected == connected_in(split_lines(info_output@)),
{
    let lines = lines_of(info_output);
    let key_str = "Connected:";
    let key = chars_of(key_str);
    let ghost all = split_lines(info_output@);
    let mut i: usize = 0;
    proof {
        assert(all.skip(0) =~= all);
    }
    while i < lines.len()
        invariant
            i <= lines@.len(),
            lines@.len() == all.len(),
            forall|k: int| 0 <= k < lines@.len() ==> #[trigger] lines@[k]@ == all[k],
            key@ == "Connected:"@,
            all == split_lines(info_output@),
            connected_in(all) == connected_in(all.skip(i as int)),
        decreases lines@.len() - i,
    {
        let t = trim_chars(&lines[i]);
        proof {
            assert(all.skip(i as int).drop_first() =~= all.skip(i + 1));
            assert(all.skip(i as int)[0] == all[i as int]);
        }
        if starts_with_exec(&t, &key) {
            let rest = skip_chars(&t, key.len());
            let v = trim_chars(&rest);
            proof {
                assert(t@ == trim(all[i as int]));
                assert(connected_in(all.skip(i as int)) == is_yes(v@));
            }
            let yes = v.len() == 3 && (v[0] == 'y' || v[0] == 'Y') && (v[1] == 'e' || v[1] == 'E')
                && (v[2] == 's' || v[2] == 'S');
            proof {
                assert(yes == is_yes(v@));
                assert(connected_in(all) == yes);
            }
            return yes;
        }
        i = i + 1;
    }
    proof {
        assert(all.skip(i as int).len() == 0);
    }
    false
}

/// First position of a space in `s` at or after `from`, if any.
pub open spec fn first_space_from(s: Seq<char>, from: int) -> Option<int>
    decreases s.len() - from,
{
    if from >= s.len() || from < 0 {
        None
    } else if s[from] == ' ' {
        Some(from)
    } else {
        first_space_from(s, from + 1)
    }
}

/// The address on a `bluetoothctl devices` line: after `Device `, up to the
/// next space; lines without both give none.
pub open spec fn device_addr(line: Seq<char>) -> Option<Seq<char>> {
    let t = trim(line);
    if starts_with(t, "Device "@) {
        let rest = t.skip("Device "@.len() as int);
        match first_space_from(rest, 0) {
            Some(k) => Some(rest.take(k)),
            None => None,
        }
    } else {
        None
    }
}

/// The addresses listed, line by line.
pub open spec fn device_addrs(lines: Seq<Seq<char>>) -> Seq<Seq<char>>
    decreases lines.len(),
{
    if lines.len() == 0 {
        Seq::empty()
    } else {
        let prev = device_addrs(lines.drop_last());
        match device_addr(lines.last()) {
            Some(a) => prev.push(a),
            None => prev,
        }
    }
}

fn find_space(s: &Vec<char>) -> (r: Option<usize>)
    ensures
        r matches Some(k) ==> first_space_from(s@, 0) == Some(k as int) && k < s@.len(),
        r is None ==> first_space_from(s@, 0) is None,
{
    let mut i: usize = 0;
    while i < s.len()
        invariant
            i <= s@.len(),
            first_space_from(s@, 0) == first_space_from(s@, i as int),
        decreases s@.len() - i,
    {
        if s[i] == ' ' {
            return Some(i);
        }
        i = i + 1;
    }
    None
}

/// Addresses of the devices listed by `bluetoothctl devices Paired`, in the
/// order of their lines.
pub fn parse_paired_addrs(stdout: &str) -> (v: Vec<String>)
    ensures
        v@.len() == device_addrs(split_lines(stdout@)).len(),
        forall|i: int| 0 <= i < v@.len() ==> #[trigger] v@[i]@ == device_addrs(split_lines(stdout@))[i],
{
    let lines = lines_of(stdout);
    let prefix = chars_of("Device ");
    let ghost all = split_lines(stdout@);
    let mut out: Vec<String> = Vec::new();
    let mut i: usize = 0;
    while i < lines.len()
        invariant
            i <= lines@.len(),
            lines@.len() == all.len(),
            forall|k: int| 0 <= k < lines@.len() ==> #[trigger] lines@[k]@ == all[k],
            prefix@ == "Device "@,
            all == split_lines(stdout@),
            out@.len() == device_addrs(all.take(i as int)).len(),
            forall|k: int| 0 <= k < out@.len() ==> #[trigger] out@[k]@ == device_addrs(
                all.take(i as int),
            )[k],
        decreases lines@.len() - i,
    {
        let ghost before = out@;
        proof {
            let t = all.take(i + 1);
            assert(t.drop_last() =~= all.take(i as int));
            assert(t.last() == all[i as int]);
        }
        let t = trim_chars(&lines[i]);
        if starts_with_exec(&t, &prefix) {
            let rest = skip_chars(&t, prefix.len());
            match find_space(&rest) {
                Some(k) => {
                    let addr = slice_chars(&rest, 0, k);
                    proof {
                        assert(addr@ =~= rest@.take(k as int));
                    }
                    out.push(string_of(&addr));
                    proof {
                        assert forall|j: int| 0 <= j < out@.len() implies #[trigger] out@[j]@
                            == device_addrs(all.take(i + 1))[j] by {
                            if j < before.len() {
                                assert(out@[j] == before[j]);
                            }
                        }
                    }
                },
                None => {},
            }
        }
        i = i + 1;
    }
    proof {
        assert(all.take(all.len() as int) =~= all);
    }
    out
}

/// A paired Bluetooth peer's lifecycle row.
#[derive(Debug, Clone)]
pub struct LifecycleRow {
    pub bd_addr: String,
    pub name: String,
    pub first_paired_at_s: i64,
    pub last_connected_at_s: Option<i64>,
}

/// The row written when a peer is seen in the paired list: a new row for an
/// unknown address; nothing for a known one (its first observation, name
/// included, stands).
pub fn observe_paired(known: bool, bd_addr: &str, name: &str, now_s: i64) -> (r: Option<
    LifecycleRow,
>)
    ensures
        r is Some <==> !known,
        r is Some ==> r->0.bd_addr@ == bd_addr@ && r->0.name@ == name@ && r->0.first_paired_at_s
            == now_s && r->0.last_connected_at_s is None,
{
    if known {
        None
    } else {
        Some(
            LifecycleRow {
                bd_addr: bd_addr.to_owned(),
                name: name.to_owned(),
                first_paired_at_s: now_s,
                last_connected_at_s: None,
            },
        )
    }
}

/// Connection time after a connection at `now_s`: the later of the stored
/// one (zero when empty) and `now_s`.
pub open spec fn bumped_connection(prev: Option<i64>, now_s: i64) -> i64 {
    let p = match prev {
        Some(t) => t,
        None => 0,
    };
    if p < now_s {
        now_s
    } else {
        p
    }
}

/// The row after a successful connection at `now_s`: a new row stamped
/// with `now_s` for an unknown address; for a known one the connection time
/// only moves forward (an empty one counts as zero).
pub fn record_connected(existing: Option<&LifecycleRow>, bd_addr: &str, name: &str, now_s: i64) -> (r:
    LifecycleRow)
    ensures
        existing is None ==> r.bd_addr@ == bd_addr@ && r.name@ == name@ && r.first_paired_at_s
            == now_s && r.last_connected_at_s == Some(now_s),
        existing is Some ==> r.bd_addr == existing->0.bd_addr && r.name == existing->0.name
            && r.first_paired_at_s == existing->0.first_paired_at_s && r.last_connected_at_s == Some(
            bumped_connection(existing->0.last_connected_at_s, now_s),
        ),
{
    match existing {
        None => LifecycleRow {
            bd_addr: bd_addr.to_owned(),
            name: name.to_owned(),
            first_paired_at_s: now_s,
            last_connected_at_s: Some(now_s),
        },
        Some(row) => {
            let prev = match row.last_connected_at_s {
                Some(t) => t,
                None => 0,
            };
            let latest = if prev < now_s {
                now_s
            } else {
                prev
            };
            LifecycleRow {
                bd_addr: row.bd_addr.clone(),
                name: row.name.clone(),
                first_paired_at_s: row.first_paired_at_s,
                last_connected_at_s: Some(latest),
            }
        },
    }
}

/// Recording connections never moves a row's latest sign of life back,
/// and the row counts as seen at least at the connection time.
pub proof fn lemma_connection_time_monotone(first: i64, prev: Option<i64>, now_s: i64)
    ensures
        last_seen(first, Some(bumped_connection(prev, now_s))) >= now_s,
        prev is Some ==> last_seen(first, Some(bumped_connection(prev, now_s))) >= last_seen(
            first,
            prev,
        ),
{
}

} // verus!
