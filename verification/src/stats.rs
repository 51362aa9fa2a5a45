//! Forwarding statistics: the stats file and the load a heartbeat reports.
use vstd::prelude::*;

use crate::decimal::{dec, push_decimal};
use vstd::string::StringExecFns;

verus! {

/// Counters written to the stats file.
#[derive(Debug, Clone, Copy, PartialEq, Eq, Structural)]
pub struct StatsSnapshot {
    pub peers: usize,
    pub routes: usize,
    pub packets_forwarded: u64,
    pub bytes_forwarded: u64,
    pub packets_dropped: u64,
    pub congestion_drops: u64,
    pub conntrack_size: usize,
    pub uptime_secs: u64,
}

/// One `key=value` line.
pub open spec fn stat_line(key: Seq<char>, value: nat) -> Seq<char> {
    key + dec(value) + seq!['\n']
}

/// The stats file: one `key=value` line per counter, in a fixed order.
pub open spec fn stats_text(s: StatsSnapshot) -> Seq<char> {
    stat_line("peers="@, s.peers as nat) + stat_line("routes="@, s.routes as nat) + stat_line(
        "packets_forwarded="@,
        s.packets_forwarded as nat,
    ) + stat_line("bytes_forwarded="@, s.bytes_forwarded as nat) + stat_line(
        "packets_dropped="@,
        s.packets_dropped as nat,
    ) + stat_line("congestion_drops="@, s.congestion_drops as nat) + stat_line(
        "conntrack_size="@,
        s.conntrack_size as nat,
    ) + stat_line("uptime_secs="@, s.uptime_secs as nat)
}

fn push_line(out: &mut String, key: &str, value: u64)
    ensures
        final(out)@ == old(out)@ + stat_line(key@, value as nat),
{
    out.append(key);
    push_decimal(out, value as u128);
    out.append("\n");
    proof {
        reveal_strlit("\n");
        assert(final(out)@ =~= old(out)@ + stat_line(key@, value as nat));
    }
}

/// The stats file contents for `stats`.
pub fn format_stats(stats: &StatsSnapshot) -> (s: String)
    ensures
        s@ == stats_text(*stats),
{
    let mut out = String::new();
    push_line(&mut out, "peers=", stats.peers as u64);
    push_line(&mut out, "routes=", stats.routes as u64);
    push_line(&mut out, "packets_forwarded=", stats.packets_forwarded);
    push_line(&mut out, "bytes_forwarded=", stats.bytes_forwarded);
    push_line(&mut out, "packets_dropped=", stats.packets_dropped);
    push_line(&mut out, "congestion_drops=", stats.congestion_drops);
    push_line(&mut out, "conntrack_size=", stats.conntrack_size as u64);
    push_line(&mut out, "uptime_secs=", stats.uptime_secs);
    proof {
        assert(out@ =~= stats_text(*stats));
    }
    out
}

/// Packets per heartbeat interval that count as full load.
pub const SATURATION_PACKETS: u64 = 2000;

/// Load reported in a heartbeat: packets forwarded over the last interval,
/// scaled so that 2000 or more read as 255.
pub open spec fn load_of(delta: u64) -> int {
    let d = if delta < SATURATION_PACKETS {
        delta as int
    } else {
        SATURATION_PACKETS as int
    };
    d * 255 / 2000
}

/// Heartbeat load for `delta` packets forwarded in the last interval.
pub fn forwarding_load(delta: u64) -> (load: u8)
    ensures
        load == load_of(delta),
{
    let d = if delta < SATURATION_PACKETS {
        delta
    } else {
        SATURATION_PACKETS
    };
    assert(d * 255 / 2000 <= 255) by (nonlinear_arith)
        requires
            d <= 2000,
    ;
    (d * 255 / 2000) as u8
}

/// Heartbeat load from the forwarded-packet counter now and at the last
/// heartbeat (a counter that went backwards reads as no traffic).
pub fn heartbeat_load(last_forwarded: u64, now_forwarded: u64) -> (load: u8)
    ensures
        load == load_of(if now_forwarded >= last_forwarded {
            (now_forwarded - last_forwarded) as u64
        } else {
            0
        }),
{
    let delta = if now_forwarded >= last_forwarded {
        now_forwarded - last_forwarded
    } else {
        0
    };
    forwarding_load(delta)
}

/// Hops to the nearest gateway a heartbeat advertises: zero for a gateway,
/// else the routing table's distance, or 255 when no gateway is known.
pub fn heartbeat_gateway_hops(is_gateway: bool, nearest_gateway_hops: Option<u8>) -> (h: u8)
    ensures
        h == (if is_gateway {
            0
        } else {
            match nearest_gateway_hops {
                Some(n) => n,
                None => 0xFF,
            }
        }),
{
    if is_gateway {
        0
    } else {
        match nearest_gateway_hops {
            Some(n) => n,
            None => 0xFF,
        }
    }
}

} // verus!
