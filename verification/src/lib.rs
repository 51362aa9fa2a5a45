//! Verified core of the proximity-mesh daemon: send buffering, reputation,
//! reconnect and outbound-attempt bookkeeping, gateway probes, identity
//! rate limiting, authorization, the per-event decisions of the data plane
//! and control socket, and the daemon's parsers and formatters.
use vstd::prelude::*;

pub mod auth;
pub mod bytes;
pub mod calendar;
pub mod cleanup;
pub mod config_edit;
pub mod decimal;
pub mod discovery;
pub mod forwarding;
pub mod frame;
pub mod hex;
pub mod identity_rate;
pub mod log_history;
pub mod messaging;
pub mod net_addr;
pub mod outbound;
pub mod node_id;
pub mod packets;
pub mod probes;
pub mod reconnect;
pub mod reputation;
pub mod rpc;
pub mod rpc_answers;
pub mod runtime;
pub mod send_buffer;
pub mod snapshot;
pub mod stats;
pub mod text;

verus! {

} // verus!
