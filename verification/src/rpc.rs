//! JSON-RPC control surface: error codes, the hello-first rule of a
//! connection, and the checks the methods apply to their parameters.
use vstd::prelude::*;

use vstd::string::StringSliceAdditionalSpecFns;

use crate::messaging::{ImportOutcome, MAX_BODY_BYTES};
use crate::runtime::Platform;
use crate::text::{chars_of, string_of, trim, trim_chars};

verus! {

/// Protocol version the daemon speaks.
pub const RPC_VERSION: u64 = 1;

pub const PARSE_ERROR: i32 = -32700;

pub const INVALID_REQUEST: i32 = -32600;

pub const METHOD_NOT_FOUND: i32 = -32601;

pub const INVALID_PARAMS: i32 = -32602;

pub const INTERNAL_ERROR: i32 = -32603;

pub const RPC_VERSION_MISMATCH: i32 = -32001;

pub const GATEWAY_NOT_SUPPORTED: i32 = -32031;

pub const PEER_IDENTITY_MISMATCH: i32 = -32040;

pub const PEER_BROADCAST_INTERVAL_TOO_SMALL: i32 = -32041;

pub const MESSAGE_PEER_UNKNOWN: i32 = -32060;

pub const MESSAGE_BODY_TOO_LARGE: i32 = -32061;

pub const MESSAGE_STORAGE_ERROR: i32 = -32062;

/// The name of the opening method.
pub open spec fn hello_method() -> Seq<char> {
    "rpc.hello"@
}

/// Whether a request line is dispatched or refused.
#[derive(Debug, Clone, Copy, PartialEq, Eq, Structural)]
pub enum Admission {
    /// Dispatch it.
    Dispatch,
    /// Answer `INVALID_REQUEST`: `rpc.hello` must come first.
    HelloRequired,
}

/// Per-connection state of the hello-first rule.
pub struct RpcConnection {
    hello_done: bool,
}

impl RpcConnection {
    /// Whether an `rpc.hello` has been answered on this connection.
    pub closed spec fn greeted(&self) -> bool {
        self.hello_done
    }

    pub fn new() -> (c: RpcConnection)
        ensures
            !c.greeted(),
    {
        RpcConnection { hello_done: false }
    }

    /// Admission of a request for `method`: before an `rpc.hello` has been
    /// answered only `rpc.hello` itself is dispatched.
    pub fn check_request(&self, method: &str) -> (a: Admission)
        ensures
            a == admission(self.greeted(), method@),
    {
        if self.hello_done || crate::text::str_eq(method, "rpc.hello") {
            Admission::Dispatch
        } else {
            Admission::HelloRequired
        }
    }

    /// Records that the response to a dispatched request for `method` was
    /// sent: an answered `rpc.hello` (whatever its result) opens the
    /// connection.
    pub fn responded(&mut self, method: &str)
        ensures
            final(self).greeted() == (old(self).greeted() || method@ == hello_method()),
    {
        if crate::text::str_eq(method, "rpc.hello") {
            self.hello_done = true;
        }
    }
}

/// Admission of a request for `method` on a connection that has or has
/// not answered an `rpc.hello` yet.
pub open spec fn admission(greeted: bool, method: Seq<char>) -> Admission {
    if greeted || method == hello_method() {
        Admission::Dispatch
    } else {
        Admission::HelloRequired
    }
}

/// Hello first: on a connection that has not answered `rpc.hello` only
/// `rpc.hello` is dispatched; once it has been answered, every request is;
/// and answering any request keeps a greeted connection greeted.
pub proof fn lemma_hello_first(greeted: bool, method: Seq<char>, next: Seq<char>)
    ensures
        !greeted && method != hello_method() ==> admission(greeted, method)
            == Admission::HelloRequired,
        admission(greeted, hello_method()) == Admission::Dispatch,
        admission(greeted || method == hello_method(), next) == Admission::HelloRequired ==> !greeted
            && method != hello_method(),
{
}

/// Version check of `rpc.hello`: an omitted version is accepted; another
/// version than the daemon's is refused and reported.
pub fn check_rpc_version(requested: Option<u64>) -> (r: Result<(), u64>)
    ensures
        r == (match requested {
            Some(v) => if v == RPC_VERSION {
                Ok::<(), u64>(())
            } else {
                Err(v)
            },
            None => Ok(()),
        }),
{
    match requested {
        Some(v) => if v == RPC_VERSION {
            Ok(())
        } else {
            Err(v)
        },
        None => Ok(()),
    }
}

/// Why a gateway configuration request is refused before any change.
#[derive(Debug, Clone, Copy, PartialEq, Eq, Structural)]
pub enum GatewayRequestError {
    /// The platform has no NAT engine.
    NotSupported,
    /// No parameters were given.
    ParamsRequired,
    /// The uplink interface is empty.
    NatInterfaceRequired,
}

/// Checks of `gateway.enable`, in order: platform support, parameters
/// present, a non-empty uplink interface.
pub fn gateway_enable_check(platform: Platform, params_present: bool, nat_interface: &str) -> (r:
    Result<(), GatewayRequestError>)
    ensures
        r == (if !(platform == Platform::Linux || platform == Platform::MacOs) {
            Err::<(), GatewayRequestError>(GatewayRequestError::NotSupported)
        } else if !params_present {
            Err(GatewayRequestError::ParamsRequired)
        } else if nat_interface@.len() == 0 {
            Err(GatewayRequestError::NatInterfaceRequired)
        } else {
            Ok(())
        }),
{
    if !crate::runtime::gateway_supported_on_this_platform(platform) {
        Err(GatewayRequestError::NotSupported)
    } else if !params_present {
        Err(GatewayRequestError::ParamsRequired)
    } else if nat_interface.is_empty() {
        Err(GatewayRequestError::NatInterfaceRequired)
    } else {
        Ok(())
    }
}

/// Page size of `messages.history`: 100 by default, kept within 1..=500.
pub fn history_limit(limit: Option<i64>) -> (n: i64)
    ensures
        n == (match limit {
            Some(l) => if l < 1 {
                1
            } else if l > 500 {
                500
            } else {
                l
            },
            None => 100,
        }),
{
    match limit {
        Some(l) => if l < 1 {
            1
        } else if l > 500 {
            500
        } else {
            l
        },
        None => 100,
    }
}

/// Whether a peer node id parameter has the 32 bytes of its hex form.
pub fn peer_hex_length_ok(peer_node_id: &str) -> (ok: bool)
    ensures
        ok == (peer_node_id.spec_bytes().len() == 32),
{
    peer_node_id.as_bytes().len() == 32
}

/// Why a message body is refused.
#[derive(Debug, Clone, Copy, PartialEq, Eq, Structural)]
pub enum BodyError {
    Empty,
    TooLarge,
}

/// Checks of `messages.send` on the body: non-empty, at most
/// `MAX_BODY_BYTES` bytes.
pub fn check_message_body(body: &str) -> (r: Result<(), BodyError>)
    ensures
        r == (if body@.len() == 0 {
            Err::<(), BodyError>(BodyError::Empty)
        } else if body.spec_bytes().len() > MAX_BODY_BYTES {
            Err(BodyError::TooLarge)
        } else {
            Ok(())
        }),
{
    if body.is_empty() {
        Err(BodyError::Empty)
    } else if body.as_bytes().len() > MAX_BODY_BYTES {
        Err(BodyError::TooLarge)
    } else {
        Ok(())
    }
}

/// A friendly name as stored: trimmed, and dropped when nothing is left.
pub fn normalize_friendly_name(name: Option<&str>) -> (r: Option<String>)
    ensures
        r is Some <==> (name is Some && trim(name->0@).len() > 0),
        r is Some ==> r->0@ == trim(name->0@),
{
    match name {
        Some(n) => {
            let cs = chars_of(n);
            let t = trim_chars(&cs);
            if t.len() > 0 {
                Some(string_of(&t))
            } else {
                None
            }
        },
        None => None,
    }
}

/// Reply of `peers.import_identity`: whether the identity was newly
/// imported, or the key already cached for the node when it differs.
pub fn import_identity_reply(outcome: ImportOutcome) -> (r: Result<bool, String>)
    ensures
        r == (match outcome {
            ImportOutcome::Inserted => Ok::<bool, String>(true),
            ImportOutcome::Refreshed => Ok(false),
            ImportOutcome::KeyMismatch { existing_x25519_hex } => Err(existing_x25519_hex),
        }),
{
    match outcome {
        ImportOutcome::Inserted => Ok(true),
        ImportOutcome::Refreshed => Ok(false),
        ImportOutcome::KeyMismatch { existing_x25519_hex } => Err(existing_x25519_hex),
    }
}

/// Smallest interval accepted for outgoing identity broadcasts, in seconds.
pub const MIN_OUTGOING_INTERVAL_S: u64 = 30;

/// Identity-broadcast settings.
#[derive(Debug, Clone, Copy, PartialEq, Eq, Structural)]
pub struct BroadcastSettings {
    /// Seconds between outgoing broadcasts; `None` turns them off.
    pub outgoing_interval_s: Option<u64>,
    /// Whether routed identities are announced to the UI.
    pub watch_incoming: bool,
    /// Smallest spacing of accepted routed identities per peer, in seconds.
    pub min_peer_interval_s: u64,
}

/// A partial change of the broadcast settings; absent fields stay.
#[derive(Debug, Clone, Copy, PartialEq, Eq, Structural)]
pub struct BroadcastUpdate {
    pub outgoing_interval_s: Option<Option<u64>>,
    pub watch_incoming: Option<bool>,
    pub min_peer_interval_s: Option<u64>,
}

/// Why a broadcast settings change is refused.
#[derive(Debug, Clone, Copy, PartialEq, Eq, Structural)]
pub enum BroadcastUpdateError {
    /// An outgoing interval below the minimum (the value given).
    IntervalTooSmall(u64),
    /// A zero per-peer spacing.
    ZeroPeerInterval,
}

/// The settings after a change is applied.
pub open spec fn updated_settings(s: BroadcastSettings, u: BroadcastUpdate) -> BroadcastSettings {
    BroadcastSettings {
        outgoing_interval_s: match u.outgoing_interval_s {
            Some(v) => v,
            None => s.outgoing_interval_s,
        },
        watch_incoming: match u.watch_incoming {
            Some(v) => v,
            None => s.watch_incoming,
        },
        min_peer_interval_s: match u.min_peer_interval_s {
            Some(v) => v,
            None => s.min_peer_interval_s,
        },
    }
}

/// The error a change is refused with, if any: intervals are checked
/// before the per-peer spacing.
pub open spec fn update_error(u: BroadcastUpdate) -> Option<BroadcastUpdateError> {
    match u.outgoing_interval_s {
        Some(Some(secs)) if secs < MIN_OUTGOING_INTERVAL_S => Some(
            BroadcastUpdateError::IntervalTooSmall(secs),
        ),
        _ => match u.min_peer_interval_s {
            Some(0) => Some(BroadcastUpdateError::ZeroPeerInterval),
            _ => None,
        },
    }
}

/// A change is refused exactly when it gives an outgoing interval below
/// the minimum (refused with that interval, checked first) or a zero
/// per-peer spacing.  An accepted change sets each
/// field it gives to the value given (an interval of `Some(secs)` or
/// `None` alike) and leaves each field it omits as it was; it keeps
/// settings whose outgoing interval is off or at least the minimum, and
/// whose per-peer spacing is positive, that way.
pub proof fn lemma_broadcast_update_fields(s: BroadcastSettings, u: BroadcastUpdate)
    ensures
        update_error(u) is None <==> (!(u.outgoing_interval_s matches Some(Some(secs)) && secs < 30)
            && u.min_peer_interval_s != Some(0u64)),
        u.outgoing_interval_s matches Some(Some(secs)) ==> (secs < 30 ==> update_error(u) == Some(
            BroadcastUpdateError::IntervalTooSmall(secs),
        )),
        !(u.outgoing_interval_s matches Some(Some(secs)) && secs < 30) && u.min_peer_interval_s
            == Some(0u64) ==> update_error(u) == Some(BroadcastUpdateError::ZeroPeerInterval),
        update_error(u) is None ==> {
            let t = updated_settings(s, u);
            &&& (u.outgoing_interval_s matches Some(v) ==> t.outgoing_interval_s == v)
            &&& (u.outgoing_interval_s is None ==> t.outgoing_interval_s == s.outgoing_interval_s)
            &&& (u.watch_incoming matches Some(w) ==> t.watch_incoming == w)
            &&& (u.watch_incoming is None ==> t.watch_incoming == s.watch_incoming)
            &&& (u.min_peer_interval_s matches Some(m) ==> t.min_peer_interval_s == m)
            &&& (u.min_peer_interval_s is None ==> t.min_peer_interval_s == s.min_peer_interval_s)
            &&& ((s.outgoing_interval_s matches Some(x) ==> x >= 30) ==> (
            t.outgoing_interval_s matches Some(y) ==> y >= 30))
            &&& (s.min_peer_interval_s > 0 ==> t.min_peer_interval_s > 0)
        },
{
}

/// Validates a change of the broadcast settings and applies it; a refused
/// change leaves the settings as they were.
pub fn apply_broadcast_update(settings: &mut BroadcastSettings, update: BroadcastUpdate) -> (r:
    Result<(), BroadcastUpdateError>)
    ensures
        r == (match update_error(update) {
            Some(e) => Err::<(), BroadcastUpdateError>(e),
            None => Ok(()),
        }),
        r is Ok ==> *final(settings) == updated_settings(*old(settings), update),
        r is Err ==> *final(settings) == *old(settings),
{
    if let Some(Some(secs)) = update.outgoing_interval_s {
        if secs < MIN_OUTGOING_INTERVAL_S {
            return Err(BroadcastUpdateError::IntervalTooSmall(secs));
        }
    }
    if let Some(min) = update.min_peer_interval_s {
        if min == 0 {
            return Err(BroadcastUpdateError::ZeroPeerInterval);
        }
    }
    if let Some(v) = update.outgoing_interval_s {
        settings.outgoing_interval_s = v;
    }
    if let Some(v) = update.watch_incoming {
        settings.watch_incoming = v;
    }
    if let Some(v) = update.min_peer_interval_s {
        settings.min_peer_interval_s = v;
    }
    Ok(())
}

} // verus!
