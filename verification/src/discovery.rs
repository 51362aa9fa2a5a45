//! Node roles as advertised on discovery, and which discovered peers the
//! daemon connects to.
use vstd::prelude::*;

use crate::node_id::NodeId;

verus! {

/// Capability bit of every node.
pub const CAP_CLIENT: u8 = 0x01;

/// Capability bit of a node that relays mesh traffic.
pub const CAP_RELAY: u8 = 0x02;

/// Capability bit of a node with an internet uplink.
pub const CAP_GATEWAY: u8 = 0x04;

/// Advertised roles of a node, as a bit set.
#[derive(Debug, Clone, Copy, PartialEq, Eq, Structural)]
pub struct NodeCapabilities {
    pub bits: u8,
}

impl NodeCapabilities {
    pub open spec fn has(self, bit: u8) -> bool {
        self.bits & bit != 0
    }

    /// A client only.
    pub fn client() -> (c: NodeCapabilities)
        ensures
            c.bits == CAP_CLIENT,
    {
        NodeCapabilities { bits: CAP_CLIENT }
    }

    /// A client that relays.
    pub fn relay() -> (c: NodeCapabilities)
        ensures
            c.bits == CAP_CLIENT | CAP_RELAY,
    {
        NodeCapabilities { bits: CAP_CLIENT | CAP_RELAY }
    }

    /// A relaying client with an internet uplink.
    pub fn gateway() -> (c: NodeCapabilities)
        ensures
            c.bits == CAP_CLIENT | CAP_RELAY | CAP_GATEWAY,
    {
        NodeCapabilities { bits: CAP_CLIENT | CAP_RELAY | CAP_GATEWAY }
    }

    pub fn bits(&self) -> (b: u8)
        ensures
            b == self.bits,
    {
        self.bits
    }

    pub fn is_client(&self) -> (b: bool)
        ensures
            b == self.has(CAP_CLIENT),
    {
        self.bits & CAP_CLIENT != 0
    }

    pub fn is_relay(&self) -> (b: bool)
        ensures
            b == self.has(CAP_RELAY),
    {
        self.bits & CAP_RELAY != 0
    }

    pub fn is_gateway(&self) -> (b: bool)
        ensures
            b == self.has(CAP_GATEWAY),
    {
        self.bits & CAP_GATEWAY != 0
    }
}

/// Roles this node advertises: a gateway also relays, and every node is a
/// client.
pub fn node_capabilities(gateway_enabled: bool, relay_enabled: bool) -> (c: NodeCapabilities)
    ensures
        c.bits == (if gateway_enabled {
            0x07u8
        } else if relay_enabled {
            0x03u8
        } else {
            0x01u8
        }),
        c.has(CAP_CLIENT),
        c.has(CAP_RELAY) == (gateway_enabled || relay_enabled),
        c.has(CAP_GATEWAY) == gateway_enabled,
{
    let c = if gateway_enabled {
        NodeCapabilities::gateway()
    } else if relay_enabled {
        NodeCapabilities::relay()
    } else {
        NodeCapabilities::client()
    };
    assert(0x07u8 & 0x01u8 != 0 && 0x07u8 & 0x02u8 != 0 && 0x07u8 & 0x04u8 != 0) by (bit_vector);
    assert(0x03u8 & 0x01u8 != 0 && 0x03u8 & 0x02u8 != 0 && 0x03u8 & 0x04u8 == 0) by (bit_vector);
    assert(0x01u8 & 0x01u8 != 0 && 0x01u8 & 0x02u8 == 0 && 0x01u8 & 0x04u8 == 0) by (bit_vector);
    assert(0x01u8 | 0x02u8 == 0x03u8 && 0x01u8 | 0x02u8 | 0x04u8 == 0x07u8) by (bit_vector);
    c
}

/// What the discovery consumer does with an advertised peer.
#[derive(Debug, Clone, Copy, PartialEq, Eq, Structural)]
pub enum DiscoveryVerdict {
    /// Our own advertisement.
    IgnoreSelf,
    /// The authorization policy refuses the peer.
    Unauthorized,
    /// A session with the peer already exists.
    AlreadyConnected,
    /// A client only: nothing to connect to.
    ClientOnly,
    /// A gateway, while connecting to gateways is off.
    GatewaysOff,
    /// A relay, while connecting to relays is off.
    RelaysOff,
    /// Connect to it (and remember its address for reconnects).
    Connect,
}

/// The discovery consumer's decision on an advertised peer, with the
/// checks in the order it makes them.
pub fn discovery_verdict(
    self_id: &NodeId,
    peer: &NodeId,
    authorized: bool,
    already_connected: bool,
    caps: NodeCapabilities,
    connect_gateways: bool,
    connect_relays: bool,
) -> (v: DiscoveryVerdict)
    ensures
        v == (if *peer == *self_id {
            DiscoveryVerdict::IgnoreSelf
        } else if !authorized {
            DiscoveryVerdict::Unauthorized
        } else if already_connected {
            DiscoveryVerdict::AlreadyConnected
        } else if !caps.has(CAP_RELAY) && !caps.has(CAP_GATEWAY) {
            DiscoveryVerdict::ClientOnly
        } else if caps.has(CAP_GATEWAY) && !connect_gateways {
            DiscoveryVerdict::GatewaysOff
        } else if caps.has(CAP_RELAY) && !caps.has(CAP_GATEWAY) && !connect_relays {
            DiscoveryVerdict::RelaysOff
        } else {
            DiscoveryVerdict::Connect
        }),
{
    let same = peer.key_value() == self_id.key_value();
    proof {
        if same {
            NodeId::lemma_key_injective(*peer, *self_id);
        }
    }
    if same {
        return DiscoveryVerdict::IgnoreSelf;
    }
    if !authorized {
        return DiscoveryVerdict::Unauthorized;
    }
    if already_connected {
        return DiscoveryVerdict::AlreadyConnected;
    }
    let relay = caps.is_relay();
    let gateway = caps.is_gateway();
    if !relay && !gateway {
        return DiscoveryVerdict::ClientOnly;
    }
    if gateway && !connect_gateways {
        return DiscoveryVerdict::GatewaysOff;
    }
    if relay && !gateway && !connect_relays {
        return DiscoveryVerdict::RelaysOff;
    }
    DiscoveryVerdict::Connect
}

} // verus!
