//! Socket addresses and IPv4 subnets as plain values.
use vstd::arithmetic::power2::pow2;
use vstd::prelude::*;

verus! {

/// An IP address: IPv4 as a big-endian 32-bit number, IPv6 as 128 bits.
#[derive(Debug, Clone, Copy, PartialEq, Eq, Hash, Structural)]
pub enum IpAddress {
    V4(u32),
    V6(u128),
}

/// An IP address and port.
#[derive(Debug, Clone, Copy, PartialEq, Eq, Hash, Structural)]
pub struct SocketAddress {
    pub ip: IpAddress,
    pub port: u16,
}

impl SocketAddress {
    /// `a.b.c.d:port`.
    pub fn v4(a: u8, b: u8, c: u8, d: u8, port: u16) -> (s: SocketAddress)
        ensures
            s.ip == IpAddress::V4((a as int * 0x100_0000 + b as int * 0x1_0000 + c as int * 0x100
                + d as int) as u32),
            s.port == port,
    {
        let v: u32 = a as u32 * 0x100_0000 + b as u32 * 0x1_0000 + c as u32 * 0x100 + d as u32;
        SocketAddress { ip: IpAddress::V4(v), port }
    }
}

/// The network address of an IPv4 address (as a big-endian number) under
/// a prefix of `prefix_len` bits: the address with its host bits cleared.
pub open spec fn network_of(ip: u32, prefix_len: u8) -> u32 {
    if prefix_len >= 32 {
        ip
    } else {
        (ip as int - ip as int % (pow2((32 - prefix_len) as nat) as int)) as u32
    }
}

/// The subnet base a gateway allocates mesh addresses from.  A prefix of
/// zero bits is left out: its host mask would need a 32-bit shift.
pub fn network_address(ip: u32, prefix_len: u8) -> (n: u32)
    requires
        prefix_len >= 1,
    ensures
        n == network_of(ip, prefix_len),
{
    if prefix_len >= 32 {
        ip
    } else {
        let s: u32 = 32 - prefix_len as u32;
        proof {
            vstd::bits::lemma_u32_pow2_no_overflow(s as nat);
            vstd::bits::lemma_u32_shl_is_mul(1, s);
        }
        let low: u32 = (1u32 << s) - 1;
        proof {
            vstd::bits::lemma_u32_low_bits_mask_is_mod(ip, s as nat);
            assert(low == vstd::bits::low_bits_mask(s as nat));
            assert(ip & !low == (ip - (ip & low)) as u32) by (bit_vector);
            assert(ip & low <= ip) by (bit_vector);
        }
        ip & !low
    }
}

} // verus!
