//! 16-byte mesh node identifiers.
use vstd::prelude::*;

use vstd::string::StringSliceAdditionalSpecFns;

use crate::hex::{decode_byte_pairs, decode_pairs, hex_of, push_hex};

verus! {

/// Big-endian value of a byte string.
pub open spec fn be_value(s: Seq<u8>) -> nat
    decreases s.len(),
{
    if s.len() == 0 {
        0
    } else {
        be_value(s.drop_last()) * 256 + s.last() as nat
    }
}

/// `256^n`.
pub open spec fn pow256(n: nat) -> nat
    decreases n,
{
    if n == 0 {
        1
    } else {
        256 * pow256((n - 1) as nat)
    }
}

proof fn lemma_be_value_bound(s: Seq<u8>)
    ensures
        be_value(s) < pow256(s.len()),
    decreases s.len(),
{
    if s.len() > 0 {
        let t = s.drop_last();
        lemma_be_value_bound(t);
        let v = be_value(t);
        let p = pow256(t.len());
        let b = s.last() as int;
        assert(v * 256 + b < p * 256) by (nonlinear_arith)
            requires
                v < p,
                0 <= b < 256,
        ;
    }
}

proof fn lemma_pow256_16()
    ensures
        pow256(16) == 0x1_0000_0000_0000_0000_0000_0000_0000_0000,
{
    reveal_with_fuel(pow256, 17);
}

/// A mesh node identifier.
#[derive(Debug, Clone, Copy, PartialEq, Eq, Hash)]
pub struct NodeId {
    bytes: [u8; 16],
}

impl NodeId {
    /// The 16 identifier bytes.
    pub closed spec fn bytes(self) -> Seq<u8> {
        self.bytes@
    }

    /// The identifier as one big-endian number; per-peer tables are keyed by it.
    pub open spec fn key(self) -> u128 {
        be_value(self.bytes()) as u128
    }

    pub fn from_bytes(bytes: [u8; 16]) -> (id: NodeId)
        ensures
            id.bytes() == bytes@,
    {
        NodeId { bytes }
    }

    pub fn as_bytes(&self) -> (b: [u8; 16])
        ensures
            b@ == self.bytes(),
    {
        self.bytes
    }

    /// The big-endian number formed by the identifier bytes.
    pub fn key_value(&self) -> (k: u128)
        ensures
            k == self.key(),
            k == be_value(self.bytes()),
    {
        let mut v: u128 = 0;
        let mut i: usize = 0;
        proof {
            lemma_pow256_16();
        }
        while i < 16
            invariant
                i <= 16,
                self.bytes@.len() == 16,
                v == be_value(self.bytes@.take(i as int)),
                pow256(16) == 0x1_0000_0000_0000_0000_0000_0000_0000_0000,
            decreases 16 - i,
        {
            let ghost t = self.bytes@.take(i + 1);
            proof {
                assert(t.drop_last() =~= self.bytes@.take(i as int));
                lemma_be_value_bound(t);
                lemma_pow256_mono(t.len(), 16);
            }
            v = v * 256 + self.bytes[i] as u128;
            i = i + 1;
        }
        proof {
            assert(self.bytes@.take(16) =~= self.bytes@);
        }
        v
    }

    /// 32-character lowercase hex form of the identifier.
    pub fn to_hex(&self) -> (s: String)
        ensures
            s@ == hex_of(self.bytes()),
    {
        let mut s = String::new();
        push_hex(&mut s, self.bytes.as_slice());
        proof {
            assert(s@ =~= hex_of(self.bytes()));
        }
        s
    }

    /// Parses the 32-hex-character form (either case).  Any other length, or a
    /// character that is not a hex digit, gives `None`.
    pub fn from_hex(s: &str) -> (r: Option<NodeId>)
        ensures
            r matches Some(id) ==> s.spec_bytes().len() == 32 && decode_byte_pairs(s.spec_bytes())
                == Some(id.bytes()),
            r is None ==> s.spec_bytes().len() != 32 || decode_byte_pairs(s.spec_bytes()) is None,
    {
        let bytes = s.as_bytes();
        if bytes.len() != 32 {
            return None;
        }
        match decode_pairs(bytes, 16) {
            Ok(v) => {
                let mut out = [0u8; 16];
                let mut i: usize = 0;
                while i < 16
                    invariant
                        i <= 16,
                        v@.len() == 16,
                        out@.len() == 16,
                        forall|j: int| 0 <= j < i ==> out@[j] == v@[j],
                    decreases 16 - i,
                {
                    out[i] = v[i];
                    i = i + 1;
                }
                proof {
                    assert(out@ =~= v@);
                }
                Some(NodeId { bytes: out })
            },
            Err(_) => None,
        }
    }
}

proof fn lemma_pow256_mono(a: nat, b: nat)
    requires
        a <= b,
    ensures
        pow256(a) <= pow256(b),
    decreases b - a,
{
    if a < b {
        lemma_pow256_mono(a, (b - 1) as nat);
        assert(pow256(b) == 256 * pow256((b - 1) as nat));
    }
}

proof fn lemma_be_value_injective(s: Seq<u8>, t: Seq<u8>)
    requires
        s.len() == t.len(),
        be_value(s) == be_value(t),
    ensures
        s == t,
    decreases s.len(),
{
    if s.len() > 0 {
        let a = be_value(s.drop_last());
        let b = be_value(t.drop_last());
        let x = s.last() as int;
        let y = t.last() as int;
        assert(x == y && a == b) by (nonlinear_arith)
            requires
                a * 256 + x == b * 256 + y,
                0 <= x < 256,
                0 <= y < 256,
                a >= 0,
                b >= 0,
        ;
        lemma_be_value_injective(s.drop_last(), t.drop_last());
        assert(s =~= s.drop_last().push(s.last()));
        assert(t =~= t.drop_last().push(t.last()));
    } else {
        assert(s =~= t);
    }
}

impl NodeId {
    /// Distinct identifiers have distinct keys.
    pub proof fn lemma_key_injective(a: NodeId, b: NodeId)
        requires
            a.key() == b.key(),
        ensures
            a == b,
    {
        lemma_be_value_bound(a.bytes());
        lemma_be_value_bound(b.bytes());
        lemma_pow256_16();
        lemma_be_value_injective(a.bytes(), b.bytes());
        assert(a.bytes =~= b.bytes);
    }

    /// Identifiers with the same bytes are the same identifier.
    pub proof fn lemma_bytes_injective(a: NodeId, b: NodeId)
        requires
            a.bytes() == b.bytes(),
        ensures
            a == b,
    {
        assert(a.bytes =~= b.bytes);
    }

    pub proof fn lemma_bytes_len(a: NodeId)
        ensures
            a.bytes().len() == 16,
    {
    }
}

/// Parses a 32-hex-character node id into its bytes.
pub fn parse_node_id_hex(s: &str) -> (r: Option<[u8; 16]>)
    ensures
        r is Some <==> (s.spec_bytes().len() == 32 && decode_byte_pairs(s.spec_bytes()) is Some),
        r is Some ==> decode_byte_pairs(s.spec_bytes()) == Some(r->0@),
{
    match NodeId::from_hex(s) {
        Some(id) => Some(id.as_bytes()),
        None => None,
    }
}

} // verus!
