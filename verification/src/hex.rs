//! Lowercase hexadecimal encoding and decoding of byte strings.
use vstd::prelude::*;

use crate::text::push_char;

verus! {

/// The lowercase hex digit for a nibble.
pub open spec fn hex_digit(n: int) -> char {
    if n < 10 {
        (n + 48) as char
    } else {
        (n + 87) as char
    }
}

/// Two lowercase hex digits per byte, most significant nibble first.
pub open spec fn hex_of(bytes: Seq<u8>) -> Seq<char>
    decreases bytes.len(),
{
    if bytes.len() == 0 {
        Seq::empty()
    } else {
        hex_of(bytes.drop_last()).push(hex_digit(bytes.last() as int / 16)).push(
            hex_digit(bytes.last() as int % 16),
        )
    }
}

/// Value of a hex digit (either case), if `c` is one.
pub open spec fn hex_value(c: char) -> Option<u8> {
    if '0' <= c <= '9' {
        Some((c as int - 48) as u8)
    } else if 'a' <= c <= 'f' {
        Some((c as int - 87) as u8)
    } else if 'A' <= c <= 'F' {
        Some((c as int - 55) as u8)
    } else {
        None
    }
}

/// Value of a two-character byte field: two hex digits (either case), most
/// significant first; anything else is no byte.
pub open spec fn hex_pair_value(a: char, b: char) -> Option<u8> {
    match (hex_value(a), hex_value(b)) {
        (Some(x), Some(y)) => Some((x * 16 + y) as u8),
        _ => None,
    }
}

/// Decoding of a character string into bytes, two characters per byte;
/// `None` when any pair is not a valid field.
pub open spec fn hex_decode(cs: Seq<char>) -> Option<Seq<u8>>
    decreases cs.len(),
{
    if cs.len() < 2 {
        if cs.len() == 0 {
            Some(Seq::empty())
        } else {
            None
        }
    } else {
        match (hex_decode(cs.subrange(0, cs.len() - 2)), hex_pair_value(
            cs[cs.len() - 2],
            cs[cs.len() - 1],
        )) {
            (Some(prefix), Some(b)) => Some(prefix.push(b)),
            _ => None,
        }
    }
}

pub fn hex_digit_exec(n: u8) -> (c: char)
    requires
        n < 16,
    ensures
        c == hex_digit(n as int),
{
    if n < 10 {
        (n + 48) as char
    } else {
        (n + 87) as char
    }
}

pub fn hex_value_exec(c: char) -> (v: Option<u8>)
    ensures
        v == hex_value(c),
{
    if '0' <= c && c <= '9' {
        Some((c as u32 - 48) as u8)
    } else if 'a' <= c && c <= 'f' {
        Some((c as u32 - 87) as u8)
    } else if 'A' <= c && c <= 'F' {
        Some((c as u32 - 55) as u8)
    } else {
        None
    }
}

pub fn hex_pair_value_exec(a: char, b: char) -> (v: Option<u8>)
    ensures
        v == hex_pair_value(a, b),
{
    match (hex_value_exec(a), hex_value_exec(b)) {
        (Some(x), Some(y)) => Some(x * 16 + y),
        _ => None,
    }
}

/// Appends the lowercase hex encoding of `bytes` to `out`.
pub fn push_hex(out: &mut String, bytes: &[u8])
    ensures
        final(out)@ == old(out)@ + hex_of(bytes@),
{
    let ghost start = out@;
    let mut i: usize = 0;
    while i < bytes.len()
        invariant
            i <= bytes@.len(),
            out@ == start + hex_of(bytes@.take(i as int)),
        decreases bytes@.len() - i,
    {
        proof {
            let t = bytes@.take(i + 1);
            assert(t.drop_last() =~= bytes@.take(i as int));
            assert(t.last() == bytes@[i as int]);
        }
        let b = bytes[i];
        push_char(out, hex_digit_exec(b / 16));
        push_char(out, hex_digit_exec(b % 16));
        proof {
            assert(out@ =~= start + hex_of(bytes@.take(i + 1)));
        }
        i = i + 1;
    }
    proof {
        assert(bytes@.take(bytes@.len() as int) =~= bytes@);
    }
}

/// Lowercase hex encoding of `bytes`.
pub fn bytes_to_hex(bytes: &[u8]) -> (s: String)
    ensures
        s@ == hex_of(bytes@),
{
    let mut s = String::new();
    push_hex(&mut s, bytes);
    proof {
        assert(s@ =~= hex_of(bytes@));
    }
    s
}

proof fn lemma_hex_of_len(bytes: Seq<u8>)
    ensures
        hex_of(bytes).len() == 2 * bytes.len(),
    decreases bytes.len(),
{
    if bytes.len() > 0 {
        lemma_hex_of_len(bytes.drop_last());
    }
}

/// Decodes `cs[0..2n]` into `n` bytes, pair by pair.
pub fn decode_hex_chars(cs: &Vec<char>, n: usize) -> (r: Option<Vec<u8>>)
    requires
        cs@.len() == 2 * n,
    ensures
        r matches Some(v) ==> hex_decode(cs@) == Some(v@),
        r is None ==> hex_decode(cs@) is None,
{
    let mut out: Vec<u8> = Vec::new();
    let total = cs.len();
    let mut i: usize = 0;
    while i < n
        invariant
            i <= n,
            cs@.len() == 2 * n,
            total == cs@.len(),
            hex_decode(cs@.subrange(0, 2 * i as int)) == Some(out@),
        decreases n - i,
    {
        let ghost pre = cs@.subrange(0, 2 * i as int);
        let ghost next = cs@.subrange(0, 2 * i + 2);
        proof {
            assert(next.subrange(0, next.len() - 2) =~= pre);
        }
        match hex_pair_value_exec(cs[2 * i], cs[2 * i + 1]) {
            Some(b) => {
                out.push(b);
            },
            None => {
                proof {
                    lemma_decode_none_extends(cs@, 2 * i + 2);
                }
                return None;
            },
        }
        i = i + 1;
    }
    proof {
        assert(cs@.subrange(0, 2 * n as int) =~= cs@);
    }
    Some(out)
}

/// Once a prefix fails to decode, every longer even prefix fails too.
proof fn lemma_decode_none_extends(cs: Seq<char>, k: int)
    requires
        2 <= k <= cs.len(),
        k % 2 == 0,
        cs.len() % 2 == 0,
        hex_decode(cs.subrange(0, k)) is None,
    ensures
        hex_decode(cs) is None,
    decreases cs.len() - k,
{
    if k < cs.len() {
        let next = cs.subrange(0, k + 2);
        assert(next.subrange(0, next.len() - 2) =~= cs.subrange(0, k));
        lemma_decode_none_extends(cs, k + 2);
    } else {
        assert(cs.subrange(0, k) =~= cs);
    }
}


proof fn lemma_hex_digit_value(n: int)
    requires
        0 <= n < 16,
    ensures
        hex_value(hex_digit(n)) == Some(n as u8),
{
}

/// Decoding undoes encoding: the hex form of any byte string decodes back
/// to it.
pub proof fn lemma_hex_round_trip(b: Seq<u8>)
    ensures
        hex_decode(hex_of(b)) == Some(b),
    decreases b.len(),
{
    if b.len() > 0 {
        let p = b.drop_last();
        let x = b.last();
        lemma_hex_round_trip(p);
        lemma_hex_of_len(p);
        let h = hex_of(b);
        assert(h.subrange(0, h.len() - 2) =~= hex_of(p));
        lemma_hex_digit_value(x as int / 16);
        lemma_hex_digit_value(x as int % 16);
        assert(((x as int / 16) * 16 + x as int % 16) as u8 == x);
        assert(p.push(x) =~= b);
    }
}

} // verus!

verus! {

/// Value of one two-byte field of a string's UTF-8 bytes: both bytes ASCII
/// hex digits.
pub open spec fn byte_pair_value(a: u8, b: u8) -> Option<u8> {
    if a < 128 && b < 128 {
        hex_pair_value(a as char, b as char)
    } else {
        None
    }
}

/// Decoding of `bytes` two at a time with [`byte_pair_value`].
pub open spec fn decode_byte_pairs(bytes: Seq<u8>) -> Option<Seq<u8>>
    decreases bytes.len(),
{
    if bytes.len() < 2 {
        if bytes.len() == 0 {
            Some(Seq::empty())
        } else {
            None
        }
    } else {
        match (decode_byte_pairs(bytes.subrange(0, bytes.len() - 2)), byte_pair_value(
            bytes[bytes.len() - 2],
            bytes[bytes.len() - 1],
        )) {
            (Some(prefix), Some(b)) => Some(prefix.push(b)),
            _ => None,
        }
    }
}

pub fn byte_pair_value_exec(a: u8, b: u8) -> (v: Option<u8>)
    ensures
        v == byte_pair_value(a, b),
{
    if a < 128 && b < 128 {
        hex_pair_value_exec(a as char, b as char)
    } else {
        None
    }
}

/// Index of the first pair of `bytes` that does not decode, if any.
pub open spec fn first_bad_pair(bytes: Seq<u8>, k: int) -> bool {
    0 <= k && 2 * k + 1 < bytes.len() && byte_pair_value(bytes[2 * k], bytes[2 * k + 1]) is None
        && forall|j: int| 0 <= j < k ==> byte_pair_value(#[trigger] bytes[2 * j], bytes[2 * j + 1]) is Some
}

/// Decodes `bytes` (of even length `2 * n`) pair by pair; on failure returns
/// the index of the first pair that does not decode.
pub fn decode_pairs(bytes: &[u8], n: usize) -> (r: Result<Vec<u8>, usize>)
    requires
        bytes@.len() == 2 * n,
    ensures
        r matches Ok(v) ==> decode_byte_pairs(bytes@) == Some(v@) && v@.len() == n,
        r matches Err(k) ==> decode_byte_pairs(bytes@) is None && first_bad_pair(bytes@, k as int),
{
    let mut out: Vec<u8> = Vec::new();
    let total = bytes.len();
    let mut i: usize = 0;
    while i < n
        invariant
            i <= n,
            bytes@.len() == 2 * n,
            total == bytes@.len(),
            decode_byte_pairs(bytes@.subrange(0, 2 * i as int)) == Some(out@),
            out@.len() == i,
            forall|j: int| 0 <= j < i ==> byte_pair_value(#[trigger] bytes@[2 * j], bytes@[2 * j + 1]) is Some,
        decreases n - i,
    {
        let ghost next = bytes@.subrange(0, 2 * i + 2);
        proof {
            assert(next.subrange(0, next.len() - 2) =~= bytes@.subrange(0, 2 * i as int));
        }
        match byte_pair_value_exec(bytes[2 * i], bytes[2 * i + 1]) {
            Some(b) => {
                out.push(b);
            },
            None => {
                proof {
                    lemma_pairs_none_extends(bytes@, 2 * i + 2);
                }
                return Err(i);
            },
        }
        i = i + 1;
    }
    proof {
        assert(bytes@.subrange(0, 2 * n as int) =~= bytes@);
    }
    Ok(out)
}

proof fn lemma_pairs_none_extends(bytes: Seq<u8>, k: int)
    requires
        2 <= k <= bytes.len(),
        k % 2 == 0,
        bytes.len() % 2 == 0,
        decode_byte_pairs(bytes.subrange(0, k)) is None,
    ensures
        decode_byte_pairs(bytes) is None,
    decreases bytes.len() - k,
{
    if k < bytes.len() {
        let next = bytes.subrange(0, k + 2);
        assert(next.subrange(0, next.len() - 2) =~= bytes.subrange(0, k));
        lemma_pairs_none_extends(bytes, k + 2);
    } else {
        assert(bytes.subrange(0, k) =~= bytes);
    }
}

} // verus!
