//! Decimal text of unsigned integers.
use vstd::prelude::*;

use crate::text::push_char;

verus! {

/// The decimal digit character for `d` (0..=9).
pub open spec fn digit_char(d: int) -> char {
    (d + 48) as char
}

/// Decimal digits of `n`, most significant first, without leading zeros.
pub open spec fn dec(n: nat) -> Seq<char>
    decreases n,
{
    if n < 10 {
        seq![digit_char(n as int)]
    } else {
        dec(n / 10).push(digit_char((n % 10) as int))
    }
}

/// `s` left-padded with zeros to at least `w` characters.
pub open spec fn pad_zeros(s: Seq<char>, w: nat) -> Seq<char> {
    if s.len() >= w {
        s
    } else {
        Seq::new((w - s.len()) as nat, |i: int| '0') + s
    }
}

pub proof fn lemma_dec_len(n: nat)
    ensures
        dec(n).len() >= 1,
    decreases n,
{
    if n >= 10 {
        lemma_dec_len(n / 10);
    }
}

fn digit_exec(d: u128) -> (c: char)
    requires
        d < 10,
    ensures
        c == digit_char(d as int),
{
    let c = (d as u8 + 48) as char;
    c
}

/// Appends the decimal digits of `n`.
pub fn push_decimal(out: &mut String, n: u128)
    ensures
        final(out)@ == old(out)@ + dec(n as nat),
    decreases n,
{
    if n >= 10 {
        push_decimal(out, n / 10);
    }
    push_char(out, digit_exec(n % 10));
    proof {
        if n >= 10 {
            assert(old(out)@ + dec(n as nat) =~= old(out)@ + dec((n / 10) as nat) + seq![
                digit_char((n % 10) as int),
            ]);
        } else {
            assert(old(out)@ + dec(n as nat) =~= old(out)@ + seq![digit_char(n as int)]);
        }
    }
}

fn dec_len(n: u64) -> (k: usize)
    ensures
        k == dec(n as nat).len(),
    decreases n,
{
    if n >= 10 {
        let k = dec_len(n / 10);
        proof {
            assert(k <= 20) by {
                lemma_dec_len_bound(n as nat / 10);
            }
        }
        k + 1
    } else {
        1
    }
}

/// `10^k`.
pub open spec fn pow10(k: nat) -> nat
    decreases k,
{
    if k == 0 {
        1
    } else {
        10 * pow10((k - 1) as nat)
    }
}

proof fn lemma_dec_len_bound(n: nat)
    requires
        n < 0x1_0000_0000_0000_0000,
    ensures
        dec(n).len() <= 20,
{
    reveal_with_fuel(pow10, 21);
    assert(pow10(20) == 100_000_000_000_000_000_000);
    lemma_dec_len_pow(n, 20);
}

proof fn lemma_dec_len_pow(n: nat, k: nat)
    requires
        k >= 1,
        n < pow10(k),
    ensures
        dec(n).len() <= k,
    decreases k,
{
    if n >= 10 {
        if k == 1 {
            assert(pow10(1) == 10) by {
                reveal_with_fuel(pow10, 2);
            }
        } else {
            let p = pow10((k - 1) as nat);
            assert(n / 10 < p) by (nonlinear_arith)
                requires
                    n < 10 * p,
            ;
            lemma_dec_len_pow(n / 10, (k - 1) as nat);
        }
    }
}

/// Appends `n` in decimal, left-padded with zeros to `w` characters.
pub fn push_padded(out: &mut String, n: u64, w: usize)
    ensures
        final(out)@ == old(out)@ + pad_zeros(dec(n as nat), w as nat),
{
    let k = dec_len(n);
    let ghost start = out@;
    let mut i: usize = k;
    while i < w
        invariant
            k <= i <= w || (k > w && i == k),
            out@ == start + Seq::new((i - k) as nat, |j: int| '0'),
        decreases w - i,
    {
        push_char(out, '0');
        proof {
            assert(out@ =~= start + Seq::new((i + 1 - k) as nat, |j: int| '0'));
        }
        i = i + 1;
    }
    let ghost zeros = out@;
    push_decimal(out, n as u128);
    proof {
        if k >= w {
            assert(zeros =~= start);
        }
        assert(out@ =~= old(out)@ + pad_zeros(dec(n as nat), w as nat));
    }
}

/// The decimal text of `n`.
pub fn decimal_string(n: u128) -> (s: String)
    ensures
        s@ == dec(n as nat),
{
    let mut s = String::new();
    push_decimal(&mut s, n);
    proof {
        assert(s@ =~= dec(n as nat));
    }
    s
}

} // verus!
