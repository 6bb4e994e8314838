//! Fixed-width integers as byte strings.

use vstd::arithmetic::div_mod::lemma_div_denominator;
use vstd::arithmetic::power::{lemma_pow_positive, pow};
use vstd::prelude::*;

verus! {

/// The `n` low bytes of `x`, most significant first.
pub open spec fn be_bytes(x: nat, n: nat) -> Seq<u8>
    decreases n,
{
    if n == 0 {
        Seq::<u8>::empty()
    } else {
        be_bytes(x / 256, (n - 1) as nat).push((x % 256) as u8)
    }
}

/// The number that `s` writes in base 256, most significant digit first.
pub open spec fn be_value(s: Seq<u8>) -> nat
    decreases s.len(),
{
    if s.len() == 0 {
        0
    } else {
        be_value(s.drop_last()) * 256 + s.last() as nat
    }
}

/// `256` to the power of `n`.
pub open spec fn byte_range(n: nat) -> nat
    decreases n,
{
    if n == 0 {
        1
    } else {
        256 * byte_range((n - 1) as nat)
    }
}

/// The `n` low bytes of `x`, least significant first.
pub open spec fn le_bytes(x: nat, n: nat) -> Seq<u8> {
    be_bytes(x, n).reverse()
}

/// The number that `s` writes in base 256, least significant digit first.
pub open spec fn le_value(s: Seq<u8>) -> nat {
    be_value(s.reverse())
}

/// Reading back the `n` bytes of a number below `256^n` gives the number.
pub proof fn law_be_value_of_bytes(x: nat, n: nat)
    requires
        x < byte_range(n),
    ensures
        be_bytes(x, n).len() == n,
        be_value(be_bytes(x, n)) == x,
    decreases n,
{
    if n > 0 {
        law_be_value_of_bytes(x / 256, (n - 1) as nat);
        let rest = be_bytes(x / 256, (n - 1) as nat);
        assert(be_bytes(x, n).drop_last() == rest);
    }
}

/// Writing the number that `s` stands for gives `s` back.
pub proof fn law_be_bytes_of_value(s: Seq<u8>)
    ensures
        be_value(s) < byte_range(s.len()),
        be_bytes(be_value(s), s.len()) == s,
    decreases s.len(),
{
    if s.len() > 0 {
        law_be_bytes_of_value(s.drop_last());
        assert(be_value(s) / 256 == be_value(s.drop_last()));
        assert(be_value(s) % 256 == s.last() as nat);
        assert(s.drop_last().push(s.last()) == s);
    }
}

/// Reading back the little-endian bytes of a number gives the number.
pub proof fn law_le_value_of_bytes(x: nat, n: nat)
    requires
        x < byte_range(n),
    ensures
        le_bytes(x, n).len() == n,
        le_value(le_bytes(x, n)) == x,
{
    law_be_value_of_bytes(x, n);
    assert(be_bytes(x, n).reverse().reverse() =~= be_bytes(x, n));
}

/// The limits of the integer widths in use.
pub proof fn lemma_byte_ranges()
    ensures
        byte_range(4) == 0x1_0000_0000,
        byte_range(8) == 0x1_0000_0000_0000_0000,
{
    reveal_with_fuel(byte_range, 9);
}

/// The four bytes of `x`, most significant first.
pub fn be_bytes_u32(x: u32) -> (r: Vec<u8>)
    ensures
        r@ == be_bytes(x as nat, 4),
        r@.len() == 4,
{
    let mut r: Vec<u8> = Vec::new();
    r.push((x / 0x100_0000) as u8);
    r.push((x / 0x1_0000 % 256) as u8);
    r.push((x / 256 % 256) as u8);
    r.push((x % 256) as u8);
    proof {
        reveal_with_fuel(be_bytes, 5);
        assert(r@ =~= be_bytes(x as nat, 4));
    }
    r
}

/// The eight bytes of `x`, most significant first.
pub fn be_bytes_u64(x: u64) -> (r: Vec<u8>)
    ensures
        r@ == be_bytes(x as nat, 8),
        r@.len() == 8,
{
    let mut r: Vec<u8> = be_bytes_u32((x / 0x1_0000_0000) as u32);
    let mut low: Vec<u8> = be_bytes_u32((x % 0x1_0000_0000) as u32);
    r.append(&mut low);
    proof {
        let hi = (x / 0x1_0000_0000) as nat;
        let lo = (x % 0x1_0000_0000) as nat;
        lemma_be_bytes_split(hi, lo);
        assert(hi * 0x1_0000_0000 + lo == x as nat);
    }
    r
}

proof fn lemma_be_bytes_split(hi: nat, lo: nat)
    requires
        lo < 0x1_0000_0000,
    ensures
        be_bytes(hi * 0x1_0000_0000 + lo, 8) == be_bytes(hi, 4) + be_bytes(lo, 4),
{
    let x = hi * 0x1_0000_0000 + lo;
    reveal_with_fuel(be_bytes, 5);
    assert(be_bytes(x, 8) == be_bytes(x / 256, 7).push((x % 256) as u8));
    let x1 = x / 256;
    let x2 = x1 / 256;
    let x3 = x2 / 256;
    let x4 = x3 / 256;
    assert(x4 == hi);
    assert(be_bytes(x1, 7) == be_bytes(x2, 6).push((x1 % 256) as u8));
    assert(be_bytes(x2, 6) == be_bytes(x3, 5).push((x2 % 256) as u8));
    assert(be_bytes(x3, 5) == be_bytes(x4, 4).push((x3 % 256) as u8));
    assert(be_bytes(x, 8) =~= be_bytes(hi, 4) + be_bytes(lo, 4));
}

/// The number that four bytes write, most significant first.
pub fn be_value_u32(b: &[u8]) -> (r: u32)
    requires
        b@.len() == 4,
    ensures
        r == be_value(b@),
{
    proof {
        lemma_be_value_4(b@);
    }
    b[0] as u32 * 0x100_0000 + b[1] as u32 * 0x1_0000 + b[2] as u32 * 256 + b[3] as u32
}

proof fn lemma_be_value_4(s: Seq<u8>)
    requires
        s.len() == 4,
    ensures
        be_value(s) == s[0] * 0x100_0000 + s[1] * 0x1_0000 + s[2] * 256 + s[3],
{
    reveal_with_fuel(be_value, 5);
    assert(s.drop_last().last() == s[2]);
    assert(s.drop_last().drop_last().last() == s[1]);
    assert(s.drop_last().drop_last().drop_last().last() == s[0]);
}

/// The number that eight bytes write, most significant first.
pub fn be_value_u64(b: &[u8]) -> (r: u64)
    requires
        b@.len() == 8,
    ensures
        r == be_value(b@),
{
    let hi: u64 = be_value_u32(vstd::slice::slice_subrange(b, 0, 4)) as u64;
    let lo: u64 = be_value_u32(vstd::slice::slice_subrange(b, 4, 8)) as u64;
    proof {
        let h = b@.subrange(0, 4);
        let l = b@.subrange(4, 8);
        law_be_bytes_of_value(h);
        law_be_bytes_of_value(l);
        lemma_byte_ranges();
        lemma_be_bytes_split(be_value(h), be_value(l));
        assert(h + l =~= b@);
        let x = be_value(h) * 0x1_0000_0000 + be_value(l);
        law_be_value_of_bytes(x, 8);
    }
    hi * 0x1_0000_0000 + lo
}

/// The four bytes of `x`, least significant first.
pub fn le_bytes_u32(x: u32) -> (r: Vec<u8>)
    ensures
        r@ == le_bytes(x as nat, 4),
        r@.len() == 4,
{
    let be: Vec<u8> = be_bytes_u32(x);
    let mut r: Vec<u8> = Vec::new();
    r.push(be[3]);
    r.push(be[2]);
    r.push(be[1]);
    r.push(be[0]);
    proof {
        assert(r@ =~= le_bytes(x as nat, 4));
    }
    r
}

/// The number that four bytes write, least significant first.
pub fn le_value_u32(b: &[u8; 4]) -> (r: u32)
    ensures
        r == le_value(b@),
{
    let mut be: Vec<u8> = Vec::new();
    be.push(b[3]);
    be.push(b[2]);
    be.push(b[1]);
    be.push(b[0]);
    proof {
        assert(be@ =~= b@.reverse());
    }
    be_value_u32(be.as_slice())
}

/// Byte `i` of the `n` is the digit of `x` at its place in base 256, counted from
/// the most significant one.
pub proof fn law_be_digits(x: nat, n: nat, i: int)
    requires
        0 <= i < n,
    ensures
        be_bytes(x, n).len() == n,
        be_bytes(x, n)[i] == (x as int / pow(256, (n - 1 - i) as nat)) % 256,
    decreases n,
{
    reveal(pow);
    if i < n - 1 {
        law_be_digits(x / 256, (n - 1) as nat, i);
        let e = (n - 2 - i) as nat;
        lemma_pow_positive(256, e);
        assert(pow(256, (n - 1 - i) as nat) == 256 * pow(256, e));
        lemma_div_denominator(x as int, 256, pow(256, e));
    } else {
        if n > 1 {
            law_be_digits(x / 256, (n - 1) as nat, 0);
        } else {
            assert(be_bytes(x / 256, 0).len() == 0);
        }
        assert(pow(256, 0) == 1);
    }
}

/// Byte `i` of the `n` is the digit of `x` at its place in base 256, counted from
/// the least significant one.
pub proof fn law_le_digits(x: nat, n: nat, i: int)
    requires
        0 <= i < n,
    ensures
        le_bytes(x, n).len() == n,
        le_bytes(x, n)[i] == (x as int / pow(256, i as nat)) % 256,
{
    law_be_digits(x, n, n - 1 - i);
}

/// Writing the number that `s` stands for, least significant byte first, gives
/// `s` back.
pub proof fn law_le_bytes_of_value(s: Seq<u8>)
    ensures
        le_value(s) < byte_range(s.len()),
        le_bytes(le_value(s), s.len()) == s,
{
    law_be_bytes_of_value(s.reverse());
    assert(s.reverse().reverse() =~= s);
}

/// Four bytes in place-value notation, most significant first.
pub proof fn law_be_value_of_four(s: Seq<u8>)
    requires
        s.len() == 4,
    ensures
        be_value(s) == s[0] * 0x100_0000 + s[1] * 0x1_0000 + s[2] * 0x100 + s[3],
{
    lemma_be_value_4(s);
}

/// Four bytes in place-value notation, least significant first.
pub proof fn law_le_value_of_four(s: Seq<u8>)
    requires
        s.len() == 4,
    ensures
        le_value(s) == s[0] + s[1] * 0x100 + s[2] * 0x1_0000 + s[3] * 0x100_0000,
{
    lemma_be_value_4(s.reverse());
}

/// Eight bytes in place-value notation, most significant first.
pub proof fn law_be_value_of_eight(s: Seq<u8>)
    requires
        s.len() == 8,
    ensures
        be_value(s) == (s[0] * 0x100_0000 + s[1] * 0x1_0000 + s[2] * 0x100 + s[3]) * 0x1_0000_0000
            + (s[4] * 0x100_0000 + s[5] * 0x1_0000 + s[6] * 0x100 + s[7]),
{
    let h = s.take(4);
    let l = s.skip(4);
    law_be_bytes_of_value(h);
    law_be_bytes_of_value(l);
    lemma_byte_ranges();
    lemma_be_bytes_split(be_value(h), be_value(l));
    assert(h + l =~= s);
    law_be_value_of_bytes(be_value(h) * 0x1_0000_0000 + be_value(l), 8);
    lemma_be_value_4(h);
    lemma_be_value_4(l);
}

} // verus!
