//! Fixed-width integers as bytes.

use vstd::prelude::*;
use vstd::arithmetic::power::pow;

verus! {

/// The `n` low bytes of `x`, least significant first.
pub open spec fn le_bytes(x: nat, n: nat) -> Seq<u8>
    decreases n,
{
    if n == 0 {
        Seq::empty()
    } else {
        seq![(x % 0x100) as u8] + le_bytes(x / 0x100, (n - 1) as nat)
    }
}

/// The four bytes of `x`, least significant first.
pub open spec fn le32(x: u32) -> Seq<u8> {
    le_bytes(x as nat, 4)
}

/// The eight bytes of `x`, least significant first.
pub open spec fn le64(x: u64) -> Seq<u8> {
    le_bytes(x as nat, 8)
}

/// The number whose bytes, least significant first, are `s`.
pub open spec fn le_value(s: Seq<u8>) -> nat
    decreases s.len(),
{
    if s.len() == 0 {
        0
    } else {
        s[0] as nat + 0x100 * le_value(s.skip(1))
    }
}

/// The value of the `n` low bytes of a number, and how many they are.
pub proof fn lemma_le_bytes(x: nat, n: nat)
    ensures
        le_bytes(x, n).len() == n,
        le_value(le_bytes(x, n)) < pow(0x100, n),
        x < pow(0x100, n) ==> le_value(le_bytes(x, n)) == x,
    decreases n,
{
    reveal(pow);
    if n > 0 {
        let rest = le_bytes(x / 0x100, (n - 1) as nat);
        lemma_le_bytes(x / 0x100, (n - 1) as nat);
        assert(le_bytes(x, n).skip(1) =~= rest);
        assert(pow(0x100, n) == 0x100 * pow(0x100, (n - 1) as nat));
    }
}

/// The four bytes of a 32-bit number determine it.
pub proof fn lemma_le32(x: u32)
    ensures
        le32(x).len() == 4,
        le_value(le32(x)) == x,
{
    lemma_le_bytes(x as nat, 4);
    reveal(pow);
    reveal_with_fuel(pow, 5);
}

/// The eight bytes of a 64-bit number determine it.
pub proof fn lemma_le64(x: u64)
    ensures
        le64(x).len() == 8,
        le_value(le64(x)) == x,
{
    lemma_le_bytes(x as nat, 8);
    reveal(pow);
    reveal_with_fuel(pow, 9);
}

/// Appends the `n` low bytes of `x`, least significant first.
fn push_le(out: &mut Vec<u8>, x: u64, n: usize)
    ensures
        final(out)@ == old(out)@ + le_bytes(x as nat, n as nat),
{
    let mut rest: u64 = x;
    let mut left: usize = n;
    assert(out@ =~= old(out)@ + Seq::<u8>::empty());
    while left > 0
        invariant
            left <= n,
            out@ + le_bytes(rest as nat, left as nat) == old(out)@ + le_bytes(x as nat, n as nat),
        decreases left,
    {
        let ghost before = out@;
        out.push((rest % 0x100) as u8);
        proof {
            let b = seq![(rest as nat % 0x100) as u8];
            let tail = le_bytes(rest as nat / 0x100, (left - 1) as nat);
            assert(le_bytes(rest as nat, left as nat) == b + tail);
            assert(out@ + tail =~= before + (b + tail));
        }
        rest = rest / 0x100;
        left -= 1;
    }
    assert(out@ + Seq::<u8>::empty() =~= out@);
}

/// Appends the four little-endian bytes of `x`.
pub fn push_le32(out: &mut Vec<u8>, x: u32)
    ensures
        final(out)@ == old(out)@ + le32(x),
{
    push_le(out, x as u64, 4);
}

/// Appends the eight little-endian bytes of `x`.
pub fn push_le64(out: &mut Vec<u8>, x: u64)
    ensures
        final(out)@ == old(out)@ + le64(x),
{
    push_le(out, x, 8);
}

/// Appends every byte of `tail`.
pub fn push_bytes(out: &mut Vec<u8>, tail: &[u8])
    ensures
        final(out)@ == old(out)@ + tail@,
{
    let mut i: usize = 0;
    while i < tail.len()
        invariant
            i <= tail.len(),
            out@ == old(out)@ + tail@.take(i as int),
        decreases tail.len() - i,
    {
        out.push(tail[i]);
        assert(tail@.take(i + 1) =~= tail@.take(i as int).push(tail@[i as int]));
        i += 1;
    }
    assert(tail@.take(i as int) =~= tail@);
}

/// Copies a byte string.
pub fn copy_bytes(s: &[u8]) -> (r: Vec<u8>)
    ensures
        r@ == s@,
{
    let mut out: Vec<u8> = Vec::new();
    push_bytes(&mut out, s);
    assert(out@ =~= s@);
    out
}


/// The bytes of a number are its digits in base 256, the lowest first.
pub proof fn law_little_endian(x: nat, n: nat, i: int)
    requires
        0 <= i < n,
    ensures
        le_bytes(x, n).len() == n,
        le_bytes(x, n)[0] == x % 0x100,
        i > 0 ==> le_bytes(x, n)[i] == le_bytes(x / 0x100, (n - 1) as nat)[i - 1],
{
    lemma_le_bytes(x, n);
    let rest = le_bytes(x / 0x100, (n - 1) as nat);
    assert(le_bytes(x, n) == seq![(x % 0x100) as u8] + rest);
    if i > 0 {
        assert((seq![(x % 0x100) as u8] + rest)[i] == rest[i - 1]);
    }
}

/// The four bytes of a 32-bit number, the lowest first.
pub proof fn law_le32(x: u32)
    ensures
        le32(x) == seq![
            (x % 0x100) as u8,
            (x / 0x100 % 0x100) as u8,
            (x / 0x1_0000 % 0x100) as u8,
            (x / 0x100_0000) as u8,
        ],
{
    reveal_with_fuel(le_bytes, 5);
    let a = x as nat / 0x100;
    assert(a / 0x100 == x / 0x1_0000);
    assert(a / 0x100 / 0x100 == x / 0x100_0000);
    assert(le32(x) =~= seq![
        (x % 0x100) as u8,
        (x / 0x100 % 0x100) as u8,
        (x / 0x1_0000 % 0x100) as u8,
        (x / 0x100_0000) as u8,
    ]);
}

/// The eight bytes of a 64-bit number are those of its low half and then those
/// of its high half.
pub proof fn law_le64(x: u64)
    ensures
        le64(x) == le32((x % 0x1_0000_0000) as u32) + le32((x / 0x1_0000_0000) as u32),
{
    reveal_with_fuel(le_bytes, 9);
    let lo = x as nat % 0x1_0000_0000;
    let hi = x as nat / 0x1_0000_0000;
    let n = x as nat;
    assert(n == hi * 0x1_0000_0000 + lo);
    assert(n / 0x100 / 0x100 / 0x100 / 0x100 == hi);
    assert(n % 0x100 == lo % 0x100);
    assert(n / 0x100 % 0x100 == lo / 0x100 % 0x100);
    assert(n / 0x100 / 0x100 % 0x100 == lo / 0x100 / 0x100 % 0x100);
    assert(n / 0x100 / 0x100 / 0x100 % 0x100 == lo / 0x100 / 0x100 / 0x100 % 0x100);
    assert(le64(x) =~= le32(lo as u32) + le32(hi as u32));
}

} // verus!
