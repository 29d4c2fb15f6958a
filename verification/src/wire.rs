//! Little-endian wire primitives: reading fixed-width unsigned integers out
//! of a byte sequence, writing them back, decimal rendering, and the signed
//! interpretation of a 64-bit bit pattern.

use vstd::prelude::*;

verus! {

/// `256^n`.
pub open spec fn pow256(n: nat) -> nat
    decreases n,
{
    if n == 0 {
        1
    } else {
        256 * pow256((n - 1) as nat)
    }
}

/// The unsigned integer held little-endian in the `n` bytes of `s` that start
/// at offset `off`.
pub open spec fn le_at(s: Seq<u8>, off: int, n: nat) -> nat
    decreases n,
{
    if n == 0 {
        0
    } else {
        s[off] as nat + 256 * le_at(s, off + 1, (n - 1) as nat)
    }
}

/// The `n` little-endian bytes of the unsigned integer `v`.
pub open spec fn le_of(v: nat, n: nat) -> Seq<u8>
    decreases n,
{
    if n == 0 {
        Seq::<u8>::empty()
    } else {
        seq![(v % 256) as u8] + le_of(v / 256, (n - 1) as nat)
    }
}

/// The decimal digits of `v`, most significant first.
pub open spec fn dec_digits(v: nat) -> Seq<u8>
    decreases v,
{
    if v < 10 {
        seq![(48 + v) as u8]
    } else {
        dec_digits(v / 10) + seq![(48 + v % 10) as u8]
    }
}

/// The value of the 64-bit pattern `v` read as a two's-complement signed
/// integer.
pub open spec fn as_signed(v: u64) -> int {
    if v < 0x8000000000000000 {
        v as int
    } else {
        v as int - 0x10000000000000000
    }
}

pub proof fn lemma_le_at_bound(s: Seq<u8>, off: int, n: nat)
    ensures
        le_at(s, off, n) < pow256(n),
    decreases n,
{
    if n > 0 {
        lemma_le_at_bound(s, off + 1, (n - 1) as nat);
    }
}

pub proof fn lemma_le_of_len(v: nat, n: nat)
    ensures
        le_of(v, n).len() == n,
    decreases n,
{
    if n > 0 {
        lemma_le_of_len(v / 256, (n - 1) as nat);
    }
}

proof fn lemma_le_at_prepend(x: u8, t: Seq<u8>, off: int, n: nat)
    requires
        0 <= off,
        off + n <= t.len(),
    ensures
        le_at(seq![x] + t, off + 1, n) == le_at(t, off, n),
    decreases n,
{
    if n > 0 {
        assert((seq![x] + t)[off + 1] == t[off]);
        lemma_le_at_prepend(x, t, off + 1, (n - 1) as nat);
    }
}

/// Round trip: reading back the `n` little-endian bytes of `v` recovers `v`.
pub proof fn lemma_le_round_trip(v: nat, n: nat)
    requires
        v < pow256(n),
    ensures
        le_at(le_of(v, n), 0, n) == v,
    decreases n,
{
    if n > 0 {
        lemma_le_of_len(v / 256, (n - 1) as nat);
        lemma_le_round_trip(v / 256, (n - 1) as nat);
        lemma_le_at_prepend((v % 256) as u8, le_of(v / 256, (n - 1) as nat), 0, (n - 1) as nat);
        assert(le_at(le_of(v, n), 0, n) == (v % 256) + 256 * le_at(
            le_of(v / 256, (n - 1) as nat),
            0,
            (n - 1) as nat,
        ));
    }
}

/// Reads the unsigned 32-bit little-endian integer at `off`.
pub fn read_u32_le(s: &[u8], off: usize) -> (r: u32)
    requires
        off + 4 <= s@.len(),
    ensures
        r == le_at(s@, off as int, 4),
{
    let b0 = s[off] as u32;
    let b1 = s[off + 1] as u32;
    let b2 = s[off + 2] as u32;
    let b3 = s[off + 3] as u32;
    proof {
        reveal_with_fuel(le_at, 5);
    }
    b0 + b1 * 256 + b2 * 65536 + b3 * 16777216
}

/// Reads the unsigned 64-bit little-endian integer at `off`.
pub fn read_u64_le(s: &[u8], off: usize) -> (r: u64)
    requires
        off + 8 <= s@.len(),
    ensures
        r == le_at(s@, off as int, 8),
{
    proof {
        assert(off + 8 <= s.len());
    }
    let lo = read_u32_le(s, off) as u64;
    let hi = read_u32_le(s, off + 4) as u64;
    proof {
        reveal_with_fuel(le_at, 9);
    }
    lo + hi * 4294967296
}

fn push_le(out: &mut Vec<u8>, v: u64, n: u8)
    ensures
        final(out)@ == old(out)@ + le_of(v as nat, n as nat),
    decreases n,
{
    if n == 0 {
        assert(out@ =~= old(out)@ + le_of(v as nat, 0));
    } else {
        out.push((v % 256) as u8);
        push_le(out, v / 256, n - 1);
        assert(out@ =~= old(out)@ + le_of(v as nat, n as nat));
    }
}

/// Appends the 8 little-endian bytes of `v`.
pub fn push_u64_le(out: &mut Vec<u8>, v: u64)
    ensures
        final(out)@ == old(out)@ + le_of(v as nat, 8),
{
    push_le(out, v, 8);
}

/// Appends the decimal digits of `v`, most significant first.
pub fn push_decimal(out: &mut Vec<u8>, v: u64)
    ensures
        final(out)@ == old(out)@ + dec_digits(v as nat),
    decreases v,
{
    if v < 10 {
        out.push(48 + v as u8);
        assert(out@ =~= old(out)@ + dec_digits(v as nat));
    } else {
        push_decimal(out, v / 10);
        out.push(48 + (v % 10) as u8);
        assert(out@ =~= old(out)@ + dec_digits(v as nat));
    }
}

/// True when the bit pattern `a`, read signed, is strictly greater than `b`
/// read signed.
pub fn signed_gt(a: u64, b: u64) -> (r: bool)
    ensures
        r == (as_signed(a) > as_signed(b)),
{
    if (a >= 0x8000000000000000) == (b >= 0x8000000000000000) {
        a > b
    } else {
        b >= 0x8000000000000000
    }
}

} // verus!
