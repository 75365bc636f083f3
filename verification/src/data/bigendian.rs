//! Big-endian encoding of the fixed-width integers of the file format.

use vstd::prelude::*;

verus! {

/// The two bytes of `x`, most significant first.
pub open spec fn be16(x: int) -> Seq<u8> {
    seq![((x / 256) % 256) as u8, (x % 256) as u8]
}

/// The four bytes of `x`, most significant first.
pub open spec fn be32(x: int) -> Seq<u8> {
    seq![
        ((x / 16777216) % 256) as u8,
        ((x / 65536) % 256) as u8,
        ((x / 256) % 256) as u8,
        (x % 256) as u8,
    ]
}

/// The number that the first two bytes of `b` spell, most significant first.
pub open spec fn from_be16(b: Seq<u8>) -> int {
    b[0] as int * 256 + b[1] as int
}

/// The number that the first four bytes of `b` spell, most significant first.
pub open spec fn from_be32(b: Seq<u8>) -> int {
    b[0] as int * 16777216 + b[1] as int * 65536 + b[2] as int * 256 + b[3] as int
}

/// The unsigned 32-bit number with the bit pattern of the signed `x`.
pub open spec fn unsigned32(x: int) -> int {
    if x < 0 {
        x + 4294967296
    } else {
        x
    }
}

/// The signed 32-bit number with the bit pattern of the unsigned `x`.
pub open spec fn signed32(x: int) -> int {
    if x >= 2147483648 {
        x - 4294967296
    } else {
        x
    }
}

/// Decoding undoes encoding for every 16-bit number, and the other way round.
pub proof fn lemma_be16_round_trip(x: int, b: Seq<u8>)
    ensures
        be16(x).len() == 2,
        0 <= x < 65536 ==> from_be16(be16(x)) == x,
        0 <= from_be16(b) < 65536,
        b.len() == 2 ==> be16(from_be16(b)) =~= b,
{
}

/// Decoding undoes encoding for every 32-bit number, and the other way round.
pub proof fn lemma_be32_round_trip(x: int, b: Seq<u8>)
    ensures
        be32(x).len() == 4,
        0 <= x < 4294967296 ==> from_be32(be32(x)) == x,
        0 <= from_be32(b) < 4294967296,
        b.len() == 4 ==> be32(from_be32(b)) =~= b,
{
    if 0 <= x < 4294967296 {
        lemma_split32(x);
    }
    if b.len() == 4 {
        let v = from_be32(b);
        lemma_split32(v);
        let low = b[1] as int * 65536 + b[2] as int * 256 + b[3] as int;
        assert(v == b[0] as int * 16777216 + low);
        assert(v / 16777216 == b[0] as int);
        let mid = b[2] as int * 256 + b[3] as int;
        assert(v == (b[0] as int * 256 + b[1] as int) * 65536 + mid);
        assert(v / 65536 == b[0] as int * 256 + b[1] as int);
        assert(v == (b[0] as int * 65536 + b[1] as int * 256 + b[2] as int) * 256 + b[3] as int);
        assert(v / 256 == b[0] as int * 65536 + b[1] as int * 256 + b[2] as int);
    }
}

/// How the four base-256 digits of a 32-bit number add up to it.
proof fn lemma_split32(x: int)
    requires
        0 <= x < 4294967296,
    ensures
        x == (x / 16777216) * 16777216 + ((x / 65536) % 256) * 65536 + ((x / 256) % 256) * 256 + x
            % 256,
        0 <= x / 16777216 < 256,
{
    let a = x / 256;
    let b = a / 256;
    let c = b / 256;
    assert(x / 65536 == b);
    assert(b / 256 == c);
    assert(x / 16777216 == c);
}

/// The two readings of a 32-bit pattern, signed and unsigned, determine each other.
pub proof fn lemma_signed_round_trip(x: int)
    ensures
        -2147483648 <= x < 2147483648 ==> 0 <= unsigned32(x) < 4294967296 && signed32(
            unsigned32(x),
        ) == x,
        0 <= x < 4294967296 ==> -2147483648 <= signed32(x) < 2147483648 && unsigned32(
            signed32(x),
        ) == x,
{
}

/// Appends the big-endian bytes of `v`.
pub fn push_u16(out: &mut Vec<u8>, v: u16)
    ensures
        final(out)@ == old(out)@ + be16(v as int),
{
    out.push((v / 256) as u8);
    out.push((v % 256) as u8);
    assert(out@ =~= old(out)@ + be16(v as int));
}

/// Appends the big-endian bytes of `v`.
pub fn push_u32(out: &mut Vec<u8>, v: u32)
    ensures
        final(out)@ == old(out)@ + be32(v as int),
{
    out.push((v / 16777216) as u8);
    out.push(((v / 65536) % 256) as u8);
    out.push(((v / 256) % 256) as u8);
    out.push((v % 256) as u8);
    assert(out@ =~= old(out)@ + be32(v as int));
}

/// Appends the big-endian two's complement bytes of `v`.
pub fn push_i32(out: &mut Vec<u8>, v: i32)
    ensures
        final(out)@ == old(out)@ + be32(unsigned32(v as int)),
{
    let wide: i64 = v as i64;
    let pattern: i64 = if wide < 0 {
        wide + 4294967296
    } else {
        wide
    };
    push_u32(out, pattern as u32);
}

/// Reads the 16-bit number at `at`.
pub fn read_u16(b: &[u8], at: usize) -> (v: u16)
    requires
        at + 2 <= b@.len(),
    ensures
        v == from_be16(b@.subrange(at as int, at + 2)),
{
    let hi: u16 = b[at] as u16;
    let lo: u16 = b[at + 1] as u16;
    hi * 256 + lo
}

/// Reads the unsigned 32-bit number at `at`.
pub fn read_u32(b: &[u8], at: usize) -> (v: u32)
    requires
        at + 4 <= b@.len(),
    ensures
        v == from_be32(b@.subrange(at as int, at + 4)),
{
    let b0: u32 = b[at] as u32;
    let b1: u32 = b[at + 1] as u32;
    let b2: u32 = b[at + 2] as u32;
    let b3: u32 = b[at + 3] as u32;
    b0 * 16777216 + b1 * 65536 + b2 * 256 + b3
}

/// Reads the signed 32-bit number at `at`.
pub fn read_i32(b: &[u8], at: usize) -> (v: i32)
    requires
        at + 4 <= b@.len(),
    ensures
        v == signed32(from_be32(b@.subrange(at as int, at + 4))),
{
    let pattern: i64 = read_u32(b, at) as i64;
    if pattern >= 2147483648 {
        (pattern - 4294967296) as i32
    } else {
        pattern as i32
    }
}

/// Copies `src` over the bytes of `dst` that start at `at`.
pub fn copy_into(dst: &mut Vec<u8>, at: usize, src: &[u8])
    requires
        at + src@.len() <= old(dst)@.len(),
    ensures
        final(dst)@ == old(dst)@.subrange(0, at as int) + src@ + old(dst)@.subrange(
            at + src@.len(),
            old(dst)@.len() as int,
        ),
{
    let n: usize = src.len();
    let total: usize = dst.len();
    let ghost initial = dst@;
    let mut i: usize = 0;
    while i < n
        invariant
            n == src@.len(),
            i <= n,
            at + n <= total,
            total == dst@.len(),
            total == initial.len(),
            dst@ == initial.subrange(0, at as int) + src@.subrange(0, i as int)
                + initial.subrange(at + i, total as int),
        decreases n - i,
    {
        dst.set(at + i, src[i]);
        i = i + 1;
        assert(dst@ =~= initial.subrange(0, at as int) + src@.subrange(0, i as int)
            + initial.subrange(at + i, total as int));
    }
    assert(src@.subrange(0, n as int) =~= src@);
}

} // verus!
