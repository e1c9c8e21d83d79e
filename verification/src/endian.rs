//! Big-endian encodings of the fixed-width integer fields of the wire
//! format: 16-bit ports, the 32-bit payload length, IPv4 address bits, and
//! the 128-bit connection and message identifiers.

use vstd::prelude::*;

verus! {

/// The two big-endian bytes of a 16-bit value.
pub open spec fn spec_be16(x: u16) -> Seq<u8> {
    seq![((x >> 8) & 0xFF) as u8, (x & 0xFF) as u8]
}

/// The 16-bit value read from two big-endian bytes.
pub open spec fn spec_u16_of(s: Seq<u8>) -> u16
    recommends
        s.len() == 2,
{
    ((s[0] as u16) << 8) | (s[1] as u16)
}

/// The four big-endian bytes of a 32-bit value.
pub open spec fn spec_be32(x: u32) -> Seq<u8> {
    seq![
        ((x >> 24) & 0xFF) as u8,
        ((x >> 16) & 0xFF) as u8,
        ((x >> 8) & 0xFF) as u8,
        (x & 0xFF) as u8,
    ]
}

/// The 32-bit value read from four big-endian bytes.
pub open spec fn spec_u32_of(s: Seq<u8>) -> u32
    recommends
        s.len() == 4,
{
    ((s[0] as u32) << 24) | ((s[1] as u32) << 16) | ((s[2] as u32) << 8) | (s[3] as u32)
}

/// The sixteen big-endian bytes of a 128-bit identifier.
pub open spec fn spec_be128(x: u128) -> Seq<u8> {
    seq![
        ((x >> 120) & 0xFF) as u8,
        ((x >> 112) & 0xFF) as u8,
        ((x >> 104) & 0xFF) as u8,
        ((x >> 96) & 0xFF) as u8,
        ((x >> 88) & 0xFF) as u8,
        ((x >> 80) & 0xFF) as u8,
        ((x >> 72) & 0xFF) as u8,
        ((x >> 64) & 0xFF) as u8,
        ((x >> 56) & 0xFF) as u8,
        ((x >> 48) & 0xFF) as u8,
        ((x >> 40) & 0xFF) as u8,
        ((x >> 32) & 0xFF) as u8,
        ((x >> 24) & 0xFF) as u8,
        ((x >> 16) & 0xFF) as u8,
        ((x >> 8) & 0xFF) as u8,
        (x & 0xFF) as u8,
    ]
}

/// The 128-bit identifier read from sixteen big-endian bytes.
pub open spec fn spec_u128_of(s: Seq<u8>) -> u128
    recommends
        s.len() == 16,
{
    ((s[0] as u128) << 120) | ((s[1] as u128) << 112) | ((s[2] as u128) << 104)
        | ((s[3] as u128) << 96) | ((s[4] as u128) << 88) | ((s[5] as u128) << 80)
        | ((s[6] as u128) << 72) | ((s[7] as u128) << 64) | ((s[8] as u128) << 56)
        | ((s[9] as u128) << 48) | ((s[10] as u128) << 40) | ((s[11] as u128) << 32)
        | ((s[12] as u128) << 24) | ((s[13] as u128) << 16) | ((s[14] as u128) << 8)
        | (s[15] as u128)
}

/// Reading back the two bytes of a 16-bit value restores it.
pub proof fn lemma_be16_roundtrip(x: u16)
    ensures
        spec_u16_of(spec_be16(x)) == x,
{
    assert((((((x >> 8) & 0xFF) as u8) as u16) << 8) | (((x & 0xFF) as u8) as u16) == x)
        by (bit_vector);
}

/// Reading back the four bytes of a 32-bit value restores it.
pub proof fn lemma_be32_roundtrip(x: u32)
    ensures
        spec_u32_of(spec_be32(x)) == x,
{
    assert(((((x >> 24) & 0xFF) as u8 as u32) << 24) | ((((x >> 16) & 0xFF) as u8 as u32) << 16)
        | ((((x >> 8) & 0xFF) as u8 as u32) << 8) | ((x & 0xFF) as u8 as u32) == x)
        by (bit_vector);
}

/// Reading back the sixteen bytes of a 128-bit identifier restores it.
#[verifier::rlimit(60)]
pub proof fn lemma_be128_roundtrip(x: u128)
    ensures
        spec_u128_of(spec_be128(x)) == x,
{
    assert(((((x >> 120) & 0xFF) as u8 as u128) << 120)
        | ((((x >> 112) & 0xFF) as u8 as u128) << 112)
        | ((((x >> 104) & 0xFF) as u8 as u128) << 104)
        | ((((x >> 96) & 0xFF) as u8 as u128) << 96)
        | ((((x >> 88) & 0xFF) as u8 as u128) << 88)
        | ((((x >> 80) & 0xFF) as u8 as u128) << 80)
        | ((((x >> 72) & 0xFF) as u8 as u128) << 72)
        | ((((x >> 64) & 0xFF) as u8 as u128) << 64)
        | ((((x >> 56) & 0xFF) as u8 as u128) << 56)
        | ((((x >> 48) & 0xFF) as u8 as u128) << 48)
        | ((((x >> 40) & 0xFF) as u8 as u128) << 40)
        | ((((x >> 32) & 0xFF) as u8 as u128) << 32)
        | ((((x >> 24) & 0xFF) as u8 as u128) << 24)
        | ((((x >> 16) & 0xFF) as u8 as u128) << 16)
        | ((((x >> 8) & 0xFF) as u8 as u128) << 8)
        | ((x & 0xFF) as u8 as u128) == x)
        by (bit_vector);
}

/// Append the two big-endian bytes of `x`.
pub fn push_be16(out: &mut Vec<u8>, x: u16)
    ensures
        final(out)@ == old(out)@ + spec_be16(x),
{
    proof {
        assert((x >> 8) & 0xFF < 256 && x & 0xFF < 256) by (bit_vector);
    }
    out.push(((x >> 8) & 0xFF) as u8);
    out.push((x & 0xFF) as u8);
    proof {
        assert(out@ =~= old(out)@ + spec_be16(x));
    }
}

/// Append the four big-endian bytes of `x`.
pub fn push_be32(out: &mut Vec<u8>, x: u32)
    ensures
        final(out)@ == old(out)@ + spec_be32(x),
{
    proof {
        assert((x >> 24) & 0xFF < 256 && (x >> 16) & 0xFF < 256 && (x >> 8) & 0xFF < 256
            && x & 0xFF < 256) by (bit_vector);
    }
    out.push(((x >> 24) & 0xFF) as u8);
    out.push(((x >> 16) & 0xFF) as u8);
    out.push(((x >> 8) & 0xFF) as u8);
    out.push((x & 0xFF) as u8);
    proof {
        assert(out@ =~= old(out)@ + spec_be32(x));
    }
}

/// Append the sixteen big-endian bytes of `x`.
pub fn push_be128(out: &mut Vec<u8>, x: u128)
    ensures
        final(out)@ == old(out)@ + spec_be128(x),
{
    proof {
        assert((x >> 120) & 0xFF < 256 && (x >> 112) & 0xFF < 256 && (x >> 104) & 0xFF < 256
            && (x >> 96) & 0xFF < 256 && (x >> 88) & 0xFF < 256 && (x >> 80) & 0xFF < 256
            && (x >> 72) & 0xFF < 256 && (x >> 64) & 0xFF < 256 && (x >> 56) & 0xFF < 256
            && (x >> 48) & 0xFF < 256 && (x >> 40) & 0xFF < 256 && (x >> 32) & 0xFF < 256
            && (x >> 24) & 0xFF < 256 && (x >> 16) & 0xFF < 256 && (x >> 8) & 0xFF < 256
            && x & 0xFF < 256) by (bit_vector);
    }
    out.push(((x >> 120) & 0xFF) as u8);
    out.push(((x >> 112) & 0xFF) as u8);
    out.push(((x >> 104) & 0xFF) as u8);
    out.push(((x >> 96) & 0xFF) as u8);
    out.push(((x >> 88) & 0xFF) as u8);
    out.push(((x >> 80) & 0xFF) as u8);
    out.push(((x >> 72) & 0xFF) as u8);
    out.push(((x >> 64) & 0xFF) as u8);
    out.push(((x >> 56) & 0xFF) as u8);
    out.push(((x >> 48) & 0xFF) as u8);
    out.push(((x >> 40) & 0xFF) as u8);
    out.push(((x >> 32) & 0xFF) as u8);
    out.push(((x >> 24) & 0xFF) as u8);
    out.push(((x >> 16) & 0xFF) as u8);
    out.push(((x >> 8) & 0xFF) as u8);
    out.push((x & 0xFF) as u8);
    proof {
        assert(out@ =~= old(out)@ + spec_be128(x));
    }
}

/// Read a 16-bit big-endian value at `off`.
pub fn read_u16_be(buf: &Vec<u8>, off: usize) -> (r: u16)
    requires
        off + 2 <= buf@.len(),
    ensures
        r == spec_u16_of(buf@.subrange(off as int, off as int + 2)),
{
    let n: usize = buf.len();
    let hi: u16 = buf[off] as u16;
    let lo: u16 = buf[off + 1] as u16;
    (hi << 8) | lo
}

/// Read a 32-bit big-endian value at `off`.
pub fn read_u32_be(buf: &Vec<u8>, off: usize) -> (r: u32)
    requires
        off + 4 <= buf@.len(),
    ensures
        r == spec_u32_of(buf@.subrange(off as int, off as int + 4)),
{
    let n: usize = buf.len();
    let b0: u32 = buf[off] as u32;
    let b1: u32 = buf[off + 1] as u32;
    let b2: u32 = buf[off + 2] as u32;
    let b3: u32 = buf[off + 3] as u32;
    (b0 << 24) | (b1 << 16) | (b2 << 8) | b3
}

/// Read a 128-bit big-endian identifier at `off`.
pub fn read_u128_be(buf: &Vec<u8>, off: usize) -> (r: u128)
    requires
        off + 16 <= buf@.len(),
    ensures
        r == spec_u128_of(buf@.subrange(off as int, off as int + 16)),
{
    let n: usize = buf.len();
    let b0: u128 = buf[off] as u128;
    let b1: u128 = buf[off + 1] as u128;
    let b2: u128 = buf[off + 2] as u128;
    let b3: u128 = buf[off + 3] as u128;
    let b4: u128 = buf[off + 4] as u128;
    let b5: u128 = buf[off + 5] as u128;
    let b6: u128 = buf[off + 6] as u128;
    let b7: u128 = buf[off + 7] as u128;
    let b8: u128 = buf[off + 8] as u128;
    let b9: u128 = buf[off + 9] as u128;
    let b10: u128 = buf[off + 10] as u128;
    let b11: u128 = buf[off + 11] as u128;
    let b12: u128 = buf[off + 12] as u128;
    let b13: u128 = buf[off + 13] as u128;
    let b14: u128 = buf[off + 14] as u128;
    let b15: u128 = buf[off + 15] as u128;
    (b0 << 120) | (b1 << 112) | (b2 << 104) | (b3 << 96) | (b4 << 88) | (b5 << 80) | (b6 << 72)
        | (b7 << 64) | (b8 << 56) | (b9 << 48) | (b10 << 40) | (b11 << 32) | (b12 << 24)
        | (b13 << 16) | (b14 << 8) | b15
}

} // verus!
