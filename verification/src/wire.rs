//! Big-endian integers as they travel on an RFB connection.

use vstd::prelude::*;

verus! {

/// The two bytes of `v`, most significant first.
pub open spec fn be16(v: u16) -> Seq<u8> {
    seq![(v / 256) as u8, (v % 256) as u8]
}

/// The number whose two bytes are `hi` and `lo`.
pub open spec fn from_be16(hi: u8, lo: u8) -> u16 {
    (hi * 256 + lo) as u16
}

/// The four bytes of `v`, most significant first.
pub open spec fn be32(v: u32) -> Seq<u8> {
    seq![
        (v / 0x100_0000) as u8,
        (v / 0x1_0000 % 256) as u8,
        (v / 0x100 % 256) as u8,
        (v % 256) as u8,
    ]
}

/// The number whose four bytes are `a`, `b`, `c` and `d`.
pub open spec fn from_be32(a: u8, b: u8, c: u8, d: u8) -> u32 {
    (a * 0x100_0000 + b * 0x1_0000 + c * 0x100 + d) as u32
}

/// Two's complement: the unsigned number with the same 32 bits as `v`.
pub open spec fn i32_bits(v: i32) -> u32 {
    if v >= 0 {
        v as u32
    } else {
        (v + 0x1_0000_0000) as u32
    }
}

/// Two's complement: the signed number with the same 32 bits as `v`.
pub open spec fn i32_of_bits(v: u32) -> i32 {
    if v < 0x8000_0000 {
        v as i32
    } else {
        (v - 0x1_0000_0000) as i32
    }
}

/// Splits a 16-bit number into its bytes.
pub fn u16_to_be(v: u16) -> (r: [u8; 2])
    ensures
        r@ == be16(v),
{
    let r = [(v / 256) as u8, (v % 256) as u8];
    assert(r@ =~= be16(v));
    r
}

/// Joins two bytes into a 16-bit number.
pub fn u16_of_be(hi: u8, lo: u8) -> (r: u16)
    ensures
        r == from_be16(hi, lo),
{
    (hi as u16) * 256 + (lo as u16)
}

/// Splits a 32-bit number into its bytes.
pub fn u32_to_be(v: u32) -> (r: [u8; 4])
    ensures
        r@ == be32(v),
{
    let r = [
        (v / 0x100_0000) as u8,
        (v / 0x1_0000 % 256) as u8,
        (v / 0x100 % 256) as u8,
        (v % 256) as u8,
    ];
    assert(r@ =~= be32(v));
    r
}

/// Joins four bytes into a 32-bit number.
pub fn u32_of_be(a: u8, b: u8, c: u8, d: u8) -> (r: u32)
    ensures
        r == from_be32(a, b, c, d),
{
    (a as u32) * 0x100_0000 + (b as u32) * 0x1_0000 + (c as u32) * 0x100 + (d as u32)
}

/// The 32 bits of a signed number.
pub fn i32_to_bits(v: i32) -> (r: u32)
    ensures
        r == i32_bits(v),
{
    if v >= 0 {
        v as u32
    } else {
        (v as i64 + 0x1_0000_0000) as u32
    }
}

/// The signed number with the given 32 bits.
pub fn i32_from_bits(v: u32) -> (r: i32)
    ensures
        r == i32_of_bits(v),
{
    if v < 0x8000_0000 {
        v as i32
    } else {
        (v as i64 - 0x1_0000_0000) as i32
    }
}

/// Reading the bytes of a 16-bit number gives the number back.
pub proof fn law_be16_round_trip(v: u16)
    ensures
        from_be16(be16(v)[0], be16(v)[1]) == v,
{
}

/// Reading the bytes of a 32-bit number gives the number back.
pub proof fn law_be32_round_trip(v: u32)
    ensures
        from_be32(be32(v)[0], be32(v)[1], be32(v)[2], be32(v)[3]) == v,
{
    assert(v == v / 0x100_0000 * 0x100_0000 + v / 0x1_0000 % 256 * 0x1_0000 + v / 0x100 % 256
        * 0x100 + v % 256);
}

/// Every signed number survives the trip through its bits.
pub proof fn law_i32_bits_round_trip(v: i32)
    ensures
        i32_of_bits(i32_bits(v)) == v,
{
}

/// The bytes of a 16-bit number are its digits to the base 256, the higher one
/// first, and are read as such.
pub proof fn law_be16_digits(v: u16, hi: u8, lo: u8)
    ensures
        be16(v).len() == 2,
        be16(v)[0] * 256 + be16(v)[1] == v,
        from_be16(hi, lo) == hi * 256 + lo,
{
}

/// The bytes of a 32-bit number are its digits to the base 256, the highest one
/// first, and are read as such.
pub proof fn law_be32_digits(v: u32, a: u8, b: u8, c: u8, d: u8)
    ensures
        be32(v).len() == 4,
        be32(v)[0] * 0x100_0000 + be32(v)[1] * 0x1_0000 + be32(v)[2] * 0x100 + be32(v)[3] == v,
        from_be32(a, b, c, d) == a * 0x100_0000 + b * 0x1_0000 + c * 0x100 + d,
{
    assert(v == v / 0x100_0000 * 0x100_0000 + v / 0x1_0000 % 256 * 0x1_0000 + v / 0x100 % 256
        * 0x100 + v % 256);
}

/// A signed number and its bits are the same number modulo 2^32.
pub proof fn law_i32_bits_congruent(v: i32, bits: u32)
    ensures
        i32_bits(v) == v || i32_bits(v) == v + 0x1_0000_0000,
        i32_of_bits(bits) == bits || i32_of_bits(bits) == bits - 0x1_0000_0000,
{
}

} // verus!
