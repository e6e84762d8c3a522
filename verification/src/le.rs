//! Little-endian encoding of the fixed-width integers that the shared-memory
//! protocol stores, stated arithmetically over byte sequences.
use vstd::prelude::*;

verus! {

/// The unsigned value of the two bytes at `off`, least significant first.
pub open spec fn le_u16_at(s: Seq<u8>, off: int) -> int {
    s[off] + 256 * s[off + 1]
}

/// The unsigned value of the four bytes at `off`, least significant first.
pub open spec fn le_u32_at(s: Seq<u8>, off: int) -> int {
    s[off] + 256 * s[off + 1] + 65536 * s[off + 2] + 16777216 * s[off + 3]
}

/// The unsigned value of the eight bytes at `off`, least significant first.
pub open spec fn le_u64_at(s: Seq<u8>, off: int) -> int {
    le_u32_at(s, off) + 4294967296 * le_u32_at(s, off + 4)
}

/// The four bytes that encode `v` least significant first.
pub open spec fn u32_le(v: int) -> Seq<u8> {
    seq![(v % 256) as u8, ((v / 256) % 256) as u8, ((v / 65536) % 256) as u8, ((v / 16777216) % 256) as u8]
}

/// The eight bytes that encode `v` least significant first.
pub open spec fn u64_le(v: int) -> Seq<u8> {
    u32_le(v % 4294967296) + u32_le(v / 4294967296)
}

/// Two's complement: the unsigned 32-bit pattern of a signed 32-bit value.
pub open spec fn i32_bits(v: int) -> int {
    if v < 0 { v + 4294967296 } else { v }
}

/// Two's complement: the signed value of an unsigned 32-bit pattern.
pub open spec fn i32_of_bits(u: int) -> int {
    if u >= 2147483648 { u - 4294967296 } else { u }
}

/// Decoding the encoding of a 32-bit value gives the value back.
pub proof fn lemma_u32_le_roundtrip(v: int)
    requires
        0 <= v < 4294967296,
    ensures
        u32_le(v).len() == 4,
        le_u32_at(u32_le(v), 0) == v,
{
    let b = u32_le(v);
    assert(b[0] == v % 256);
    assert(b[1] == (v / 256) % 256);
    assert(b[2] == (v / 65536) % 256);
    assert(b[3] == (v / 16777216) % 256);
    assert(v == v % 256 + 256 * ((v / 256) % 256) + 65536 * ((v / 65536) % 256) + 16777216 * ((
    v / 16777216) % 256)) by (nonlinear_arith)
        requires
            0 <= v < 4294967296,
    {
        vstd::arithmetic::div_mod::lemma_fundamental_div_mod(v, 256);
        vstd::arithmetic::div_mod::lemma_fundamental_div_mod(v / 256, 256);
        vstd::arithmetic::div_mod::lemma_fundamental_div_mod(v / 65536, 256);
        vstd::arithmetic::div_mod::lemma_div_denominator(v, 256, 256);
        vstd::arithmetic::div_mod::lemma_div_denominator(v, 65536, 256);
    }
}

/// Encoding a four-byte sequence's value gives the same bytes back.
pub proof fn lemma_le_u32_bytes_roundtrip(s: Seq<u8>, off: int)
    requires
        0 <= off,
        off + 4 <= s.len(),
    ensures
        0 <= le_u32_at(s, off) < 4294967296,
        u32_le(le_u32_at(s, off)) == s.subrange(off, off + 4),
{
    let v = le_u32_at(s, off);
    let (b0, b1, b2, b3) = (s[off] as int, s[off + 1] as int, s[off + 2] as int, s[off + 3] as int);
    assert(v % 256 == b0 && (v / 256) % 256 == b1 && (v / 65536) % 256 == b2 && (v / 16777216)
        % 256 == b3) by (nonlinear_arith)
        requires
            v == b0 + 256 * b1 + 65536 * b2 + 16777216 * b3,
            0 <= b0 < 256,
            0 <= b1 < 256,
            0 <= b2 < 256,
            0 <= b3 < 256,
    {
        vstd::arithmetic::div_mod::lemma_fundamental_div_mod_converse(v, 256, b1 + 256 * b2 + 65536 * b3, b0);
        vstd::arithmetic::div_mod::lemma_fundamental_div_mod_converse(v, 65536, b2 + 256 * b3, b0 + 256 * b1);
        vstd::arithmetic::div_mod::lemma_fundamental_div_mod_converse(v, 16777216, b3, b0 + 256 * b1 + 65536 * b2);
        vstd::arithmetic::div_mod::lemma_fundamental_div_mod_converse(b1 + 256 * b2 + 65536 * b3, 256, b2 + 256 * b3, b1);
        vstd::arithmetic::div_mod::lemma_fundamental_div_mod_converse(b2 + 256 * b3, 256, b3, b2);
        vstd::arithmetic::div_mod::lemma_fundamental_div_mod_converse(b3, 256, 0, b3);
    }
    assert(u32_le(v) =~= s.subrange(off, off + 4));
}

/// Reads the little-endian `u16` at `off`.
pub fn read_u16_le(bytes: &[u8], off: usize) -> (r: u16)
    requires
        off + 2 <= bytes@.len(),
    ensures
        r == le_u16_at(bytes@, off as int),
{
    bytes[off] as u16 + (bytes[off + 1] as u16) * 256
}

/// Reads the little-endian `u32` at `off`.
pub fn read_u32_le(bytes: &[u8], off: usize) -> (r: u32)
    requires
        off + 4 <= bytes@.len(),
    ensures
        r == le_u32_at(bytes@, off as int),
{
    bytes[off] as u32 + (bytes[off + 1] as u32) * 256 + (bytes[off + 2] as u32) * 65536 + (
    bytes[off + 3] as u32) * 16777216
}

/// Reads the little-endian `u64` at `off`.
pub fn read_u64_le(bytes: &[u8], off: usize) -> (r: u64)
    requires
        off + 8 <= bytes@.len(),
    ensures
        r == le_u64_at(bytes@, off as int),
{
    let lo = read_u32_le(bytes, off);
    assert(bytes@.len() == bytes.len());
    let hi = read_u32_le(bytes, off + 4);
    lo as u64 + (hi as u64) * 4294967296
}

/// Reads the little-endian two's complement `i32` at `off`.
pub fn read_i32_le(bytes: &[u8], off: usize) -> (r: i32)
    requires
        off + 4 <= bytes@.len(),
    ensures
        r == i32_of_bits(le_u32_at(bytes@, off as int)),
{
    let u = read_u32_le(bytes, off);
    if u >= 2147483648 {
        ((u as i64) - 4294967296) as i32
    } else {
        u as i32
    }
}

/// The unsigned 32-bit pattern of `v`.
pub fn i32_to_bits(v: i32) -> (r: u32)
    ensures
        r == i32_bits(v as int),
{
    if v < 0 {
        ((v as i64) + 4294967296) as u32
    } else {
        v as u32
    }
}

/// The four little-endian bytes of `v`.
pub fn u32_to_le(v: u32) -> (r: [u8; 4])
    ensures
        r@ == u32_le(v as int),
{
    let r = [(v % 256) as u8, ((v / 256) % 256) as u8, ((v / 65536) % 256) as u8, ((v / 16777216) % 256) as u8];
    assert(r@ =~= u32_le(v as int));
    r
}

/// Appends the four little-endian bytes of `v`.
pub fn extend_u32_le(buf: &mut Vec<u8>, v: u32)
    ensures
        final(buf)@ == old(buf)@ + u32_le(v as int),
{
    let b = u32_to_le(v);
    buf.push(b[0]);
    buf.push(b[1]);
    buf.push(b[2]);
    buf.push(b[3]);
    assert(buf@ =~= old(buf)@ + u32_le(v as int));
}

/// Appends the eight little-endian bytes of `v`.
pub fn extend_u64_le(buf: &mut Vec<u8>, v: u64)
    ensures
        final(buf)@ == old(buf)@ + u64_le(v as int),
{
    extend_u32_le(buf, (v % 4294967296) as u32);
    extend_u32_le(buf, (v / 4294967296) as u32);
    assert(buf@ =~= old(buf)@ + u64_le(v as int));
}

} // verus!
