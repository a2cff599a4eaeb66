use byteorder::{ByteOrder, LittleEndian};
use vstd::prelude::*;

verus! {

/// The little-endian `u16` held by the two bytes of `s` at `off`.
pub open spec fn le_u16(s: Seq<u8>, off: int) -> u16 {
    (s[off] as int + 0x100 * s[off + 1] as int) as u16
}

/// The little-endian `u32` held by the four bytes of `s` at `off`.
pub open spec fn le_u32(s: Seq<u8>, off: int) -> u32 {
    (s[off] as int + 0x100 * s[off + 1] as int + 0x1_0000 * s[off + 2] as int + 0x100_0000
        * s[off + 3] as int) as u32
}

/// The little-endian `u64` held by the eight bytes of `s` at `off`.
pub open spec fn le_u64(s: Seq<u8>, off: int) -> u64 {
    (le_u32(s, off) as int + 0x1_0000_0000 * le_u32(s, off + 4) as int) as u64
}

/// The little-endian `i16` held by the two bytes of `s` at `off`.
pub open spec fn le_i16(s: Seq<u8>, off: int) -> i16 {
    le_u16(s, off) as i16
}

/// The little-endian `i32` held by the four bytes of `s` at `off`.
pub open spec fn le_i32(s: Seq<u8>, off: int) -> i32 {
    le_u32(s, off) as i32
}

/// Whether `s` holds `n` bytes from `off` on.
pub open spec fn in_bounds(s: Seq<u8>, off: int, n: int) -> bool {
    0 <= off && off + n <= s.len()
}

/// Calls `LittleEndian::read_u16` on the bytes of `buf` from `off` on; it reads the
/// first two of them, least significant first.
#[verifier::external_body]
pub(crate) fn read_u16_at(buf: &[u8], off: usize) -> (r: u16)
    requires
        off + 2 <= buf@.len(),
    ensures
        r == le_u16(buf@, off as int),
{
    LittleEndian::read_u16(&buf[off..])
}

/// Calls `LittleEndian::read_u32` on the bytes of `buf` from `off` on; it reads the
/// first four of them, least significant first.
#[verifier::external_body]
pub(crate) fn read_u32_at(buf: &[u8], off: usize) -> (r: u32)
    requires
        off + 4 <= buf@.len(),
    ensures
        r == le_u32(buf@, off as int),
{
    LittleEndian::read_u32(&buf[off..])
}

/// Calls `LittleEndian::read_u64` on the bytes of `buf` from `off` on; it reads the
/// first eight of them, least significant first.
#[verifier::external_body]
pub(crate) fn read_u64_at(buf: &[u8], off: usize) -> (r: u64)
    requires
        off + 8 <= buf@.len(),
    ensures
        r == le_u64(buf@, off as int),
{
    LittleEndian::read_u64(&buf[off..])
}

/// Calls `LittleEndian::read_i16` on the bytes of `buf` from `off` on; it reads the
/// first two of them as a two's-complement number, least significant first.
#[verifier::external_body]
pub(crate) fn read_i16_at(buf: &[u8], off: usize) -> (r: i16)
    requires
        off + 2 <= buf@.len(),
    ensures
        r == le_i16(buf@, off as int),
{
    LittleEndian::read_i16(&buf[off..])
}

/// Calls `LittleEndian::read_i32` on the bytes of `buf` from `off` on; it reads the
/// first four of them as a two's-complement number, least significant first.
#[verifier::external_body]
pub(crate) fn read_i32_at(buf: &[u8], off: usize) -> (r: i32)
    requires
        off + 4 <= buf@.len(),
    ensures
        r == le_i32(buf@, off as int),
{
    LittleEndian::read_i32(&buf[off..])
}

/// The two bytes that hold `v`, least significant first.
pub open spec fn u16_bytes(v: u16) -> Seq<u8> {
    seq![(v % 0x100) as u8, (v / 0x100) as u8]
}

/// The four bytes that hold `v`, least significant first.
pub open spec fn u32_bytes(v: u32) -> Seq<u8> {
    seq![
        (v % 0x100) as u8,
        ((v / 0x100) % 0x100) as u8,
        ((v / 0x1_0000) % 0x100) as u8,
        (v / 0x100_0000) as u8,
    ]
}

/// The eight bytes that hold `v`, least significant first.
pub open spec fn u64_bytes(v: u64) -> Seq<u8> {
    u32_bytes((v % 0x1_0000_0000) as u32) + u32_bytes((v / 0x1_0000_0000) as u32)
}

/// Calls `LittleEndian::write_u16` on a fresh two-byte buffer, which it fills with
/// the bytes of `v`, least significant first.
#[verifier::external_body]
pub(crate) fn u16_le_bytes(v: u16) -> (r: [u8; 2])
    ensures
        r@ == u16_bytes(v),
{
    let mut bytes = [0u8; 2];
    LittleEndian::write_u16(&mut bytes, v);
    bytes
}

/// Calls `LittleEndian::write_i16` on a fresh two-byte buffer, which it fills with
/// the two's-complement bytes of `v`, least significant first.
#[verifier::external_body]
pub(crate) fn i16_le_bytes(v: i16) -> (r: [u8; 2])
    ensures
        r@ == u16_bytes(v as u16),
{
    let mut bytes = [0u8; 2];
    LittleEndian::write_i16(&mut bytes, v);
    bytes
}

/// Calls `LittleEndian::write_u32` on a fresh four-byte buffer, which it fills with
/// the bytes of `v`, least significant first.
#[verifier::external_body]
pub(crate) fn u32_le_bytes(v: u32) -> (r: [u8; 4])
    ensures
        r@ == u32_bytes(v),
{
    let mut bytes = [0u8; 4];
    LittleEndian::write_u32(&mut bytes, v);
    bytes
}

/// Calls `LittleEndian::write_i32` on a fresh four-byte buffer, which it fills with
/// the two's-complement bytes of `v`, least significant first.
#[verifier::external_body]
pub(crate) fn i32_le_bytes(v: i32) -> (r: [u8; 4])
    ensures
        r@ == u32_bytes(v as u32),
{
    let mut bytes = [0u8; 4];
    LittleEndian::write_i32(&mut bytes, v);
    bytes
}

/// Calls `LittleEndian::write_u64` on a fresh eight-byte buffer, which it fills with
/// the bytes of `v`, least significant first.
#[verifier::external_body]
pub(crate) fn u64_le_bytes(v: u64) -> (r: [u8; 8])
    ensures
        r@ == u64_bytes(v),
{
    let mut bytes = [0u8; 8];
    LittleEndian::write_u64(&mut bytes, v);
    bytes
}

/// The `u16` at `off` when `buf` holds two bytes there.
pub fn get_u16(buf: &[u8], off: usize) -> (r: Option<u16>)
    ensures
        r == (if in_bounds(buf@, off as int, 2) { Some(le_u16(buf@, off as int)) } else { None }),
{
    if off <= buf.len() && buf.len() - off >= 2 {
        Some(read_u16_at(buf, off))
    } else {
        None
    }
}

/// The `u32` at `off` when `buf` holds four bytes there.
pub fn get_u32(buf: &[u8], off: usize) -> (r: Option<u32>)
    ensures
        r == (if in_bounds(buf@, off as int, 4) { Some(le_u32(buf@, off as int)) } else { None }),
{
    if off <= buf.len() && buf.len() - off >= 4 {
        Some(read_u32_at(buf, off))
    } else {
        None
    }
}

/// The `i32` at `off` when `buf` holds four bytes there.
pub fn get_i32(buf: &[u8], off: usize) -> (r: Option<i32>)
    ensures
        r == (if in_bounds(buf@, off as int, 4) { Some(le_i32(buf@, off as int)) } else { None }),
{
    if off <= buf.len() && buf.len() - off >= 4 {
        Some(read_i32_at(buf, off))
    } else {
        None
    }
}

/// The `u64` at `off` when `buf` holds eight bytes there.
pub fn get_u64(buf: &[u8], off: usize) -> (r: Option<u64>)
    ensures
        r == (if in_bounds(buf@, off as int, 8) { Some(le_u64(buf@, off as int)) } else { None }),
{
    if off <= buf.len() && buf.len() - off >= 8 {
        Some(read_u64_at(buf, off))
    } else {
        None
    }
}

/// Reading back the bytes of a `u32` gives the `u32`.
pub proof fn lemma_u32_bytes_roundtrip(v: u32)
    ensures
        le_u32(u32_bytes(v), 0) == v,
{
    let b = u32_bytes(v);
    assert(b[0] as int == v % 0x100);
    assert(b[1] as int == (v / 0x100) % 0x100);
    assert(b[2] as int == (v / 0x1_0000) % 0x100);
    assert(b[3] as int == v / 0x100_0000);
    assert((v % 0x100) + 0x100 * ((v / 0x100) % 0x100) + 0x1_0000 * ((v / 0x1_0000) % 0x100)
        + 0x100_0000 * (v / 0x100_0000) == v) by (nonlinear_arith);
}

/// Reading back the eight bytes of `v` gives `v`.
pub proof fn lemma_u64_bytes_roundtrip(v: u64)
    ensures
        le_u64(u64_bytes(v), 0) == v,
{
    let low = (v % 0x1_0000_0000) as u32;
    let high = (v / 0x1_0000_0000) as u32;
    let b = u64_bytes(v);
    lemma_u32_bytes_roundtrip(low);
    lemma_u32_bytes_roundtrip(high);
    assert(le_u32(b, 0) == le_u32(u32_bytes(low), 0));
    assert(le_u32(b, 4) == le_u32(u32_bytes(high), 0));
    assert(v % 0x1_0000_0000 + 0x1_0000_0000 * (v / 0x1_0000_0000) == v) by (nonlinear_arith);
}

/// Writing back the little-endian `u32` held at `off` gives the four bytes there.
pub proof fn lemma_le_u32_bytes(s: Seq<u8>, off: int)
    requires
        0 <= off,
        off + 4 <= s.len(),
    ensures
        u32_bytes(le_u32(s, off)) == s.subrange(off, off + 4),
{
    let b0 = s[off] as int;
    let b1 = s[off + 1] as int;
    let b2 = s[off + 2] as int;
    let b3 = s[off + 3] as int;
    let v = b0 + 0x100 * b1 + 0x1_0000 * b2 + 0x100_0000 * b3;
    assert(0 <= v < 0x1_0000_0000) by (nonlinear_arith)
        requires
            0 <= b0 < 256,
            0 <= b1 < 256,
            0 <= b2 < 256,
            0 <= b3 < 256,
            v == b0 + 0x100 * b1 + 0x1_0000 * b2 + 0x100_0000 * b3,
    ;
    assert(v % 0x100 == b0 && (v / 0x100) % 0x100 == b1 && (v / 0x1_0000) % 0x100 == b2 && v / 0x100_0000 == b3)
        by (nonlinear_arith)
        requires
            0 <= b0 < 256,
            0 <= b1 < 256,
            0 <= b2 < 256,
            0 <= b3 < 256,
            v == b0 + 0x100 * b1 + 0x1_0000 * b2 + 0x100_0000 * b3,
    ;
    assert(le_u32(s, off) as int == v);
    assert(u32_bytes(le_u32(s, off)) =~= s.subrange(off, off + 4));
}

/// Writing back the little-endian `u64` held at `off` gives the eight bytes there.
pub proof fn lemma_le_u64_bytes(s: Seq<u8>, off: int)
    requires
        0 <= off,
        off + 8 <= s.len(),
    ensures
        u64_bytes(le_u64(s, off)) == s.subrange(off, off + 8),
{
    let low = le_u32(s, off);
    let high = le_u32(s, off + 4);
    let v = le_u64(s, off);
    assert(v as int == low + 0x1_0000_0000 * high);
    assert(v % 0x1_0000_0000 == low && v / 0x1_0000_0000 == high) by (nonlinear_arith)
        requires
            v as int == low + 0x1_0000_0000 * high,
            0 <= low < 0x1_0000_0000,
    ;
    lemma_le_u32_bytes(s, off);
    lemma_le_u32_bytes(s, off + 4);
    assert(u64_bytes(v) =~= s.subrange(off, off + 8));
}

} // verus!
