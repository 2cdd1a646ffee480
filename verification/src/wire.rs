//! Big-endian integers in byte buffers.

use byteorder::{BigEndian, ByteOrder};
use vstd::prelude::*;

verus! {

/// The value of two bytes in network order.
pub open spec fn be16(hi: u8, lo: u8) -> int {
    hi * 256 + lo
}

/// The value of the two bytes of `s` that start at `at`.
pub open spec fn be16_at(s: Seq<u8>, at: int) -> int {
    be16(s[at], s[at + 1])
}

/// The value of the four bytes of `s` that start at `at`.
pub open spec fn be32_at(s: Seq<u8>, at: int) -> int {
    be16_at(s, at) * 65536 + be16_at(s, at + 2)
}

/// The two bytes of a 16-bit number, high byte first.
pub open spec fn be16_bytes(v: int) -> Seq<u8> {
    seq![(v / 256) as u8, (v % 256) as u8]
}

/// The four bytes of a 32-bit number, high byte first.
pub open spec fn be32_bytes(v: int) -> Seq<u8> {
    be16_bytes(v / 65536) + be16_bytes(v % 65536)
}

/// `byteorder`'s `BigEndian::read_u16`: the value of the first two bytes in network order.
/// It panics on a shorter buffer.
#[verifier::external_body]
fn big_endian_read_u16(buf: &[u8]) -> (v: u16)
    requires
        buf@.len() >= 2,
    ensures
        v == be16_at(buf@, 0),
{
    BigEndian::read_u16(buf)
}

/// `byteorder`'s `BigEndian::read_u32`: the value of the first four bytes in network order.
/// It panics on a shorter buffer.
#[verifier::external_body]
fn big_endian_read_u32(buf: &[u8]) -> (v: u32)
    requires
        buf@.len() >= 4,
    ensures
        v == be32_at(buf@, 0),
{
    BigEndian::read_u32(buf)
}

/// `byteorder`'s `BigEndian::write_u16`: stores the number's two bytes in network order.
#[verifier::external_body]
fn big_endian_write_u16(v: u16) -> (buf: [u8; 2])
    ensures
        buf@ == be16_bytes(v as int),
{
    let mut buf = [0u8; 2];
    BigEndian::write_u16(&mut buf, v);
    buf
}

/// Reads the 16-bit number at `at`.
pub fn read_u16(packet: &[u8], at: usize) -> (v: u16)
    requires
        at + 2 <= packet.len(),
    ensures
        v == be16_at(packet@, at as int),
{
    big_endian_read_u16(vstd::slice::slice_subrange(packet, at, at + 2))
}

/// Reads the 32-bit number at `at`.
pub fn read_u32(packet: &[u8], at: usize) -> (v: u32)
    requires
        at + 4 <= packet.len(),
    ensures
        v == be32_at(packet@, at as int),
{
    big_endian_read_u32(vstd::slice::slice_subrange(packet, at, at + 4))
}

/// Appends a 16-bit number.
pub fn push_u16(out: &mut Vec<u8>, v: u16)
    ensures
        final(out)@ == old(out)@ + be16_bytes(v as int),
{
    let bytes = big_endian_write_u16(v);
    out.push(bytes[0]);
    out.push(bytes[1]);
    assert(out@ =~= old(out)@ + be16_bytes(v as int));
}

/// Appends a 32-bit number.
pub fn push_u32(out: &mut Vec<u8>, v: u32)
    ensures
        final(out)@ == old(out)@ + be32_bytes(v as int),
{
    push_u16(out, (v / 65536) as u16);
    push_u16(out, (v % 65536) as u16);
    assert(out@ =~= old(out)@ + be32_bytes(v as int));
}

/// Appends a byte slice.
pub fn push_all(out: &mut Vec<u8>, bytes: &[u8])
    ensures
        final(out)@ == old(out)@ + bytes@,
{
    let mut i: usize = 0;
    while i < bytes.len()
        invariant
            i <= bytes@.len(),
            out@ == old(out)@ + bytes@.take(i as int),
        decreases bytes@.len() - i,
    {
        out.push(bytes[i]);
        assert(bytes@.take(i + 1) =~= bytes@.take(i as int).push(bytes@[i as int]));
        i = i + 1;
    }
    assert(bytes@.take(i as int) =~= bytes@);
}

/// Copies the bytes of `packet` from `from` up to `to`.
pub fn copy_range(packet: &[u8], from: usize, to: usize) -> (bytes: Vec<u8>)
    requires
        from <= to <= packet@.len(),
    ensures
        bytes@ == packet@.subrange(from as int, to as int),
{
    vstd::slice::slice_to_vec(vstd::slice::slice_subrange(packet, from, to))
}

/// Whether two byte slices hold the same bytes.
pub fn bytes_equal(a: &[u8], b: &[u8]) -> (same: bool)
    ensures
        same == (a@ == b@),
{
    if a.len() != b.len() {
        return false;
    }
    let mut i: usize = 0;
    while i < a.len()
        invariant
            i <= a@.len() == b@.len(),
            forall|j: int| 0 <= j < i ==> a@[j] == b@[j],
        decreases a@.len() - i,
    {
        if a[i] != b[i] {
            return false;
        }
        i = i + 1;
    }
    assert(a@ =~= b@);
    true
}

/// Reading back the two bytes of a number gives the number.
pub proof fn law_be16_round_trip(v: int)
    requires
        0 <= v < 65536,
    ensures
        be16_at(be16_bytes(v), 0) == v,
{
}

/// Reading back the four bytes of a number gives the number.
pub proof fn law_be32_round_trip(v: int)
    requires
        0 <= v < 4294967296,
    ensures
        be32_at(be32_bytes(v), 0) == v,
{
    let hi = v / 65536;
    let lo = v % 65536;
    assert(be32_bytes(v)[0] == be16_bytes(hi)[0]);
    assert(be32_bytes(v)[2] == be16_bytes(lo)[0]);
}

/// Numbers stand in network order: the byte that counts most comes first.
pub proof fn law_network_order(a: u8, b: u8, c: u8, d: u8)
    ensures
        be16_at(seq![a, b], 0) == 256 * a + b,
        be32_at(seq![a, b, c, d], 0) == 16777216 * a + 65536 * b + 256 * c + d,
        be16_bytes(256 * a + b) == seq![a, b],
        be32_bytes(16777216 * a + 65536 * b + 256 * c + d) == seq![a, b, c, d],
{
    let v = 16777216 * a + 65536 * b + 256 * c + d;
    assert(v / 65536 == 256 * a + b && v % 65536 == 256 * c + d);
    assert((256 * a + b) / 256 == a && (256 * a + b) % 256 == b);
    assert((256 * c + d) / 256 == c && (256 * c + d) % 256 == d);
    assert(be16_bytes(256 * a + b) =~= seq![a, b]);
    assert(be32_bytes(v) =~= seq![a, b, c, d]);
}

} // verus!
