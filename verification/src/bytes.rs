//! Network byte order, and byte-string helpers.

use vstd::prelude::*;

verus! {

/// The two bytes of `x`, most significant first.
pub open spec fn be16(x: u16) -> Seq<u8> {
    seq![(x >> 8) as u8, x as u8]
}

/// The four bytes of `x`, most significant first.
pub open spec fn be32(x: u32) -> Seq<u8> {
    seq![(x >> 24) as u8, (x >> 16) as u8, (x >> 8) as u8, x as u8]
}

/// The eight bytes of `x`, most significant first.
pub open spec fn be64(x: u64) -> Seq<u8> {
    seq![
        (x >> 56) as u8,
        (x >> 48) as u8,
        (x >> 40) as u8,
        (x >> 32) as u8,
        (x >> 24) as u8,
        (x >> 16) as u8,
        (x >> 8) as u8,
        x as u8,
    ]
}

/// The number whose bytes, most significant first, are the two at `at`.
pub open spec fn u16_at(s: Seq<u8>, at: int) -> u16 {
    ((s[at] as u16) << 8) | (s[at + 1] as u16)
}

/// The number whose bytes, most significant first, are the four at `at`.
pub open spec fn u32_at(s: Seq<u8>, at: int) -> u32 {
    ((s[at] as u32) << 24) | ((s[at + 1] as u32) << 16) | ((s[at + 2] as u32) << 8) | (s[at + 3] as u32)
}

/// The number whose bytes, most significant first, are the eight at `at`.
pub open spec fn u64_at(s: Seq<u8>, at: int) -> u64 {
    ((s[at] as u64) << 56) | ((s[at + 1] as u64) << 48) | ((s[at + 2] as u64) << 40) | ((s[at + 3]
        as u64) << 32) | ((s[at + 4] as u64) << 24) | ((s[at + 5] as u64) << 16) | ((s[at + 6]
        as u64) << 8) | (s[at + 7] as u64)
}

/// Law: reading a 16-bit number gives back what was written.
pub proof fn be16_roundtrip(x: u16)
    ensures
        be16(x).len() == 2,
        u16_at(be16(x), 0) == x,
{
    assert(((((x >> 8) as u8) as u16) << 8) | ((x as u8) as u16) == x) by (bit_vector);
}

/// Law: reading a 32-bit number gives back what was written.
pub proof fn be32_roundtrip(x: u32)
    ensures
        be32(x).len() == 4,
        u32_at(be32(x), 0) == x,
{
    assert(((((x >> 24) as u8) as u32) << 24) | ((((x >> 16) as u8) as u32) << 16) | ((((x >> 8)
        as u8) as u32) << 8) | ((x as u8) as u32) == x) by (bit_vector);
}

/// Law: reading a 64-bit number gives back what was written.
pub proof fn be64_roundtrip(x: u64)
    ensures
        be64(x).len() == 8,
        u64_at(be64(x), 0) == x,
{
    assert(((((x >> 56) as u8) as u64) << 56) | ((((x >> 48) as u8) as u64) << 48) | ((((x >> 40)
        as u8) as u64) << 40) | ((((x >> 32) as u8) as u64) << 32) | ((((x >> 24) as u8) as u64)
        << 24) | ((((x >> 16) as u8) as u64) << 16) | ((((x >> 8) as u8) as u64) << 8) | ((x as u8)
        as u64) == x) by (bit_vector);
}

/// Writes a 16-bit number in network byte order.
pub fn u16_to_be(x: u16) -> (r: [u8; 2])
    ensures
        r@ == be16(x),
{
    let r: [u8; 2] = [(x >> 8) as u8, x as u8];
    assert(r@ =~= be16(x));
    r
}

/// Writes a 32-bit number in network byte order.
pub fn u32_to_be(x: u32) -> (r: [u8; 4])
    ensures
        r@ == be32(x),
{
    let r: [u8; 4] = [(x >> 24) as u8, (x >> 16) as u8, (x >> 8) as u8, x as u8];
    assert(r@ =~= be32(x));
    r
}

/// Writes a 64-bit number in network byte order.
pub fn u64_to_be(x: u64) -> (r: [u8; 8])
    ensures
        r@ == be64(x),
{
    let r: [u8; 8] = [
        (x >> 56) as u8,
        (x >> 48) as u8,
        (x >> 40) as u8,
        (x >> 32) as u8,
        (x >> 24) as u8,
        (x >> 16) as u8,
        (x >> 8) as u8,
        x as u8,
    ];
    assert(r@ =~= be64(x));
    r
}

/// Reads a 16-bit number in network byte order.
pub fn read_u16(s: &[u8], at: usize) -> (r: u16)
    requires
        at + 2 <= s@.len(),
    ensures
        r == u16_at(s@, at as int),
{
    ((s[at] as u16) << 8) | (s[at + 1] as u16)
}

/// Reads a 32-bit number in network byte order.
pub fn read_u32(s: &[u8], at: usize) -> (r: u32)
    requires
        at + 4 <= s@.len(),
    ensures
        r == u32_at(s@, at as int),
{
    ((s[at] as u32) << 24) | ((s[at + 1] as u32) << 16) | ((s[at + 2] as u32) << 8) | (s[at + 3]
        as u32)
}

/// Reads a 64-bit number in network byte order.
pub fn read_u64(s: &[u8], at: usize) -> (r: u64)
    requires
        at + 8 <= s@.len(),
    ensures
        r == u64_at(s@, at as int),
{
    ((s[at] as u64) << 56) | ((s[at + 1] as u64) << 48) | ((s[at + 2] as u64) << 40) | ((s[at + 3]
        as u64) << 32) | ((s[at + 4] as u64) << 24) | ((s[at + 5] as u64) << 16) | ((s[at + 6]
        as u64) << 8) | (s[at + 7] as u64)
}

/// The low 8 bits of a length.
pub open spec fn low8(n: int) -> u8 {
    (n % 0x100) as u8
}

/// The low 16 bits of a length.
pub open spec fn low16(n: int) -> u16 {
    (n % 0x1_0000) as u16
}

/// The low 32 bits of a length.
pub open spec fn low32(n: int) -> u32 {
    (n % 0x1_0000_0000) as u32
}

/// The low 64 bits of a count.
pub open spec fn low64(n: int) -> u64 {
    (n % 0x1_0000_0000_0000_0000) as u64
}

/// The low 8 bits of a length.
pub fn low8_of(n: usize) -> (r: u8)
    ensures
        r == low8(n as int),
{
    (n % 0x100) as u8
}

/// The low 16 bits of a sum of two lengths.
pub fn low16_of_sum(a: usize, b: usize) -> (r: u16)
    ensures
        r == low16(a + b),
{
    ((a as u64 % 0x1_0000 + b as u64 % 0x1_0000) % 0x1_0000) as u16
}

/// The low 32 bits of a sum of two lengths.
pub fn low32_of_sum(a: usize, b: usize) -> (r: u32)
    ensures
        r == low32(a + b),
{
    ((a as u64 % 0x1_0000_0000 + b as u64 % 0x1_0000_0000) % 0x1_0000_0000) as u32
}

/// Appends `tail` to `out`.
pub fn append(out: &mut Vec<u8>, tail: &[u8])
    ensures
        final(out)@ == old(out)@ + tail@,
{
    let ghost before = out@;
    out.extend_from_slice(tail);
    assert(out@ =~= before + tail@);
}

/// Whether two byte strings are the same.
pub fn same_bytes(a: &[u8], b: &[u8]) -> (r: bool)
    ensures
        r == (a@ == b@),
{
    if a.len() != b.len() {
        return false;
    }
    let n: usize = a.len();
    for i in 0..n
        invariant
            n == a@.len(),
            n == b@.len(),
            forall|j: int| 0 <= j < i ==> a@[j] == b@[j],
    {
        if a[i] != b[i] {
            return false;
        }
    }
    assert(a@ =~= b@);
    true
}

/// Law: numbers are written in network order: the first byte has the highest
/// weight, the last one weight 1.
pub proof fn written_in_network_order(x: u16, y: u32, z: u64)
    ensures
        be16(x).len() == 2,
        be16(x)[0] * 0x100 + be16(x)[1] == x,
        be32(y).len() == 4,
        be32(y)[0] * 0x100_0000 + be32(y)[1] * 0x1_0000 + be32(y)[2] * 0x100 + be32(y)[3] == y,
        be64(z).len() == 8,
        be64(z)[0] * 0x100_0000_0000_0000 + be64(z)[1] * 0x1_0000_0000_0000 + be64(z)[2] * 0x100_0000_0000 + be64(z)[3]
            * 0x1_0000_0000 + be64(z)[4] * 0x100_0000 + be64(z)[5] * 0x1_0000 + be64(z)[6] * 0x100 + be64(z)[7] == z,
{
    be16_roundtrip(x);
    be32_roundtrip(y);
    be64_roundtrip(z);
    read_in_network_order(be16(x), 0);
    read_in_network_order(be32(y), 0);
    read_in_network_order(be64(z), 0);
}

/// Law: numbers are read in network order, from the bytes at the given place.
pub proof fn read_in_network_order(s: Seq<u8>, at: int)
    ensures
        u16_at(s, at) == s[at] * 0x100 + s[at + 1],
        u32_at(s, at) == s[at] * 0x100_0000 + s[at + 1] * 0x1_0000 + s[at + 2] * 0x100 + s[at + 3],
        u64_at(s, at) == s[at] * 0x100_0000_0000_0000 + s[at + 1] * 0x1_0000_0000_0000 + s[at + 2] * 0x100_0000_0000
            + s[at + 3] * 0x1_0000_0000 + s[at + 4] * 0x100_0000 + s[at + 5] * 0x1_0000 + s[at + 6] * 0x100 + s[at + 7],
{
    let (a, b, c, d) = (s[at], s[at + 1], s[at + 2], s[at + 3]);
    let (e, f, g, h) = (s[at + 4], s[at + 5], s[at + 6], s[at + 7]);
    assert(((a as u16) << 8) | (b as u16) == a * 0x100 + b) by (bit_vector);
    assert(((a as u32) << 24) | ((b as u32) << 16) | ((c as u32) << 8) | (d as u32) == a * 0x100_0000 + b * 0x1_0000
        + c * 0x100 + d) by (bit_vector);
    assert(((a as u64) << 56) | ((b as u64) << 48) | ((c as u64) << 40) | ((d as u64) << 32) | ((e as u64) << 24) | ((
    f as u64) << 16) | ((g as u64) << 8) | (h as u64) == a * 0x100_0000_0000_0000 + b * 0x1_0000_0000_0000 + c
        * 0x100_0000_0000 + d * 0x1_0000_0000 + e * 0x100_0000 + f * 0x1_0000 + g * 0x100 + h) by (bit_vector);
}

/// Law: a field that keeps the low bits of a count differs from the count by a
/// multiple of the field's range, and holds every count that fits as it is.
pub proof fn low_bits_are_remainders(n: int)
    ensures
        (n - low8(n)) % 0x100 == 0,
        (n - low16(n)) % 0x1_0000 == 0,
        (n - low32(n)) % 0x1_0000_0000 == 0,
        (n - low64(n)) % 0x1_0000_0000_0000_0000 == 0,
        0 <= n <= 0xff ==> low8(n) == n,
        0 <= n <= 0xffff ==> low16(n) == n,
        0 <= n <= 0xffff_ffff ==> low32(n) == n,
        0 <= n <= 0xffff_ffff_ffff_ffff ==> low64(n) == n,
{
}

} // verus!
