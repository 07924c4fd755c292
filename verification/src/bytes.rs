//! Fixed-width integers in byte strings, and overwriting part of a byte string.

use vstd::prelude::*;

verus! {

/// The byte string `s` with `b` laid over it from position `at` on.
pub open spec fn overlay(s: Seq<u8>, at: int, b: Seq<u8>) -> Seq<u8> {
    Seq::new(
        s.len(),
        |i: int|
            if at <= i < at + b.len() {
                b[i - at]
            } else {
                s[i]
            },
    )
}

/// `v` in four bytes, least significant first.
pub open spec fn le32(v: u32) -> Seq<u8> {
    seq![
        (v % 256) as u8,
        (v / 256 % 256) as u8,
        (v / 65536 % 256) as u8,
        (v / 16777216) as u8,
    ]
}

/// `v` in eight bytes, least significant first.
pub open spec fn le64(v: u64) -> Seq<u8> {
    le32((v % 0x1_0000_0000) as u32) + le32((v / 0x1_0000_0000) as u32)
}

/// The number that the four bytes of `s` from `at` on hold, least significant first.
pub open spec fn le32_at(s: Seq<u8>, at: int) -> u32 {
    (s[at] + 256 * s[at + 1] + 65536 * s[at + 2] + 16777216 * s[at + 3]) as u32
}

/// The number that the eight bytes of `s` from `at` on hold, least significant first.
pub open spec fn le64_at(s: Seq<u8>, at: int) -> u64 {
    (le32_at(s, at) + 0x1_0000_0000 * le32_at(s, at + 4)) as u64
}

/// `v` in four bytes, most significant first.
pub open spec fn be32(v: u32) -> Seq<u8> {
    seq![
        (v / 16777216) as u8,
        (v / 65536 % 256) as u8,
        (v / 256 % 256) as u8,
        (v % 256) as u8,
    ]
}

/// `v` in two bytes, most significant first.
pub open spec fn be16(v: u16) -> Seq<u8> {
    seq![(v / 256) as u8, (v % 256) as u8]
}

/// The number that the four bytes of `s` from `at` on hold, most significant first.
pub open spec fn be32_at(s: Seq<u8>, at: int) -> u32 {
    (16777216 * s[at] + 65536 * s[at + 1] + 256 * s[at + 2] + s[at + 3]) as u32
}

/// Reading four bytes just written gives back the number, in either byte order.
pub proof fn word_roundtrip(v: u32)
    ensures
        le32_at(le32(v), 0) == v,
        be32_at(be32(v), 0) == v,
{
}

/// Reading eight bytes just written gives back the number.
pub proof fn long_roundtrip(v: u64)
    ensures
        le64_at(le64(v), 0) == v,
{
    word_roundtrip((v % 0x1_0000_0000) as u32);
    word_roundtrip((v / 0x1_0000_0000) as u32);
    assert(le32_at(le64(v), 0) == le32_at(le32((v % 0x1_0000_0000) as u32), 0));
    assert(le32_at(le64(v), 4) == le32_at(le32((v / 0x1_0000_0000) as u32), 0));
}

/// Reads four bytes at `at`, least significant first.
pub fn get_le32(s: &[u8], at: usize) -> (v: u32)
    requires
        at + 4 <= s@.len(),
    ensures
        v == le32_at(s@, at as int),
{
    s[at] as u32 + 256 * (s[at + 1] as u32) + 65536 * (s[at + 2] as u32) + 16777216 * (s[at
        + 3] as u32)
}

/// Reads eight bytes at `at`, least significant first.
pub fn get_le64(s: &[u8], at: usize) -> (v: u64)
    requires
        at + 8 <= s@.len(),
    ensures
        v == le64_at(s@, at as int),
{
    assert(at + 8 <= s.len());
    get_le32(s, at) as u64 + 0x1_0000_0000 * (get_le32(s, at + 4) as u64)
}

/// Lays `b` over `mem` from `at` on.
pub fn put(mem: &mut [u8], at: usize, b: &[u8])
    requires
        at + b@.len() <= old(mem)@.len(),
    ensures
        final(mem)@ == overlay(old(mem)@, at as int, b@),
{
    let n: usize = b.len();
    let mut i: usize = 0;
    while i < n
        invariant
            n == b@.len(),
            i <= n,
            at + n <= mem.len(),
            mem@.len() == old(mem)@.len(),
            mem@ =~= overlay(old(mem)@, at as int, b@.subrange(0, i as int)),
        decreases n - i,
    {
        mem[at + i] = b[i];
        i += 1;
    }
    assert(b@.subrange(0, n as int) =~= b@);
}

/// Writes `v` at `at`, least significant byte first.
pub fn put_le32(mem: &mut [u8], at: usize, v: u32)
    requires
        at + 4 <= old(mem)@.len(),
    ensures
        final(mem)@ == overlay(old(mem)@, at as int, le32(v)),
{
    mem[at] = (v % 256) as u8;
    mem[at + 1] = (v / 256 % 256) as u8;
    mem[at + 2] = (v / 65536 % 256) as u8;
    mem[at + 3] = (v / 16777216) as u8;
}

/// Writes `v` at `at` in eight bytes, least significant first.
pub fn put_le64(mem: &mut [u8], at: usize, v: u64)
    requires
        at + 8 <= old(mem)@.len(),
    ensures
        final(mem)@ == overlay(old(mem)@, at as int, le64(v)),
{
    assert(at + 8 <= mem.len());
    put_le32(mem, at, (v % 0x1_0000_0000) as u32);
    put_le32(mem, at + 4, (v / 0x1_0000_0000) as u32);
}

/// Appends `v` to `out`, most significant byte first.
pub fn push_be32(out: &mut Vec<u8>, v: u32)
    ensures
        final(out)@ == old(out)@ + be32(v),
{
    out.push((v / 16777216) as u8);
    out.push((v / 65536 % 256) as u8);
    out.push((v / 256 % 256) as u8);
    out.push((v % 256) as u8);
}

/// Appends `v` to `out`, most significant byte first.
pub fn push_be16(out: &mut Vec<u8>, v: u16)
    ensures
        final(out)@ == old(out)@ + be16(v),
{
    out.push((v / 256) as u8);
    out.push((v % 256) as u8);
}

/// Appends all of `b` to `out`.
pub fn push_all(out: &mut Vec<u8>, b: &[u8])
    ensures
        final(out)@ == old(out)@ + b@,
{
    let ghost before = out@;
    out.extend_from_slice(b);
    assert(out@ =~= before + b@);
}

/// The low 32 bits of a length.
pub open spec fn low32(n: int) -> u32 {
    (n % 0x1_0000_0000) as u32
}

/// The low 16 bits of a length.
pub open spec fn low16(n: int) -> u16 {
    (n % 0x1_0000) as u16
}

/// The low 32 bits of a length.
pub fn to_u32(n: usize) -> (r: u32)
    ensures
        r == low32(n as int),
{
    (n as u64 % 0x1_0000_0000) as u32
}

/// The low 16 bits of a length.
pub fn to_u16(n: usize) -> (r: u16)
    ensures
        r == low16(n as int),
{
    (n % 0x1_0000) as u16
}

/// Numbers are written byte by byte, least or most significant first, and nothing of
/// them is lost.
pub proof fn numbers_are_their_bytes(v: u32, n: u64, k: u16)
    ensures
        ({
            let a = le32(v);
            let b = be32(v);
            let c = le64(n);
            let d = be16(k);
            &&& a.len() == 4 && b.len() == 4 && c.len() == 8 && d.len() == 2
            &&& v == a[0] + 0x100 * a[1] + 0x1_0000 * a[2] + 0x100_0000 * a[3]
            &&& v == b[3] + 0x100 * b[2] + 0x1_0000 * b[1] + 0x100_0000 * b[0]
            &&& n == c[0] + 0x100 * c[1] + 0x1_0000 * c[2] + 0x100_0000 * c[3] + 0x1_0000_0000 * (
            c[4] + 0x100 * c[5] + 0x1_0000 * c[6] + 0x100_0000 * c[7])
            &&& k == d[1] + 0x100 * d[0]
        }),
{
    let low = (n % 0x1_0000_0000) as u32;
    let high = (n / 0x1_0000_0000) as u32;
    assert(le64(n).subrange(0, 4) =~= le32(low));
    assert(le64(n).subrange(4, 8) =~= le32(high));
}

/// Numbers are read byte by byte, least or most significant first.
pub proof fn bytes_are_their_number(s: Seq<u8>, at: int)
    ensures
        le32_at(s, at) == s[at] + 0x100 * s[at + 1] + 0x1_0000 * s[at + 2] + 0x100_0000 * s[at + 3],
        be32_at(s, at) == s[at + 3] + 0x100 * s[at + 2] + 0x1_0000 * s[at + 1] + 0x100_0000 * s[at],
        le64_at(s, at) == s[at] + 0x100 * s[at + 1] + 0x1_0000 * s[at + 2] + 0x100_0000 * s[at + 3]
            + 0x1_0000_0000 * (s[at + 4] + 0x100 * s[at + 5] + 0x1_0000 * s[at + 6] + 0x100_0000 * s[at
            + 7]),
{
}

} // verus!
