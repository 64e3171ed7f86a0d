//! Big-endian integer fields inside byte buffers.

use vstd::prelude::*;

verus! {

broadcast use vstd::slice::group_slice_axioms;

/// The two bytes of `x`, most significant first.
pub open spec fn spec_be_u16(x: u16) -> Seq<u8> {
    seq![(x / 0x100) as u8, (x % 0x100) as u8]
}

/// The four bytes of `x`, most significant first.
pub open spec fn spec_be_u32(x: u32) -> Seq<u8> {
    seq![
        (x / 0x100_0000) as u8,
        ((x / 0x1_0000) % 0x100) as u8,
        ((x / 0x100) % 0x100) as u8,
        (x % 0x100) as u8,
    ]
}

/// The eight bytes of `x`, most significant first.
pub open spec fn spec_be_u64(x: u64) -> Seq<u8> {
    spec_be_u32((x / 0x1_0000_0000) as u32) + spec_be_u32((x % 0x1_0000_0000) as u32)
}

/// The number whose big-endian bytes are the first two of `s`.
pub open spec fn spec_from_be_u16(s: Seq<u8>) -> u16
    recommends
        s.len() >= 2,
{
    (s[0] as int * 0x100 + s[1] as int) as u16
}

/// The number whose big-endian bytes are the first four of `s`.
pub open spec fn spec_from_be_u32(s: Seq<u8>) -> u32
    recommends
        s.len() >= 4,
{
    (s[0] as int * 0x100_0000 + s[1] as int * 0x1_0000 + s[2] as int * 0x100 + s[3] as int) as u32
}

/// The number whose big-endian bytes are the first eight of `s`.
pub open spec fn spec_from_be_u64(s: Seq<u8>) -> u64
    recommends
        s.len() >= 8,
{
    (spec_from_be_u32(s.subrange(0, 4)) as int * 0x1_0000_0000 + spec_from_be_u32(
        s.subrange(4, 8),
    ) as int) as u64
}

/// Decoding undoes encoding, for each width.
pub proof fn lemma_be_roundtrip(a: u16, b: u32, c: u64)
    ensures
        spec_be_u16(a).len() == 2,
        spec_be_u32(b).len() == 4,
        spec_be_u64(c).len() == 8,
        spec_from_be_u16(spec_be_u16(a)) == a,
        spec_from_be_u32(spec_be_u32(b)) == b,
        spec_from_be_u64(spec_be_u64(c)) == c,
{
    let hi = (c / 0x1_0000_0000) as u32;
    let lo = (c % 0x1_0000_0000) as u32;
    let s = spec_be_u64(c);
    assert(s.subrange(0, 4) =~= spec_be_u32(hi));
    assert(s.subrange(4, 8) =~= spec_be_u32(lo));
    assert(spec_from_be_u32(spec_be_u32(hi)) == hi);
    assert(spec_from_be_u32(spec_be_u32(lo)) == lo);
}

/// Encoding is one-to-one: equal bytes come from equal numbers.
pub proof fn lemma_be_injective(a: u32, b: u32)
    requires
        spec_be_u32(a) == spec_be_u32(b),
    ensures
        a == b,
{
    lemma_be_roundtrip(0, a, 0);
    lemma_be_roundtrip(0, b, 0);
}

/// Reads a big-endian `u16` at `at`.
pub fn get_be_u16(buf: &[u8], at: usize) -> (x: u16)
    requires
        at + 2 <= buf@.len(),
    ensures
        x == spec_from_be_u16(buf@.subrange(at as int, at + 2)),
{
    let hi: u16 = buf[at] as u16;
    let lo: u16 = buf[at + 1] as u16;
    hi * 0x100 + lo
}

/// Reads a big-endian `u32` at `at`.
pub fn get_be_u32(buf: &[u8], at: usize) -> (x: u32)
    requires
        at + 4 <= buf@.len(),
    ensures
        x == spec_from_be_u32(buf@.subrange(at as int, at + 4)),
{
    let b0: u32 = buf[at] as u32;
    let b1: u32 = buf[at + 1] as u32;
    let b2: u32 = buf[at + 2] as u32;
    let b3: u32 = buf[at + 3] as u32;
    b0 * 0x100_0000 + b1 * 0x1_0000 + b2 * 0x100 + b3
}

/// Reads a big-endian `u64` at `at`.
pub fn get_be_u64(buf: &[u8], at: usize) -> (x: u64)
    requires
        at + 8 <= buf@.len(),
    ensures
        x == spec_from_be_u64(buf@.subrange(at as int, at + 8)),
{
    assert(buf@.len() == buf.len());
    let hi: u64 = get_be_u32(buf, at) as u64;
    let lo: u64 = get_be_u32(buf, at + 4) as u64;
    proof {
        let s = buf@.subrange(at as int, at + 8);
        assert(s.subrange(0, 4) =~= buf@.subrange(at as int, at + 4));
        assert(s.subrange(4, 8) =~= buf@.subrange(at + 4, at + 8));
    }
    hi * 0x1_0000_0000 + lo
}

/// What `buf` holds once `field` has been written over it at `at`.
pub open spec fn spec_overwrite(buf: Seq<u8>, at: int, field: Seq<u8>) -> Seq<u8>
    recommends
        0 <= at,
        at + field.len() <= buf.len(),
{
    buf.subrange(0, at) + field + buf.subrange(at + field.len(), buf.len() as int)
}

/// Writes `x` big-endian at `at`, leaving every other byte as it was.
pub fn put_be_u16(buf: &mut [u8], at: usize, x: u16)
    requires
        at + 2 <= old(buf)@.len(),
    ensures
        final(buf)@ == spec_overwrite(old(buf)@, at as int, spec_be_u16(x)),
{
    buf[at] = (x / 0x100) as u8;
    buf[at + 1] = (x % 0x100) as u8;
    assert(buf@ =~= spec_overwrite(old(buf)@, at as int, spec_be_u16(x)));
}

/// Writes `x` big-endian at `at`, leaving every other byte as it was.
pub fn put_be_u32(buf: &mut [u8], at: usize, x: u32)
    requires
        at + 4 <= old(buf)@.len(),
    ensures
        final(buf)@ == spec_overwrite(old(buf)@, at as int, spec_be_u32(x)),
{
    buf[at] = (x / 0x100_0000) as u8;
    buf[at + 1] = ((x / 0x1_0000) % 0x100) as u8;
    buf[at + 2] = ((x / 0x100) % 0x100) as u8;
    buf[at + 3] = (x % 0x100) as u8;
    assert(buf@ =~= spec_overwrite(old(buf)@, at as int, spec_be_u32(x)));
}

/// Writes `x` big-endian at `at`, leaving every other byte as it was.
pub fn put_be_u64(buf: &mut [u8], at: usize, x: u64)
    requires
        at + 8 <= old(buf)@.len(),
    ensures
        final(buf)@ == spec_overwrite(old(buf)@, at as int, spec_be_u64(x)),
{
    assert(buf@.len() == buf.len());
    put_be_u32(buf, at, (x / 0x1_0000_0000) as u32);
    put_be_u32(buf, at + 4, (x % 0x1_0000_0000) as u32);
    assert(buf@ =~= spec_overwrite(old(buf)@, at as int, spec_be_u64(x)));
}

/// Copies `src` over `buf` at `at`, leaving every other byte as it was.
pub fn put_bytes(buf: &mut [u8], at: usize, src: &[u8])
    requires
        at + src@.len() <= old(buf)@.len(),
    ensures
        final(buf)@ == spec_overwrite(old(buf)@, at as int, src@),
{
    let n: usize = src.len();
    let mut i: usize = 0;
    assert(buf@.len() == buf.len());
    while i < n
        invariant
            n == src@.len(),
            buf@.len() <= usize::MAX,
            i <= n,
            at + n <= buf@.len(),
            buf@.len() == old(buf)@.len(),
            buf@ == spec_overwrite(old(buf)@, at as int, src@.subrange(0, i as int)),
        decreases n - i,
    {
        buf[at + i] = src[i];
        i = i + 1;
        assert(buf@ =~= spec_overwrite(old(buf)@, at as int, src@.subrange(0, i as int)));
    }
    assert(src@.subrange(0, n as int) =~= src@);
}

/// Whether two byte strings are the same.
pub fn bytes_eq(a: &[u8], b: &[u8]) -> (same: bool)
    ensures
        same == (a@ == b@),
{
    if a.len() != b.len() {
        return false;
    }
    let n: usize = a.len();
    let mut i: usize = 0;
    while i < n
        invariant
            n == a@.len(),
            n == b@.len(),
            i <= n,
            a@.subrange(0, i as int) == b@.subrange(0, i as int),
        decreases n - i,
    {
        if a[i] != b[i] {
            return false;
        }
        i = i + 1;
        assert(a@.subrange(0, i as int) =~= a@.subrange(0, i - 1).push(a@[i - 1]));
        assert(b@.subrange(0, i as int) =~= b@.subrange(0, i - 1).push(b@[i - 1]));
    }
    assert(a@ =~= a@.subrange(0, n as int));
    assert(b@ =~= b@.subrange(0, n as int));
    true
}

} // verus!
