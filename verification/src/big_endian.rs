//! Big-endian integers inside byte sequences.

use vstd::prelude::*;

verus! {

/// The unsigned 32-bit number that starts at `at`.
pub open spec fn be32(s: Seq<u8>, at: int) -> nat {
    (s[at] * 0x100_0000 + s[at + 1] * 0x1_0000 + s[at + 2] * 0x100 + s[at + 3]) as nat
}

/// The unsigned 64-bit number that starts at `at`.
pub open spec fn be64(s: Seq<u8>, at: int) -> nat {
    (be32(s, at) * 0x1_0000_0000 + be32(s, at + 4)) as nat
}

/// The four bytes of `v`, most significant first.
pub open spec fn be32_bytes(v: u32) -> Seq<u8> {
    seq![
        (v / 0x100_0000) as u8,
        (v / 0x1_0000 % 0x100) as u8,
        (v / 0x100 % 0x100) as u8,
        (v % 0x100) as u8,
    ]
}

/// The eight bytes of `v`, most significant first.
pub open spec fn be64_bytes(v: u64) -> Seq<u8> {
    be32_bytes((v / 0x1_0000_0000) as u32) + be32_bytes((v % 0x1_0000_0000) as u32)
}

/// `s` with the bytes from `at` on replaced by `with`.
pub open spec fn overwritten(s: Seq<u8>, at: int, with: Seq<u8>) -> Seq<u8> {
    s.subrange(0, at) + with + s.subrange(at + with.len(), s.len() as int)
}

/// A written 32-bit number reads back.
pub proof fn lemma_be32_reads_back(s: Seq<u8>, at: int, v: u32)
    requires
        0 <= at,
        at + 4 <= s.len(),
    ensures
        be32(overwritten(s, at, be32_bytes(v)), at) == v,
        overwritten(s, at, be32_bytes(v)).len() == s.len(),
{
}

/// A written 64-bit number reads back.
pub proof fn lemma_be64_reads_back(s: Seq<u8>, at: int, v: u64)
    requires
        0 <= at,
        at + 8 <= s.len(),
    ensures
        be64(overwritten(s, at, be64_bytes(v)), at) == v,
        overwritten(s, at, be64_bytes(v)).len() == s.len(),
{
    let hi = (v / 0x1_0000_0000) as u32;
    let lo = (v % 0x1_0000_0000) as u32;
    let half = overwritten(s, at, be32_bytes(hi));
    lemma_be32_reads_back(s, at, hi);
    lemma_be32_reads_back(half, at + 4, lo);
    let w = overwritten(half, at + 4, be32_bytes(lo));
    assert(w =~= overwritten(s, at, be64_bytes(v)));
    assert(be32(w, at) == be32(half, at));
}

/// Reads the 32-bit number that starts at `at`.
pub fn read_u32_be(data: &[u8], at: usize) -> (v: u32)
    requires
        at + 4 <= data@.len(),
    ensures
        v == be32(data@, at as int),
{
    data[at] as u32 * 0x100_0000 + data[at + 1] as u32 * 0x1_0000 + data[at + 2] as u32 * 0x100
        + data[at + 3] as u32
}

/// Reads the 64-bit number that starts at `at`.
pub fn read_u64_be(data: &[u8], at: usize) -> (v: u64)
    requires
        at + 8 <= data@.len(),
    ensures
        v == be64(data@, at as int),
{
    let hi: u32 = read_u32_be(data, at);
    assert(at + 8 <= data.len());
    let lo: u32 = read_u32_be(data, at + 4);
    hi as u64 * 0x1_0000_0000 + lo as u64
}

/// Writes `v` in the four bytes from `at` on.
pub fn write_u32_be(data: &mut [u8], at: usize, v: u32)
    requires
        at + 4 <= old(data)@.len(),
    ensures
        final(data)@ == overwritten(old(data)@, at as int, be32_bytes(v)),
{
    data[at] = (v / 0x100_0000) as u8;
    data[at + 1] = (v / 0x1_0000 % 0x100) as u8;
    data[at + 2] = (v / 0x100 % 0x100) as u8;
    data[at + 3] = (v % 0x100) as u8;
    assert(data@ =~= overwritten(old(data)@, at as int, be32_bytes(v)));
}

/// Writes `v` in the eight bytes from `at` on.
pub fn write_u64_be(data: &mut [u8], at: usize, v: u64)
    requires
        at + 8 <= old(data)@.len(),
    ensures
        final(data)@ == overwritten(old(data)@, at as int, be64_bytes(v)),
{
    write_u32_be(data, at, (v / 0x1_0000_0000) as u32);
    assert(at + 8 <= data.len());
    write_u32_be(data, at + 4, (v % 0x1_0000_0000) as u32);
    assert(data@ =~= overwritten(old(data)@, at as int, be64_bytes(v)));
}

} // verus!
