//! Little-endian integers in byte sequences.
use vstd::prelude::*;

verus! {

/// The 16-bit little-endian value at `o`.
pub open spec fn le_u16(s: Seq<u8>, o: int) -> u16 {
    (s[o] + 0x100 * s[o + 1]) as u16
}

/// The 32-bit little-endian value at `o`.
pub open spec fn le_u32(s: Seq<u8>, o: int) -> u32 {
    (s[o] + 0x100 * s[o + 1] + 0x1_0000 * s[o + 2] + 0x100_0000 * s[o + 3]) as u32
}

/// The 64-bit little-endian value at `o`.
pub open spec fn le_u64(s: Seq<u8>, o: int) -> u64 {
    (le_u32(s, o) + 0x1_0000_0000 * le_u32(s, o + 4)) as u64
}

/// The little-endian 16-bit value at offset `o` of `s`.
pub fn read_u16(s: &[u8], o: usize) -> (r: u16)
    requires
        o + 2 <= s@.len(),
    ensures
        r == le_u16(s@, o as int),
{
    let b0 = s[o];
    let b1 = s[o + 1];
    let r = (b0 as u16) | ((b1 as u16) << 8u16);
    assert(r == b0 + 0x100 * b1) by (bit_vector)
        requires
            r == (b0 as u16) | ((b1 as u16) << 8u16),
    ;
    r
}

/// The little-endian 32-bit value at offset `o` of `s`.
pub fn read_u32(s: &[u8], o: usize) -> (r: u32)
    requires
        o + 4 <= s@.len(),
    ensures
        r == le_u32(s@, o as int),
{
    let b0 = s[o];
    let b1 = s[o + 1];
    let b2 = s[o + 2];
    let b3 = s[o + 3];
    let r = (b0 as u32) | ((b1 as u32) << 8u32) | ((b2 as u32) << 16u32) | ((b3 as u32) << 24u32);
    assert(r == b0 + 0x100 * b1 + 0x1_0000 * b2 + 0x100_0000 * b3) by (bit_vector)
        requires
            r == (b0 as u32) | ((b1 as u32) << 8u32) | ((b2 as u32) << 16u32) | ((b3 as u32) << 24u32),
    ;
    r
}

/// The little-endian 64-bit value at offset `o` of `s`.
pub fn read_u64(s: &[u8], o: usize) -> (r: u64)
    requires
        o + 8 <= s@.len(),
    ensures
        r == le_u64(s@, o as int),
{
    assert(o + 8 <= s.len());
    let lo = read_u32(s, o);
    let hi = read_u32(s, o + 4);
    let r = (lo as u64) | ((hi as u64) << 32u64);
    assert(r == lo + 0x1_0000_0000 * hi) by (bit_vector)
        requires
            r == (lo as u64) | ((hi as u64) << 32u64),
    ;
    r
}

/// Stores `v` little-endian at offset `o` of `s`; nothing else changes.
pub fn write_u16(s: &mut [u8], o: usize, v: u16)
    requires
        o + 2 <= old(s)@.len(),
    ensures
        final(s)@ == old(s)@.update(o as int, (v % 0x100) as u8).update(o + 1, (v / 0x100) as u8),
        le_u16(final(s)@, o as int) == v,
{
    let lo = (v % 0x100) as u8;
    let hi = (v / 0x100) as u8;
    s[o] = lo;
    s[o + 1] = hi;
}

} // verus!

verus! {

/// A copy of the bytes of `s` from `from` on (none when `from` is past the end).
pub fn copy_from(s: &[u8], from: usize) -> (r: Vec<u8>)
    ensures
        from <= s@.len() ==> r@ == s@.subrange(from as int, s@.len() as int),
        from > s@.len() ==> r@.len() == 0,
{
    let mut out: Vec<u8> = Vec::new();
    let mut i: usize = from;
    while i < s.len()
        invariant
            from <= i || i >= s@.len(),
            i <= s@.len() || i == from,
            from <= s@.len() ==> out@ == s@.subrange(from as int, i as int),
            from > s@.len() ==> out@.len() == 0,
        decreases s@.len() - i,
    {
        out.push(s[i]);
        proof {
            assert(out@ =~= s@.subrange(from as int, i + 1));
        }
        i = i + 1;
    }
    proof {
        if from <= s@.len() {
            assert(i == s@.len());
        }
    }
    out
}

} // verus!
