//! The root system description pointer and its checksum.
use vstd::prelude::*;
use crate::le_bytes::{le_u64, read_u64};

verus! {

/// Bytes the checksum of an RSDP of revision 2 or later covers.
pub const RSDP_V2_LEN: usize = 36;

/// Offset of the revision byte.
pub const RSDP_REVISION_OFFSET: usize = 15;

/// Offset of the XSDT address in an RSDP of revision 2 or later.
pub const RSDP_XSDT_ADDRESS_OFFSET: usize = 24;

/// Sum of the first `n` bytes of `s`.
pub open spec fn byte_sum(s: Seq<u8>, n: nat) -> nat
    decreases n,
{
    if n == 0 {
        0
    } else {
        byte_sum(s, (n - 1) as nat) + s[n - 1] as nat
    }
}

/// The first `len` bytes of `bytes` add up to 0 modulo 256.
pub fn is_rsdp_valid(bytes: &[u8], len: usize) -> (r: bool)
    requires
        len <= bytes@.len(),
    ensures
        r == (byte_sum(bytes@, len as nat) % 256 == 0),
{
    let mut sum: u8 = 0;
    let mut i: usize = 0;
    while i < len
        invariant
            i <= len,
            len <= bytes@.len(),
            sum == byte_sum(bytes@, i as nat) % 256,
        decreases len - i,
    {
        sum = sum.wrapping_add(bytes[i]);
        i = i + 1;
    }
    sum == 0
}

/// The RSDP stored in `bytes` is one this kernel accepts: revision 2 or
/// later, with a valid checksum over its first 36 bytes.
pub open spec fn rsdp_supported(bytes: Seq<u8>) -> bool {
    &&& bytes.len() >= RSDP_V2_LEN
    &&& bytes[RSDP_REVISION_OFFSET as int] >= 2
    &&& byte_sum(bytes, RSDP_V2_LEN as nat) % 256 == 0
}

/// The physical address of the XSDT that an accepted RSDP names.  Older
/// revisions and bad checksums are fatal, so they are excluded.
pub fn rsdp_xsdt_address(bytes: &[u8]) -> (r: u64)
    requires
        rsdp_supported(bytes@),
    ensures
        r == le_u64(bytes@, RSDP_XSDT_ADDRESS_OFFSET as int),
{
    let revision = bytes[RSDP_REVISION_OFFSET];
    if revision >= 2 {
        let valid = is_rsdp_valid(bytes, RSDP_V2_LEN);
        assert(valid);
    }
    read_u64(bytes, RSDP_XSDT_ADDRESS_OFFSET)
}

} // verus!
