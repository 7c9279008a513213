use vstd::arithmetic::div_mod::lemma_add_mod_noop;
use vstd::prelude::*;

verus! {

/// The CRC-32 checksum of `data` under the Castagnoli polynomial, as the
/// `crc` crate computes it for `CRC_32_ISCSI`. The result depends on the
/// bytes alone.
pub uninterp spec fn crc32c_of(data: Seq<u8>) -> u32;

/// Relies on `crc::Crc::<u32>::checksum` with the `CRC_32_ISCSI` algorithm:
/// a pure function of the input bytes.
#[verifier::external_body]
pub fn crc32c(data: &Vec<u8>) -> (r: u32)
    ensures
        r == crc32c_of(data@),
{
    crc::Crc::<u32>::new(&crc::CRC_32_ISCSI).checksum(data.as_slice())
}

/// The constant added while masking a checksum.
pub const MASK_DELTA: u32 = 0xa282ead8;

/// The stored form of a checksum: the value rotated right by 15 bits, plus
/// a fixed constant, modulo 2^32.
pub open spec fn mask_crc_spec(c: u32) -> u32 {
    ((((c >> 15) | (c << 17)) + MASK_DELTA) % 0x1_0000_0000) as u32
}

/// The inverse transform applied when reading a stored checksum.
pub open spec fn unmask_crc_spec(m: u32) -> u32 {
    let rot = (((m + 0x1_0000_0000) - MASK_DELTA) % 0x1_0000_0000) as u32;
    (rot >> 17) | (rot << 15)
}

/// Masking then unmasking gives back the original checksum: the stored
/// transform is a bijection on 32-bit values.
pub proof fn lemma_mask_roundtrip(c: u32)
    ensures
        unmask_crc_spec(mask_crc_spec(c)) == c,
{
    let n: int = 0x1_0000_0000;
    let x: int = ((c >> 15) | (c << 17)) as int;
    let d: int = MASK_DELTA as int;
    let m: int = mask_crc_spec(c) as int;
    assert(m == (x + d) % n);
    lemma_add_mod_noop(x + d, n - d, n);
    assert((m + (n - d) % n) % n == (x + d + (n - d)) % n) by {
        assert(m % n == m);
    }
    assert((x + d + (n - d)) == x + n);
    assert((x + n) % n == x) by {
        assert(0 <= x < n);
        lemma_add_mod_noop(x, n, n);
        assert(x % n == x);
        assert(n % n == 0);
    }
    assert((n - d) % n == n - d);
    let rot = ((m + n - d) % n) as u32;
    assert(rot as int == x);
    let xr = (c >> 15) | (c << 17);
    assert((xr >> 17) | (xr << 15) == c) by (bit_vector)
        requires
            xr == (c >> 15) | (c << 17),
    ;
}

/// Applies the storage mask to a checksum.
pub fn mask_crc(c: u32) -> (r: u32)
    ensures
        r == mask_crc_spec(c),
{
    let rot: u32 = (c >> 15) | (c << 17);
    let sum: u64 = rot as u64 + MASK_DELTA as u64;
    (sum % 0x1_0000_0000) as u32
}

/// Undoes the storage mask.
pub fn unmask_crc(m: u32) -> (r: u32)
    ensures
        r == unmask_crc_spec(m),
{
    let diff: u64 = (m as u64 + 0x1_0000_0000) - MASK_DELTA as u64;
    let rot: u32 = (diff % 0x1_0000_0000) as u32;
    (rot >> 17) | (rot << 15)
}

} // verus!
