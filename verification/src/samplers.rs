use vstd::prelude::*;

verus! {

/// The integer mixing behind the two-dimensional hash: the bit patterns of the
/// two coordinates are multiplied by odd constants, combined, and scrambled by
/// alternating xor-shifts and multiplications, all modulo 2^64.
pub open spec fn spec_hash_bits(x_bits: u64, y_bits: u64) -> u64 {
    let h0 = x_bits.wrapping_mul(0x6C8E9CF5) ^ y_bits.wrapping_mul(0xB5297A4D);
    let h1 = h0 ^ (h0 >> 16u64);
    let h2 = h1.wrapping_mul(0x7FEB352D);
    let h3 = h2 ^ (h2 >> 15u64);
    let h4 = h3.wrapping_mul(0x846CA68B);
    h4 ^ (h4 >> 16u64)
}

/// Hashes the bit patterns of the two coordinates of a point to 64 bits;
/// dividing the result by `u64::MAX` gives a value in `[0, 1]`.
pub fn hash_bits(x_bits: u64, y_bits: u64) -> (res: u64)
    ensures
        res == spec_hash_bits(x_bits, y_bits),
{
    let mut h: u64 = x_bits.wrapping_mul(0x6C8E9CF5) ^ y_bits.wrapping_mul(0xB5297A4D);
    h ^= h >> 16u64;
    h = h.wrapping_mul(0x7FEB352D);
    h ^= h >> 15u64;
    h = h.wrapping_mul(0x846CA68B);
    h ^= h >> 16u64;
    h
}

} // verus!
