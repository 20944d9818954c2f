//! Subnet masks as functions of the prefix length.

use vstd::prelude::*;
use vstd::std_specs::bits::{
    axiom_u32_leading_ones, axiom_u32_trailing_zeros, u32_leading_ones, u32_trailing_zeros,
};

verus! {

/// The subnet mask of a prefix length: ones in the high `prefix` bits, zeros below.
pub open spec fn mask_of(prefix: u8) -> u32 {
    if prefix == 0 {
        0u32
    } else {
        0xFFFF_FFFFu32 << ((32 - prefix) as u32)
    }
}

/// Whether bit `k` of `word` is set, bit 0 being the least significant.
pub open spec fn bit_is_set(word: u32, k: u32) -> bool {
    (word >> k) & 1u32 == 1u32
}

/// Computes the subnet mask for a prefix length.
pub(crate) fn subnet_mask_for(prefix: u8) -> (mask: u32)
    requires
        prefix <= 32,
    ensures
        mask == mask_of(prefix),
{
    if prefix == 0 {
        0
    } else {
        let host_bits: u32 = (32 - prefix) as u32;
        0xFFFF_FFFFu32 << host_bits
    }
}

/// Bit `k` of the mask is set exactly when it lies among the `prefix` highest bits.
pub proof fn lemma_mask_bits(prefix: u8, k: u32)
    requires
        prefix <= 32,
        k < 32,
    ensures
        bit_is_set(mask_of(prefix), k) <==> k >= 32 - prefix,
{
    assert(bit_is_set(mask_of(prefix), k) <==> k >= 32 - prefix) by (bit_vector)
        requires
            prefix <= 32,
            k < 32,
    ;
}

/// The mask has exactly `prefix` leading ones and `32 - prefix` trailing zeros.
pub proof fn lemma_mask_shape(prefix: u8)
    requires
        prefix <= 32,
    ensures
        u32_leading_ones(mask_of(prefix)) == prefix,
        u32_trailing_zeros(mask_of(prefix)) == 32 - prefix,
{
    let m = mask_of(prefix);
    axiom_u32_leading_ones(m);
    axiom_u32_trailing_zeros(m);
    let ones = u32_leading_ones(m);
    let zeros = u32_trailing_zeros(m);
    if ones < prefix {
        lemma_mask_bits(prefix, (31 - ones) as u32);
    }
    if ones > prefix {
        lemma_mask_bits(prefix, (32 - ones) as u32);
    }
    if zeros < 32 - prefix {
        lemma_mask_bits(prefix, zeros);
    }
    if zeros > 32 - prefix {
        lemma_mask_bits(prefix, (32 - prefix) as u32);
    }
}

} // verus!
