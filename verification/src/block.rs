//! The model of a CIDR block: an address, a prefix length, and what follows from the two.

use crate::mask::mask_of;
use crate::quad::octet;
use vstd::arithmetic::power2::{lemma2_to64, lemma_pow2_strictly_increases, pow2};
use vstd::bits::{lemma_u64_pow2_no_overflow, lemma_u64_shl_is_mul};
use vstd::prelude::*;

verus! {

/// The lowest address of the block that `address` lies in: its host bits cleared.
pub open spec fn network_of(address: u32, prefix: u8) -> u32 {
    address & mask_of(prefix)
}

/// The highest address of the block that `address` lies in: its host bits set.
pub open spec fn broadcast_of(address: u32, prefix: u8) -> u32 {
    network_of(address, prefix) | !mask_of(prefix)
}

/// An IPv4 address together with the length of its network prefix.
///
/// The address is kept as it was given; the network it belongs to is derived from it.
pub struct CidrBlock {
    pub address: u32,
    pub prefix_length: u8,
}

impl CidrBlock {
    /// A prefix length counts bits of a 32-bit address.
    pub open spec fn valid(self) -> bool {
        self.prefix_length <= 32
    }

    /// The subnet mask: ones over the network bits.
    pub open spec fn mask(self) -> u32 {
        mask_of(self.prefix_length)
    }

    /// The wildcard mask: ones over the host bits.
    pub open spec fn wildcard(self) -> u32 {
        !mask_of(self.prefix_length)
    }

    /// The network address, the first address of the block.
    pub open spec fn network(self) -> u32 {
        network_of(self.address, self.prefix_length)
    }

    /// The broadcast address, the last address of the block.
    pub open spec fn broadcast(self) -> u32 {
        broadcast_of(self.address, self.prefix_length)
    }

    /// The number of addresses in the block.
    pub open spec fn size(self) -> nat {
        pow2((32 - self.prefix_length) as nat)
    }

    /// Whether the block sets its first and last address aside as network and broadcast
    /// address. A block of two addresses is a point-to-point link and a block of one
    /// address is a single host: in neither is an address set aside.
    pub open spec fn reserves_ends(self) -> bool {
        self.prefix_length <= 30
    }

    /// The first address that a host can have.
    pub open spec fn first_host(self) -> u32 {
        if self.reserves_ends() {
            (self.network() + 1) as u32
        } else {
            self.network()
        }
    }

    /// The last address that a host can have.
    pub open spec fn last_host(self) -> u32 {
        if self.reserves_ends() {
            (self.broadcast() - 1) as u32
        } else {
            self.broadcast()
        }
    }

    /// The number of addresses that hosts can have.
    pub open spec fn hosts(self) -> nat {
        if self.reserves_ends() {
            (self.size() - 2) as nat
        } else {
            self.size()
        }
    }

    /// Whether `ip` is an address of the block.
    pub open spec fn contains(self, ip: u32) -> bool {
        self.network() <= ip <= self.broadcast()
    }

    /// Whether the two blocks have an address in common.
    pub open spec fn overlaps(self, other: CidrBlock) -> bool {
        self.network() <= other.broadcast() && other.network() <= self.broadcast()
    }
}

/// The wildcard mask is the complement of the subnet mask: the two share no bit, together
/// they cover the word, and each octet of the one is 255 less the octet of the other.
pub proof fn lemma_wildcard_complements_mask(block: CidrBlock)
    ensures
        block.wildcard() == !block.mask(),
        block.wildcard() & block.mask() == 0,
        block.wildcard() | block.mask() == 0xFFFF_FFFFu32,
        forall|i: u32| i < 4 ==> #[trigger] octet(block.wildcard(), i) == 255 - octet(block.mask(), i),
{
    let m = block.mask();
    assert((!m) & m == 0) by (bit_vector);
    assert((!m) | m == 0xFFFF_FFFFu32) by (bit_vector);
    assert forall|i: u32| i < 4 implies #[trigger] octet(!m, i) == 255 - octet(m, i) by {
        assert(octet(!m, i) == 255 - octet(m, i)) by (bit_vector)
            requires
                i < 4,
        ;
    }
}

/// The masks follow from the prefix length alone, whatever the address.
pub proof fn lemma_masks_follow_prefix(left: CidrBlock, right: CidrBlock)
    requires
        left.prefix_length == right.prefix_length,
    ensures
        left.mask() == right.mask(),
        left.wildcard() == right.wildcard(),
{
}

/// The network address and the broadcast address can be had octet by octet: an octet of
/// the network address is the octet of the address masked by the octet of the subnet
/// mask, and an octet of the broadcast address is the octet of the network address with
/// the bits set that the octet of the subnet mask leaves clear.
pub proof fn lemma_octet_by_octet(block: CidrBlock, i: u32)
    requires
        i < 4,
    ensures
        octet(block.network(), i) == octet(block.address, i) & octet(block.mask(), i),
        octet(block.broadcast(), i) == octet(block.network(), i) | octet(block.wildcard(), i),
        octet(block.wildcard(), i) == 255 - octet(block.mask(), i),
{
    let a = block.address;
    let m = block.mask();
    assert(octet(a & m, i) == octet(a, i) & octet(m, i) && octet((a & m) | !m, i) == octet(
        a & m,
        i,
    ) | octet(!m, i) && octet(!m, i) == 255 - octet(m, i)) by (bit_vector)
        requires
            i < 4,
    ;
}

/// Masking the network address again changes nothing, and the given address lies between
/// the network address and the broadcast address.
pub proof fn lemma_network_is_masked(block: CidrBlock)
    ensures
        block.network() & block.mask() == block.network(),
        block.network() & block.wildcard() == 0,
        block.contains(block.address),
{
    let a = block.address;
    let m = block.mask();
    assert((a & m) & m == a & m) by (bit_vector);
    assert((a & m) & !m == 0) by (bit_vector);
    assert(a & m <= a && a <= (a & m) | !m) by (bit_vector);
}

/// The broadcast address has every host bit set and differs from the network address in
/// the host bits only.
pub proof fn lemma_broadcast_sets_host_bits(block: CidrBlock)
    ensures
        block.broadcast() | block.wildcard() == block.broadcast(),
        block.broadcast() & block.mask() == block.network(),
        (block.broadcast() ^ block.network()) & block.mask() == 0,
        block.broadcast() ^ block.network() == block.wildcard(),
{
    let a = block.address;
    let m = block.mask();
    assert((((a & m) | !m) | !m) == ((a & m) | !m)) by (bit_vector);
    assert((((a & m) | !m) & m) == (a & m)) by (bit_vector);
    assert(((((a & m) | !m) ^ (a & m)) & m) == 0) by (bit_vector);
    assert((((a & m) | !m) ^ (a & m)) == !m) by (bit_vector);
}

/// Setting the bits of the subnet mask in the broadcast address changes nothing where
/// every network bit of the address is set, and only there.
pub proof fn lemma_broadcast_absorbs_mask(block: CidrBlock)
    ensures
        (block.broadcast() | block.mask() == block.broadcast()) <==> block.network()
            == block.mask(),
{
    let a = block.address;
    let m = block.mask();
    assert(((((a & m) | !m) | m) == ((a & m) | !m)) <==> (a & m) == m) by (bit_vector);
}

/// With no prefix the block is the whole address space; with a prefix of 32 bits it is the
/// given address alone.
pub proof fn lemma_extreme_prefixes(block: CidrBlock)
    ensures
        block.prefix_length == 0 ==> block.network() == 0 && block.broadcast() == 0xFFFF_FFFFu32,
        block.prefix_length == 32 ==> block.network() == block.address && block.broadcast()
            == block.address,
{
    let a = block.address;
    assert(a & 0 == 0 && ((a & 0) | !0u32) == 0xFFFF_FFFFu32) by (bit_vector);
    assert(mask_of(32) == 0xFFFF_FFFFu32) by (bit_vector);
    assert(a & 0xFFFF_FFFFu32 == a && ((a & 0xFFFF_FFFFu32) | !0xFFFF_FFFFu32) == a)
        by (bit_vector);
}

/// The host bits, read as a number, are one less than the number of addresses.
pub proof fn lemma_wildcard_is_size_less_one(block: CidrBlock)
    requires
        block.valid(),
    ensures
        block.wildcard() == block.size() - 1,
        block.mask() == 0x1_0000_0000 - block.size(),
        1 <= block.size() <= 0x1_0000_0000,
{
    let p = block.prefix_length;
    let k: u64 = (32 - p) as u64;
    assert((!mask_of(p)) as u64 == (1u64 << k) - 1 && mask_of(p) == 0x1_0000_0000 - (1u64 << k))
        by (bit_vector)
        requires
            p <= 32,
            k == 32 - p,
    ;
    lemma_u64_pow2_no_overflow(k as nat);
    lemma_u64_shl_is_mul(1, k);
    lemma2_to64();
    if k < 32 {
        lemma_pow2_strictly_increases(k as nat, 32);
    }
}

/// The block runs from the network address to the broadcast address and holds as many
/// addresses as its size says.
pub proof fn lemma_block_extent(block: CidrBlock)
    requires
        block.valid(),
    ensures
        block.broadcast() == block.network() + block.size() - 1,
{
    lemma_wildcard_is_size_less_one(block);
    let n = block.network();
    let w = block.wildcard();
    lemma_network_is_masked(block);
    assert(n | w == n + w) by (bit_vector)
        requires
            n & w == 0,
    ;
}

/// The count of host addresses: `2^(32 - n) - 2` for a prefix length `n` of at most 30,
/// two for a prefix length of 31 and one for a prefix length of 32. In every case it is
/// the count of the addresses from the first host address to the last.
pub proof fn lemma_host_count(block: CidrBlock)
    requires
        block.valid(),
    ensures
        block.prefix_length <= 30 ==> block.hosts() == pow2((32 - block.prefix_length) as nat) - 2,
        block.prefix_length == 31 ==> block.hosts() == 2,
        block.prefix_length == 32 ==> block.hosts() == 1,
        block.network() <= block.first_host() <= block.last_host() <= block.broadcast(),
        block.hosts() == block.last_host() - block.first_host() + 1,
        block.reserves_ends() ==> block.first_host() == block.network() + 1 && block.last_host()
            == block.broadcast() - 1,
{
    lemma_block_extent(block);
    lemma_wildcard_is_size_less_one(block);
    lemma2_to64();
    if block.prefix_length <= 30 {
        lemma_pow2_strictly_increases(1, (32 - block.prefix_length) as nat);
    }
}

/// Whether two blocks overlap does not depend on the order in which they are given.
pub proof fn lemma_overlaps_symmetric(left: CidrBlock, right: CidrBlock)
    ensures
        left.overlaps(right) == right.overlaps(left),
{
}

/// A block overlaps itself.
pub proof fn lemma_overlaps_reflexive(block: CidrBlock)
    ensures
        block.overlaps(block),
{
    lemma_network_is_masked(block);
}

/// Two blocks overlap exactly when some address lies in both.
pub proof fn lemma_overlaps_is_shared_address(left: CidrBlock, right: CidrBlock)
    ensures
        left.overlaps(right) <==> exists|ip: u32| left.contains(ip) && right.contains(ip),
{
    lemma_network_is_masked(left);
    lemma_network_is_masked(right);
    if left.overlaps(right) {
        let ip = if left.network() <= right.network() {
            right.network()
        } else {
            left.network()
        };
        assert(left.contains(ip) && right.contains(ip));
    }
}

} // verus!
