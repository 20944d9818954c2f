//! Whether two blocks share an address, as the `ipnetwork` crate decides it.

use crate::block::CidrBlock;
use crate::mask::mask_of;
use vstd::prelude::*;

verus! {

/// The mask under which `Ipv4Network::contains` compares two addresses.
pub open spec fn membership_mask(prefix: u8) -> u32 {
    (!(0xFFFF_FFFFu64 >> prefix)) as u32
}

/// What `Ipv4Network::contains` answers for the network `address/prefix` and `ip`: whether
/// the two addresses agree under the membership mask.
pub open spec fn network_holds(address: u32, prefix: u8, ip: u32) -> bool {
    ip & membership_mask(prefix) == address & membership_mask(prefix)
}

/// What `Ipv4Network::broadcast` returns for the network `address/prefix`: the address
/// with every bit outside the subnet mask set.
pub open spec fn network_top(address: u32, prefix: u8) -> u32 {
    address | !mask_of(prefix)
}

/// What `Ipv4Network::overlaps` answers: whether either network holds the address or the
/// broadcast address of the other.
pub open spec fn partly_contained(
    left_address: u32,
    left_prefix: u8,
    right_address: u32,
    right_prefix: u8,
) -> bool {
    ||| network_holds(right_address, right_prefix, left_address)
    ||| network_holds(right_address, right_prefix, network_top(left_address, left_prefix))
    ||| network_holds(left_address, left_prefix, right_address)
    ||| network_holds(left_address, left_prefix, network_top(right_address, right_prefix))
}

/// Asks `ipnetwork::Ipv4Network::overlaps` whether the network `left_address/left_prefix`
/// overlaps the network `right_address/right_prefix`.
///
/// Trusted, not proved: the contract restates the bodies of `Ipv4Network::overlaps`,
/// `contains`, `broadcast` and `mask`. `Ipv4Network::new` fails only on a prefix above 32,
/// which the precondition rules out, and an address converts from `u32` with its most
/// significant octet first.
#[verifier::external_body]
pub(crate) fn networks_overlap(
    left_address: u32,
    left_prefix: u8,
    right_address: u32,
    right_prefix: u8,
) -> (answer: bool)
    requires
        left_prefix <= 32,
        right_prefix <= 32,
    ensures
        answer == partly_contained(left_address, left_prefix, right_address, right_prefix),
{
    let left = ipnetwork::Ipv4Network::new(left_address.into(), left_prefix).unwrap();
    let right = ipnetwork::Ipv4Network::new(right_address.into(), right_prefix).unwrap();
    left.overlaps(right)
}

/// Either of two networks holds an end of the other exactly when their address ranges
/// meet: blocks in CIDR notation nest or lie apart.
pub proof fn lemma_partly_contained_is_overlap(left: CidrBlock, right: CidrBlock)
    requires
        left.valid(),
        right.valid(),
    ensures
        partly_contained(
            left.address,
            left.prefix_length,
            right.address,
            right.prefix_length,
        ) == left.overlaps(right),
{
    let a = left.address;
    let p = left.prefix_length;
    let b = right.address;
    let q = right.prefix_length;
    assert(partly_contained(a, p, b, q) == ((a & mask_of(p)) <= ((b & mask_of(q)) | !mask_of(q))
        && (b & mask_of(q)) <= ((a & mask_of(p)) | !mask_of(p)))) by (bit_vector)
        requires
            p <= 32,
            q <= 32,
    ;
}

} // verus!
