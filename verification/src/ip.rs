//! An IPv4 address with its subnet bits, and the properties of the subnet it lies in.

use crate::block::{lemma_host_count, lemma_wildcard_is_size_less_one, CidrBlock};
use crate::decimal::{decimal, format_decimal};
use crate::mask::{mask_of, subnet_mask_for};
use crate::overlap::{lemma_partly_contained_is_overlap, networks_overlap};
use crate::parse::{address_of, parse_address, ParseError, ParseErrorView};
use crate::quad::{dotted_quad, format_quads, octet, quads, quads_of};
use vstd::arithmetic::power2::{lemma2_to64, lemma_pow2_strictly_increases};
use vstd::bits::{lemma_u64_pow2_no_overflow, lemma_u64_shl_is_mul};
use vstd::prelude::*;

verus! {

/// The block that an address text and a count of subnet bits denote, or what is wrong
/// with them. Where both are at fault, the address is reported.
pub open spec fn block_of(ip: Seq<char>, subnet_bits: u8) -> Result<CidrBlock, ParseErrorView> {
    match address_of(ip) {
        None => Err(ParseErrorView::MalformedAddress(ip)),
        Some(address) => if subnet_bits <= 32 {
            Ok(CidrBlock { address, prefix_length: subnet_bits })
        } else {
            Err(ParseErrorView::MalformedPrefix(decimal(subnet_bits as nat)))
        },
    }
}

/// An IPv4 address and the number of its subnet bits, with the subnet mask that the
/// number stands for.
#[derive(Debug, Clone, Copy, PartialEq, Eq)]
pub struct Ip {
    address: u32,
    subnet_bits: u8,
    subnet_mask: u32,
}

impl View for Ip {
    type V = CidrBlock;

    closed spec fn view(&self) -> CidrBlock {
        CidrBlock { address: self.address, prefix_length: self.subnet_bits }
    }
}

impl Ip {
    #[verifier::type_invariant]
    spec fn well_formed(self) -> bool {
        self.subnet_bits <= 32 && self.subnet_mask == mask_of(self.subnet_bits)
    }

    /// Makes the value for an address and a valid number of subnet bits.
    pub(crate) fn from_parts(address: u32, subnet_bits: u8) -> (ip: Ip)
        requires
            subnet_bits <= 32,
        ensures
            ip@ == (CidrBlock { address, prefix_length: subnet_bits }),
    {
        Ip { address, subnet_bits, subnet_mask: subnet_mask_for(subnet_bits) }
    }

    /// Makes the value for an address in dotted-quad notation and a number of subnet bits.
    ///
    /// Fails with `MalformedAddress`, holding `ip`, where `ip` is not such an address, and
    /// else with `MalformedPrefix`, holding the number in decimal, where `subnet_bits` is
    /// above 32.
    pub fn new(ip: &str, subnet_bits: u8) -> (made: Result<Ip, ParseError>)
        ensures
            match made {
                Ok(value) => block_of(ip@, subnet_bits) == Ok::<CidrBlock, ParseErrorView>(value@),
                Err(e) => block_of(ip@, subnet_bits) == Err::<CidrBlock, ParseErrorView>(e@),
            },
    {
        match parse_address(ip) {
            Err(e) => Err(e),
            Ok(address) => {
                if subnet_bits <= 32 {
                    Ok(Ip::from_parts(address, subnet_bits))
                } else {
                    Err(ParseError::MalformedPrefix(format_decimal(subnet_bits as u32)))
                }
            },
        }
    }

    /// The address as it was given.
    pub fn address(&self) -> (address: u32)
        ensures
            address == self@.address,
    {
        self.address
    }

    /// The number of subnet bits, which is at most 32.
    pub fn subnet_bits(&self) -> (bits: u8)
        ensures
            bits == self@.prefix_length,
            self@.valid(),
    {
        proof {
            use_type_invariant(self);
        }
        self.subnet_bits
    }

    /// The subnet mask.
    pub fn subnet_mask(&self) -> (mask: u32)
        ensures
            mask == self@.mask(),
    {
        proof {
            use_type_invariant(self);
        }
        self.subnet_mask
    }

    /// The wildcard mask: the complement of the subnet mask.
    pub fn wildcard_mask(&self) -> (mask: u32)
        ensures
            mask == self@.wildcard(),
    {
        proof {
            use_type_invariant(self);
        }
        !self.subnet_mask
    }

    /// The network address: the address with its host bits cleared.
    pub fn network_address(&self) -> (network: u32)
        ensures
            network == self@.network(),
    {
        proof {
            use_type_invariant(self);
        }
        self.address & self.subnet_mask
    }

    /// The broadcast address: the address with its host bits set.
    pub fn broadcast_address(&self) -> (broadcast: u32)
        ensures
            broadcast == self@.broadcast(),
    {
        proof {
            use_type_invariant(self);
        }
        (self.address & self.subnet_mask) | !self.subnet_mask
    }

    /// The first address that a host can have.
    pub fn first_ip_address(&self) -> (first: u32)
        ensures
            first == self@.first_host(),
    {
        proof {
            use_type_invariant(self);
            lemma_host_count(self@);
        }
        let network = self.address & self.subnet_mask;
        if self.subnet_bits <= 30 {
            network + 1
        } else {
            network
        }
    }

    /// The last address that a host can have.
    pub fn last_ip_address(&self) -> (last: u32)
        ensures
            last == self@.last_host(),
    {
        proof {
            use_type_invariant(self);
            lemma_host_count(self@);
        }
        let broadcast = (self.address & self.subnet_mask) | !self.subnet_mask;
        if self.subnet_bits <= 30 {
            broadcast - 1
        } else {
            broadcast
        }
    }

    /// The number of addresses that follow the network address in the subnet: two to the
    /// power of the host bits, less one. It is the distance from the network address to
    /// the broadcast address, and the wildcard mask read as a number.
    pub fn get_number_ip_addresses(&self) -> (count: u32)
        ensures
            count == self@.size() - 1,
            count == self@.wildcard(),
    {
        proof {
            use_type_invariant(self);
        }
        let host_bits: u64 = (32 - self.subnet_bits) as u64;
        proof {
            lemma_u64_pow2_no_overflow(host_bits as nat);
            lemma_u64_shl_is_mul(1, host_bits);
            lemma_wildcard_is_size_less_one(self@);
        }
        ((1u64 << host_bits) - 1) as u32
    }

    /// The number of addresses that hosts can have.
    ///
    /// Up to 30 subnet bits the network address and the broadcast address are set aside,
    /// which leaves two to the power of the host bits, less two. With 31 subnet bits the
    /// subnet is a point-to-point link with 2 host addresses, with 32 a single host with 1.
    pub fn get_assignable_hosts(&self) -> (hosts: u32)
        ensures
            hosts == self@.hosts(),
    {
        proof {
            use_type_invariant(self);
        }
        let host_bits: u64 = (32 - self.subnet_bits) as u64;
        proof {
            lemma_u64_pow2_no_overflow(host_bits as nat);
            lemma_u64_shl_is_mul(1, host_bits);
            lemma_wildcard_is_size_less_one(self@);
            lemma2_to64();
            if self.subnet_bits <= 30 {
                lemma_pow2_strictly_increases(1, host_bits as nat);
            } else {
                lemma_pow2_strictly_increases(host_bits as nat, 2);
            }
        }
        if self.subnet_bits <= 30 {
            let hosts = (1u64 << host_bits) - 2;
            hosts as u32
        } else {
            (1u64 << host_bits) as u32
        }
    }

    /// The four octets of the address as it was given.
    pub fn get_ip_address_quads(&self) -> (octets: Vec<u32>)
        ensures
            octets@ == quads(self@.address),
    {
        quads_of(self.address)
    }

    /// The four octets of the network address: each octet of the address, masked by the
    /// octet of the subnet mask that lies over it.
    pub fn get_network_portion_quads(&self) -> (octets: Vec<u32>)
        ensures
            octets@ == quads(self@.network()),
    {
        let splits = self.get_ip_address_quads();
        let mut network_quads: Vec<u32> = Vec::new();
        let mut i: u32 = 0;
        while i < 4
            invariant
                i <= 4,
                splits@ == quads(self@.address),
                network_quads@.len() == i,
                forall|k: int|
                    0 <= k < i ==> network_quads@[k] == octet(self@.network(), k as u32),
            decreases 4 - i,
        {
            let shift: u32 = 24 - 8 * i;
            let subnet_mask_shifted = self.subnet_mask >> shift;
            let quad = splits[i as usize];
            let masked_quad = quad & subnet_mask_shifted;
            proof {
                use_type_invariant(self);
                let a = self.address;
                let m = self.subnet_mask;
                assert(quad == octet(a, i));
                assert(masked_quad == octet(a & m, i)) by (bit_vector)
                    requires
                        i < 4,
                        shift == 24 - 8 * i,
                        quad == octet(a, i),
                        masked_quad == quad & (m >> shift),
                ;
            }
            network_quads.push(masked_quad);
            i = i + 1;
        }
        assert(network_quads@ =~= quads(self@.network()));
        network_quads
    }

    /// The subnet mask in dotted-quad notation.
    pub fn get_subnet_mask(&self) -> (text: String)
        ensures
            text@ == dotted_quad(self@.mask()),
    {
        self.subnet_calculation()
    }

    /// Writes the subnet mask octet by octet.
    pub fn subnet_calculation(&self) -> (text: String)
        ensures
            text@ == dotted_quad(self@.mask()),
    {
        let mut mask_quads: Vec<u32> = Vec::new();
        let mut i: u32 = 0;
        while i < 4
            invariant
                i <= 4,
                mask_quads@.len() == i,
                forall|k: int| 0 <= k < i ==> mask_quads@[k] == octet(self@.mask(), k as u32),
            decreases 4 - i,
        {
            let shift: u32 = 24 - 8 * i;
            let shifted_mask = self.subnet_mask >> shift;
            let quad = shifted_mask & 255;
            proof {
                use_type_invariant(self);
                let m = self.subnet_mask;
                assert(quad == octet(m, i)) by (bit_vector)
                    requires
                        i < 4,
                        shift == 24 - 8 * i,
                        quad == (m >> shift) & 255,
                ;
            }
            mask_quads.push(quad);
            i = i + 1;
        }
        assert(mask_quads@ =~= quads(self@.mask()));
        format_quads(&mask_quads)
    }

    /// The wildcard mask in dotted-quad notation.
    pub fn get_wildcard_mask(&self) -> (text: String)
        ensures
            text@ == dotted_quad(self@.wildcard()),
    {
        self.wildcard_calculation()
    }

    /// Writes the wildcard mask octet by octet: 255 less each octet of the subnet mask.
    pub fn wildcard_calculation(&self) -> (text: String)
        ensures
            text@ == dotted_quad(self@.wildcard()),
    {
        let mut mask_quads: Vec<u32> = Vec::new();
        let mut i: u32 = 0;
        while i < 4
            invariant
                i <= 4,
                mask_quads@.len() == i,
                forall|k: int|
                    0 <= k < i ==> mask_quads@[k] == octet(self@.wildcard(), k as u32),
            decreases 4 - i,
        {
            let shift: u32 = 24 - 8 * i;
            let shifted_mask = self.subnet_mask >> shift;
            let low = shifted_mask & 255;
            proof {
                use_type_invariant(self);
                let m = self.subnet_mask;
                assert(low <= 255 && 255 - low == octet(!m, i)) by (bit_vector)
                    requires
                        i < 4,
                        shift == 24 - 8 * i,
                        low == (m >> shift) & 255,
                ;
            }
            mask_quads.push(255 - low);
            i = i + 1;
        }
        assert(mask_quads@ =~= quads(self@.wildcard()));
        format_quads(&mask_quads)
    }

    /// The network address in dotted-quad notation.
    pub fn get_network_portion(&self) -> (text: String)
        ensures
            text@ == dotted_quad(self@.network()),
    {
        self.network_calculation()
    }

    /// Writes the network address octet by octet.
    pub fn network_calculation(&self) -> (text: String)
        ensures
            text@ == dotted_quad(self@.network()),
    {
        let network_quads = self.get_network_portion_quads();
        format_quads(&network_quads)
    }

    /// The broadcast address in dotted-quad notation: each octet of the network address
    /// with the bits set that the subnet mask leaves to the host.
    pub fn get_broadcast_address(&self) -> (text: String)
        ensures
            text@ == dotted_quad(self@.broadcast()),
    {
        let network_quads = self.get_network_portion_quads();
        let mut broadcast_quads: Vec<u32> = Vec::new();
        let mut i: u32 = 0;
        while i < 4
            invariant
                i <= 4,
                network_quads@ == quads(self@.network()),
                broadcast_quads@.len() == i,
                forall|k: int|
                    0 <= k < i ==> broadcast_quads@[k] == octet(self@.broadcast(), k as u32),
            decreases 4 - i,
        {
            let shift: u32 = 24 - 8 * i;
            let shifted_mask = !(self.subnet_mask >> shift) & 0xFF;
            let quad = network_quads[i as usize];
            let broadcast_quad = quad | shifted_mask;
            proof {
                use_type_invariant(self);
                let a = self.address;
                let m = self.subnet_mask;
                assert(quad == octet(a & m, i));
                assert(broadcast_quad == octet((a & m) | !m, i)) by (bit_vector)
                    requires
                        i < 4,
                        shift == 24 - 8 * i,
                        quad == octet(a & m, i),
                        broadcast_quad == quad | (!(m >> shift) & 0xFF),
                ;
            }
            broadcast_quads.push(broadcast_quad);
            i = i + 1;
        }
        assert(broadcast_quads@ =~= quads(self@.broadcast()));
        format_quads(&broadcast_quads)
    }

    /// The first host address in dotted-quad notation.
    ///
    /// Up to 30 subnet bits it is the network address with its last octet raised by one.
    /// With 31 or 32 subnet bits no address is set aside, and it is the network address.
    pub fn get_first_ip_address(&self) -> (text: String)
        ensures
            text@ == dotted_quad(self@.first_host()),
    {
        let splits = self.get_ip_address_quads();
        let mut network_quads: Vec<u32> = Vec::new();
        let mut i: u32 = 0;
        while i < 4
            invariant
                i <= 4,
                splits@ == quads(self@.address),
                network_quads@.len() == i,
                forall|k: int|
                    0 <= k < i ==> network_quads@[k] == octet(self@.first_host(), k as u32),
            decreases 4 - i,
        {
            let shift: u32 = 24 - 8 * i;
            let subnet_mask_shifted = self.subnet_mask >> shift;
            let quad = splits[i as usize];
            let masked_quad = quad & subnet_mask_shifted;
            let raised = i == 3 && self.subnet_bits <= 30;
            proof {
                use_type_invariant(self);
                let a = self.address;
                let p = self.subnet_bits;
                let m = self.subnet_mask;
                let first = self@.first_host();
                assert(quad == octet(a, i));
                assert(masked_quad <= 255 && (raised ==> masked_quad < 255) && octet(first, i) == (
                if raised {
                    masked_quad + 1
                } else {
                    masked_quad as int
                })) by (bit_vector)
                    requires
                        i < 4,
                        p <= 32,
                        m == mask_of(p),
                        shift == 24 - 8 * i,
                        quad == octet(a, i),
                        masked_quad == quad & (m >> shift),
                        raised == (i == 3 && p <= 30),
                        first == (if p <= 30 {
                            ((a & m) + 1) as u32
                        } else {
                            a & m
                        }),
                ;
            }
            if raised {
                network_quads.push(masked_quad + 1);
            } else {
                network_quads.push(masked_quad);
            }
            i = i + 1;
        }
        assert(network_quads@ =~= quads(self@.first_host()));
        format_quads(&network_quads)
    }

    /// The last host address in dotted-quad notation.
    ///
    /// It lies above the network address by a number that is added octet by octet. Up to
    /// 30 subnet bits the number is one less than `get_number_ip_addresses` gives, which
    /// leads to the address before the broadcast address. With 31 or 32 subnet bits no
    /// address is set aside: the number is what `get_number_ip_addresses` gives, and the
    /// last host address is the broadcast address.
    pub fn get_last_ip_address(&self) -> (text: String)
        ensures
            text@ == dotted_quad(self@.last_host()),
    {
        let network_quads = self.get_network_portion_quads();
        let number_ip_addresses = self.get_number_ip_addresses();
        proof {
            use_type_invariant(self);
            lemma_wildcard_is_size_less_one(self@);
            lemma2_to64();
            if self.subnet_bits <= 30 {
                lemma_pow2_strictly_increases(1, (32 - self.subnet_bits) as nat);
            }
        }
        let span: u32 = if self.subnet_bits <= 30 {
            number_ip_addresses - 1
        } else {
            number_ip_addresses
        };
        let mut network_range_quads: Vec<u32> = Vec::new();
        let mut i: u32 = 0;
        while i < 4
            invariant
                i <= 4,
                network_quads@ == quads(self@.network()),
                span == (if self@.prefix_length <= 30 {
                    self@.wildcard() - 1
                } else {
                    self@.wildcard() as int
                }),
                network_range_quads@.len() == i,
                forall|k: int|
                    0 <= k < i ==> network_range_quads@[k] == octet(self@.last_host(), k as u32),
            decreases 4 - i,
        {
            let shift: u32 = 24 - 8 * i;
            let subnet_mask_shifted = self.subnet_mask >> shift;
            let quad = network_quads[i as usize];
            let masked_quad = quad & subnet_mask_shifted;
            let offset = (span >> shift) & 0xFF;
            proof {
                use_type_invariant(self);
                let a = self.address;
                let p = self.subnet_bits;
                let m = self.subnet_mask;
                let last = self@.last_host();
                assert(quad == octet(a & m, i));
                assert(masked_quad + offset <= 255 && octet(last, i) == masked_quad + offset)
                    by (bit_vector)
                    requires
                        i < 4,
                        p <= 32,
                        m == mask_of(p),
                        shift == 24 - 8 * i,
                        quad == octet(a & m, i),
                        masked_quad == quad & (m >> shift),
                        offset == (span >> shift) & 0xFF,
                        span == (if p <= 30 {
                            (!m) - 1
                        } else {
                            (!m) as int
                        }),
                        last == (if p <= 30 {
                            (((a & m) | !m) - 1) as u32
                        } else {
                            (a & m) | !m
                        }),
                ;
            }
            network_range_quads.push(masked_quad + offset);
            i = i + 1;
        }
        assert(network_range_quads@ =~= quads(self@.last_host()));
        format_quads(&network_range_quads)
    }

    /// Whether the two subnets share an address.
    pub fn overlaps(&self, other: &Ip) -> (answer: bool)
        ensures
            answer == self@.overlaps(other@),
    {
        proof {
            use_type_invariant(self);
            use_type_invariant(other);
            lemma_partly_contained_is_overlap(self@, other@);
        }
        networks_overlap(self.address, self.subnet_bits, other.address, other.subnet_bits)
    }
}

} // verus!
