//! The two questions asked of blocks in CIDR notation: what a block holds, and whether
//! two blocks overlap.

use crate::block::{lemma_overlaps_reflexive, CidrBlock};
use crate::ip::{block_of, Ip};
use crate::parse::{
    address_of, chars_of, cidr_of, find_from, lemma_first_index, parse_address, parse_prefix,
    prefix_of, ParseError, ParseErrorView,
};
use crate::quad::dotted_quad;
use vstd::prelude::*;
use vstd::string::*;

verus! {

/// The properties of a subnet: its masks and addresses in dotted-quad notation, and the
/// number of addresses that hosts can have.
#[derive(Debug, PartialEq, Eq)]
pub struct IpRange {
    pub subnet_mask: String,
    pub wildcard_mask: String,
    pub broadcast_address: String,
    pub network_address: String,
    pub first_ip: String,
    pub last_ip: String,
    pub assignable_hosts: u32,
}

/// An `IpRange` with its texts as sequences of characters.
pub struct IpRangeView {
    pub subnet_mask: Seq<char>,
    pub wildcard_mask: Seq<char>,
    pub broadcast_address: Seq<char>,
    pub network_address: Seq<char>,
    pub first_ip: Seq<char>,
    pub last_ip: Seq<char>,
    pub assignable_hosts: nat,
}

impl View for IpRange {
    type V = IpRangeView;

    open spec fn view(&self) -> IpRangeView {
        IpRangeView {
            subnet_mask: self.subnet_mask@,
            wildcard_mask: self.wildcard_mask@,
            broadcast_address: self.broadcast_address@,
            network_address: self.network_address@,
            first_ip: self.first_ip@,
            last_ip: self.last_ip@,
            assignable_hosts: self.assignable_hosts as nat,
        }
    }
}

/// The properties of a block.
pub open spec fn details_of(block: CidrBlock) -> IpRangeView {
    IpRangeView {
        subnet_mask: dotted_quad(block.mask()),
        wildcard_mask: dotted_quad(block.wildcard()),
        broadcast_address: dotted_quad(block.broadcast()),
        network_address: dotted_quad(block.network()),
        first_ip: dotted_quad(block.first_host()),
        last_ip: dotted_quad(block.last_host()),
        assignable_hosts: block.hosts(),
    }
}

/// Whether the blocks that two texts denote overlap, or what is wrong with the first
/// text that is at fault.
pub open spec fn overlap_of(left: Seq<char>, right: Seq<char>) -> Result<bool, ParseErrorView> {
    match cidr_of(left) {
        Err(e) => Err(e),
        Ok(left_block) => match cidr_of(right) {
            Err(e) => Err(e),
            Ok(right_block) => Ok(left_block.overlaps(right_block)),
        },
    }
}

/// A text made of an address part without `/`, a `/` and a prefix part is read part by
/// part; where the prefix part is a prefix length, it denotes what `Ip::new` makes of the
/// address part and that length.
pub proof fn lemma_cidr_of_parts(address: Seq<char>, prefix: Seq<char>)
    requires
        forall|i: int| 0 <= i < address.len() ==> address[i] != '/',
    ensures
        cidr_of(address + seq!['/'] + prefix) == (match address_of(address) {
            None => Err::<CidrBlock, ParseErrorView>(ParseErrorView::MalformedAddress(address)),
            Some(word) => match prefix_of(prefix) {
                None => Err(ParseErrorView::MalformedPrefix(prefix)),
                Some(prefix_length) => Ok(CidrBlock { address: word, prefix_length }),
            },
        }),
        prefix_of(prefix) matches Some(n) ==> cidr_of(address + seq!['/'] + prefix) == block_of(
            address,
            n,
        ),
{
    let text = address + seq!['/'] + prefix;
    lemma_first_index(text, '/', address.len() as int);
    assert(text.take(address.len() as int) =~= address);
    assert(text.skip(address.len() as int + 1) =~= prefix);
}

/// Whether two well-formed texts denote overlapping blocks does not depend on the order
/// in which they are given.
pub proof fn lemma_comparison_symmetric(left: Seq<char>, right: Seq<char>)
    requires
        cidr_of(left) is Ok,
        cidr_of(right) is Ok,
    ensures
        overlap_of(left, right) == overlap_of(right, left),
{
}

/// The block that a well-formed text denotes overlaps itself.
pub proof fn lemma_comparison_reflexive(text: Seq<char>)
    requires
        cidr_of(text) is Ok,
    ensures
        overlap_of(text, text) == Ok::<bool, ParseErrorView>(true),
{
    lemma_overlaps_reflexive(cidr_of(text)->Ok_0);
}

/// Reads a block in CIDR notation, `A.B.C.D/N`.
///
/// The first `/` parts the address from the prefix length; a text without one fails with
/// `MissingSeparator`. The address is four numerals from 0 to 255 with a dot between
/// neighbours, else the text fails with `MalformedAddress`. The prefix length is a numeral
/// from 0 to 32, else the text fails with `MalformedPrefix`. Each error holds the part of
/// the text that it is about.
pub fn parse_cidr(cidr: &str) -> (parsed: Result<Ip, ParseError>)
    ensures
        match parsed {
            Ok(ip) => cidr_of(cidr@) == Ok::<CidrBlock, ParseErrorView>(ip@),
            Err(e) => cidr_of(cidr@) == Err::<CidrBlock, ParseErrorView>(e@),
        },
{
    let chars = chars_of(cidr);
    let n = chars.len();
    assert(chars@.skip(0) =~= cidr@);
    let slash = find_from(&chars, 0, '/');
    if slash == n {
        return Err(ParseError::MissingSeparator(cidr.to_owned()));
    }
    let address_text = cidr.substring_char(0, slash);
    let prefix_text = cidr.substring_char(slash + 1, n);
    assert(address_text@ =~= cidr@.take(slash as int));
    assert(prefix_text@ =~= cidr@.skip(slash + 1));
    match parse_address(address_text) {
        Err(e) => Err(e),
        Ok(address) => match parse_prefix(prefix_text) {
            Err(e) => Err(e),
            Ok(subnet_bits) => Ok(Ip::from_parts(address, subnet_bits)),
        },
    }
}

/// The properties of the subnet that a text in CIDR notation denotes.
///
/// Fails as `parse_cidr` does where the text is not in CIDR notation.
pub fn get_cidr_details(cidr: &str) -> (details: Result<IpRange, ParseError>)
    ensures
        match details {
            Ok(range) => cidr_of(cidr@) matches Ok(block) && range@ == details_of(block),
            Err(e) => cidr_of(cidr@) == Err::<CidrBlock, ParseErrorView>(e@),
        },
{
    let ip = match parse_cidr(cidr) {
        Ok(ip) => ip,
        Err(e) => {
            return Err(e);
        },
    };
    let ip_range = IpRange {
        subnet_mask: ip.get_subnet_mask(),
        wildcard_mask: ip.get_wildcard_mask(),
        broadcast_address: ip.get_broadcast_address(),
        network_address: ip.get_network_portion(),
        first_ip: ip.get_first_ip_address(),
        last_ip: ip.get_last_ip_address(),
        assignable_hosts: ip.get_assignable_hosts(),
    };
    Ok(ip_range)
}

/// Whether the subnets that two texts in CIDR notation denote share an address.
///
/// Fails as `parse_cidr` does on the left text, and else as it does on the right text.
pub fn compare_cidr_networks(left_cidr: &str, right_cidr: &str) -> (answer: Result<
    bool,
    ParseError,
>)
    ensures
        match answer {
            Ok(overlap) => overlap_of(left_cidr@, right_cidr@) == Ok::<bool, ParseErrorView>(
                overlap,
            ),
            Err(e) => overlap_of(left_cidr@, right_cidr@) == Err::<bool, ParseErrorView>(e@),
        },
{
    let left_network = match parse_cidr(left_cidr) {
        Ok(ip) => ip,
        Err(e) => {
            return Err(e);
        },
    };
    let right_network = match parse_cidr(right_cidr) {
        Ok(ip) => ip,
        Err(e) => {
            return Err(e);
        },
    };
    Ok(left_network.overlaps(&right_network))
}

} // verus!
