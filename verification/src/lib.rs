//! IPv4 subnet arithmetic on blocks in CIDR notation, with machine-checked contracts.
//!
//! [`get_cidr_details`] derives the masks, the addresses and the host count of a block;
//! [`compare_cidr_networks`] decides whether two blocks overlap. Both read their blocks
//! with [`parse_cidr`], and every derivation is stated over the model in [`block`].

pub mod block;
pub mod cidr;
pub mod decimal;
pub mod ip;
pub mod mask;
pub mod overlap;
pub mod parse;
pub mod quad;

pub use cidr::{compare_cidr_networks, get_cidr_details, parse_cidr, IpRange};
pub use ip::Ip;
pub use parse::ParseError;
