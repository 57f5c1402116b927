//! Entity/wire codec for kernel network configuration: interfaces (links),
//! IP addresses and routes, converted to and from netlink-shaped messages,
//! plus the per-request decisions (family dispatch, table and scope
//! filtering) that surround each netlink transaction.
use vstd::prelude::*;

pub mod address;
pub mod check;
pub mod link;
pub mod route;
pub mod util;

verus! {

/// Address family number of IPv4 (`AF_INET`).
pub const AF_INET: u8 = 2;

/// Address family number of IPv6 (`AF_INET6`).
pub const AF_INET6: u8 = 10;

/// Everything that can make a single operation fail.
#[derive(Debug, Clone, PartialEq, Eq)]
pub enum Error {
    /// An address-typed attribute is neither 4 nor 16 bytes long.
    MalformedAddress,
    /// An address's length disagrees with the message's address family.
    FamilyMismatch,
    /// A link kind that has no wire encoding (the catch-all `Other`).
    UnsupportedKind,
    /// A route family that is neither IPv4 nor IPv6.
    UnsupportedFamily,
    /// An address was to be added without an address value.
    MissingAddress,
    /// The netlink session failed, or the kernel answered with an error;
    /// carries the kernel's text verbatim.
    Netlink(String),
}

} // verus!
