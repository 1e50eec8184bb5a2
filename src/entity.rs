//! What a destination or gateway token denotes, and the address family of
//! a routing-table section.
use vstd::prelude::*;

verus! {

/// An IP address: IPv4 as its 32 bits, IPv6 as its 128 bits, most
/// significant first.
#[derive(Debug, Clone, Copy, PartialEq, Eq, Structural)]
pub enum IpAddress {
    V4(u32),
    V6(u128),
}

/// An IP network, or "any" network: an address and the number of leading
/// bits that are fixed.  A host is a network whose length is the address
/// width.
#[derive(Debug, Clone, Copy, PartialEq, Eq, Structural)]
pub enum Cidr {
    Any,
    V4 { addr: u32, len: u8 },
    V6 { addr: u128, len: u8 },
}

/// Why a network text was refused.
#[derive(Debug, Clone, Copy, PartialEq, Eq, Structural)]
pub enum CidrError {
    /// Bits are set in the address beyond the network length.
    InvalidHostPart,
    /// The address part is not an address.
    InvalidAddress,
    /// The network length is not a number.
    InvalidLength,
    /// The network length exceeds the address width.
    LengthTooLong,
}

/// Why a hardware-address text was refused.
#[derive(Debug, Clone, Copy, PartialEq, Eq, Structural)]
pub enum MacError {
    InvalidDigit,
    InvalidLength,
}

impl Cidr {
    /// The network length is within the address width.
    pub open spec fn wf(self) -> bool {
        match self {
            Cidr::Any => true,
            Cidr::V4 { len, .. } => len <= 32,
            Cidr::V6 { len, .. } => len <= 128,
        }
    }

    /// Whether `a` lies in this network.
    pub open spec fn spec_contains(self, a: IpAddress) -> bool {
        match (self, a) {
            (Cidr::Any, _) => true,
            (Cidr::V4 { addr, len }, IpAddress::V4(x)) => len == 0 || (len <= 32 && (x >> (32
                - len) as u32) == (addr >> (32 - len) as u32)),
            (Cidr::V6 { addr, len }, IpAddress::V6(x)) => len == 0 || (len <= 128 && (x >> (128
                - len) as u128) == (addr >> (128 - len) as u128)),
            _ => false,
        }
    }

    /// Whether `a` lies in this network.
    pub fn contains(&self, a: IpAddress) -> (r: bool)
        ensures
            r == self.spec_contains(a),
    {
        match (*self, a) {
            (Cidr::Any, _) => true,
            (Cidr::V4 { addr, len }, IpAddress::V4(x)) => {
                if len == 0 {
                    true
                } else if len > 32 {
                    false
                } else {
                    let sh: u32 = (32 - len) as u32;
                    (x >> sh) == (addr >> sh)
                }
            },
            (Cidr::V6 { addr, len }, IpAddress::V6(x)) => {
                if len == 0 {
                    true
                } else if len > 128 {
                    false
                } else {
                    let sh: u128 = (128 - len) as u128;
                    (x >> sh) == (addr >> sh)
                }
            },
            _ => false,
        }
    }

    /// The network length; `any` counts as length zero.
    pub open spec fn spec_prefix_len(self) -> int {
        match self {
            Cidr::Any => 0,
            Cidr::V4 { len, .. } => len as int,
            Cidr::V6 { len, .. } => len as int,
        }
    }

    /// The address of a concrete network; none for `any`.
    pub open spec fn spec_address(self) -> Option<IpAddress> {
        match self {
            Cidr::Any => None,
            Cidr::V4 { addr, .. } => Some(IpAddress::V4(addr)),
            Cidr::V6 { addr, .. } => Some(IpAddress::V6(addr)),
        }
    }

    pub fn address(&self) -> (r: Option<IpAddress>)
        ensures
            r == self.spec_address(),
    {
        match *self {
            Cidr::Any => None,
            Cidr::V4 { addr, .. } => Some(IpAddress::V4(addr)),
            Cidr::V6 { addr, .. } => Some(IpAddress::V6(addr)),
        }
    }
}

/// A generic network entity.
#[derive(Debug, Clone, PartialEq, Eq)]
pub enum Entity {
    /// The wildcard destination.
    Default,
    /// A network, or a single host.
    Cidr(Cidr),
    /// An interface-scoped reference such as `link#3`.
    Link(String),
    /// A hardware (MAC) address.
    Mac([u8; 6]),
}

pub enum EntityV {
    Default,
    Cidr(Cidr),
    Link(Seq<char>),
    Mac([u8; 6]),
}

impl View for Entity {
    type V = EntityV;

    open spec fn view(&self) -> EntityV {
        match self {
            Entity::Default => EntityV::Default,
            Entity::Cidr(c) => EntityV::Cidr(*c),
            Entity::Link(s) => EntityV::Link(s@),
            Entity::Mac(m) => EntityV::Mac(*m),
        }
    }
}

/// A network entity holds only networks within their address width.
pub open spec fn entity_wf(e: EntityV) -> bool {
    e matches EntityV::Cidr(c) ==> c.wf()
}

/// A destination or gateway: an entity and the zone that followed `%`.
#[derive(Debug, Clone, PartialEq, Eq)]
pub struct Destination {
    pub entity: Entity,
    pub zone: Option<String>,
}

pub struct DestinationV {
    pub entity: EntityV,
    pub zone: Option<Seq<char>>,
}

pub open spec fn opt_view(s: Option<String>) -> Option<Seq<char>> {
    match s {
        Some(z) => Some(z@),
        None => None,
    }
}

impl View for Destination {
    type V = DestinationV;

    open spec fn view(&self) -> DestinationV {
        DestinationV { entity: self.entity@, zone: opt_view(self.zone) }
    }
}

/// The address family of the section that a route appeared in.
#[derive(Debug, Clone, Copy, PartialEq, Eq, Structural)]
pub enum Protocol {
    V4,
    V6,
}

} // verus!
