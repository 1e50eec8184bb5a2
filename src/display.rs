//! Text forms of entities, destinations and routes, as `netstat` would
//! print them.
use vstd::prelude::*;

use crate::entity::{entity_wf, Cidr, Destination, Entity, EntityV, IpAddress, Protocol};
use crate::route_entry::{RouteEntry, RouteEntryV};

verus! {

/// What `cidr` prints for an address with a network length.
pub uninterp spec fn inet_text(a: IpAddress, len: u8) -> Seq<char>;

pub open spec fn width(a: IpAddress) -> u8 {
    match a {
        IpAddress::V4(_) => 32,
        IpAddress::V6(_) => 128,
    }
}

/// Relies on the `Display` of `cidr::Ipv4Inet` and `cidr::Ipv6Inet`: the
/// address, then `/` and the length unless the length is the full width.
#[verifier::external_body]
fn format_inet(a: IpAddress, len: u8) -> (r: String)
    requires
        len <= width(a),
    ensures
        r@ == inet_text(a, len),
{
    match a {
        IpAddress::V4(x) => cidr::Ipv4Inet::new(x.into(), len).unwrap().to_string(),
        IpAddress::V6(x) => cidr::Ipv6Inet::new(x.into(), len).unwrap().to_string(),
    }
}

pub open spec fn hex_char(n: int) -> char {
    if n < 10 {
        ('0' as int + n) as char
    } else {
        ('a' as int + n - 10) as char
    }
}

/// A byte as two lower-case hexadecimal digits.
pub open spec fn hex_pair(b: u8) -> Seq<char> {
    seq![hex_char(b as int / 16), hex_char(b as int % 16)]
}

/// Relies on `format!` with `{:02x}`: two lower-case hexadecimal digits,
/// zero-padded.
#[verifier::external_body]
fn format_hex_pair(b: u8) -> (r: String)
    ensures
        r@ == hex_pair(b),
{
    format!("{b:02x}")
}

/// Bytes in hexadecimal pairs separated by `:`.
pub open spec fn hex_join(m: Seq<u8>) -> Seq<char>
    decreases m.len(),
{
    if m.len() == 0 {
        Seq::empty()
    } else if m.len() == 1 {
        hex_pair(m[0])
    } else {
        hex_join(m.drop_last()) + seq![':'] + hex_pair(m.last())
    }
}

pub open spec fn cidr_wf_text(c: Cidr) -> Seq<char> {
    match c {
        Cidr::Any => "any"@,
        Cidr::V4 { addr, len } => inet_text(IpAddress::V4(addr), len),
        Cidr::V6 { addr, len } => inet_text(IpAddress::V6(addr), len),
    }
}

/// The text of an entity: `default`, the network (`any` for any network,
/// the bare address for a host), the interface reference as it was read,
/// or the hardware address in hexadecimal pairs.
pub open spec fn entity_text(e: EntityV) -> Seq<char> {
    match e {
        EntityV::Default => "default"@,
        EntityV::Cidr(c) => cidr_wf_text(c),
        EntityV::Link(s) => s,
        EntityV::Mac(m) => hex_join(m@),
    }
}

pub open spec fn proto_text(p: Protocol) -> Seq<char> {
    match p {
        Protocol::V4 => "V4"@,
        Protocol::V6 => "V6"@,
    }
}

/// The text of a route: family, destination, gateway and interface, as
/// `V4(dest -> gateway if=en0`.
pub open spec fn route_text(r: RouteEntryV) -> Seq<char> {
    proto_text(r.proto) + "("@ + entity_text(r.dest.entity) + " -> "@ + entity_text(
        r.gateway.entity,
    ) + " if="@ + r.net_if
}

impl Entity {
    /// The text of this entity (see [`entity_text`]).
    pub fn to_text(&self) -> (r: String)
        requires
            entity_wf(self@),
        ensures
            r@ == entity_text(self@),
    {
        match self {
            Entity::Default => String::from_str("default"),
            Entity::Cidr(Cidr::Any) => String::from_str("any"),
            Entity::Cidr(Cidr::V4 { addr, len }) => format_inet(IpAddress::V4(*addr), *len),
            Entity::Cidr(Cidr::V6 { addr, len }) => format_inet(IpAddress::V6(*addr), *len),
            Entity::Link(s) => s.clone(),
            Entity::Mac(m) => {
                let mut out = String::new();
                let mut i: usize = 0;
                while i < 6
                    invariant
                        i <= 6,
                        m@.len() == 6,
                        out@ == hex_join(m@.subrange(0, i as int)),
                    decreases 6 - i,
                {
                    proof {
                        let cur = m@.subrange(0, i as int + 1);
                        assert(cur.drop_last() =~= m@.subrange(0, i as int));
                        assert(cur.last() == m@[i as int]);
                        reveal_strlit(":");
                    }
                    let pair = format_hex_pair(m[i]);
                    if i > 0 {
                        out.append(":");
                    } else {
                        proof {
                            assert(out@ =~= Seq::<char>::empty());
                        }
                    }
                    out.append(pair.as_str());
                    proof {
                        if i == 0 {
                            assert(out@ =~= hex_pair(m@[0]));
                        } else {
                            assert(":"@ =~= seq![':']);
                        }
                    }
                    i += 1;
                }
                proof {
                    assert(m@.subrange(0, 6) =~= m@);
                }
                out
            },
        }
    }
}

impl Destination {
    /// The text of this destination's entity; the zone is not shown.
    pub fn to_text(&self) -> (r: String)
        requires
            entity_wf(self.entity@),
        ensures
            r@ == entity_text(self.entity@),
    {
        self.entity.to_text()
    }
}

impl RouteEntry {
    /// The text of this route (see [`route_text`]).
    pub fn to_text(&self) -> (r: String)
        requires
            entity_wf(self.dest.entity@),
            entity_wf(self.gateway.entity@),
        ensures
            r@ == route_text(self@),
    {
        let mut out = match self.proto {
            Protocol::V4 => String::from_str("V4"),
            Protocol::V6 => String::from_str("V6"),
        };
        out.append("(");
        let d = self.dest.to_text();
        out.append(d.as_str());
        out.append(" -> ");
        let g = self.gateway.to_text();
        out.append(g.as_str());
        out.append(" if=");
        out.append(self.net_if.as_str());
        out
    }
}

} // verus!
