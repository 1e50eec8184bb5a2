//! One route of the table: its fields, how a line of text becomes one, and
//! which addresses it applies to.
use vstd::prelude::*;

use crate::address::{destination_of, parse_destination};
use crate::entity::{entity_wf, Cidr, CidrError, Destination, DestinationV, Entity, EntityV, IpAddress, MacError, Protocol};
use crate::flags::{flag_set, parse_flags, RoutingFlag};
use crate::text::{decimal, fields, parse_decimal, split_fields, str_eq, views, NumberError};

verus! {

/// Why a route line, or a token in it, could not be read.
#[derive(Debug, Clone, PartialEq, Eq)]
pub enum Error {
    /// A network text that the network parser refused.
    ParseDestination { value: String, err: CidrError },
    /// A token that is neither an IPv4 nor an IPv6 host nor a hardware address.
    ParseMacAddr { dest: String, err: MacError },
    /// A component of a short IPv4 form that is not a byte.
    ParseIPv4AddrBadInt { addr: String, err: NumberError },
    /// A short IPv4 form with a number of components other than one to three.
    ParseIPv4AddrNComps { n_comps: usize, addr: String },
    /// An `Expire` value that is neither `!` nor a count of seconds.
    ParseExpiration { expiration: String, err: NumberError },
    MissingDestination,
    MissingGateway,
    MissingInterface,
}

pub enum ErrorV {
    ParseDestination { value: Seq<char>, err: CidrError },
    ParseMacAddr { dest: Seq<char>, err: MacError },
    ParseIPv4AddrBadInt { addr: Seq<char>, err: NumberError },
    ParseIPv4AddrNComps { n_comps: nat, addr: Seq<char> },
    ParseExpiration { expiration: Seq<char>, err: NumberError },
    MissingDestination,
    MissingGateway,
    MissingInterface,
}

impl View for Error {
    type V = ErrorV;

    open spec fn view(&self) -> ErrorV {
        match self {
            Error::ParseDestination { value, err } => ErrorV::ParseDestination {
                value: value@,
                err: *err,
            },
            Error::ParseMacAddr { dest, err } => ErrorV::ParseMacAddr { dest: dest@, err: *err },
            Error::ParseIPv4AddrBadInt { addr, err } => ErrorV::ParseIPv4AddrBadInt {
                addr: addr@,
                err: *err,
            },
            Error::ParseIPv4AddrNComps { n_comps, addr } => ErrorV::ParseIPv4AddrNComps {
                n_comps: *n_comps as nat,
                addr: addr@,
            },
            Error::ParseExpiration { expiration, err } => ErrorV::ParseExpiration {
                expiration: expiration@,
                err: *err,
            },
            Error::MissingDestination => ErrorV::MissingDestination,
            Error::MissingGateway => ErrorV::MissingGateway,
            Error::MissingInterface => ErrorV::MissingInterface,
        }
    }
}

/// A single route of the `netstat -rn` output.
#[derive(Debug, Clone, PartialEq, Eq)]
pub struct RouteEntry {
    /// The family of the section that the route appeared in.
    pub proto: Protocol,
    /// Where the route leads: a network, a host or the wildcard.
    pub dest: Destination,
    /// How the destination is reached.
    pub gateway: Destination,
    /// The route's attributes, each once.
    pub flags: Vec<RoutingFlag>,
    /// The network interface that holds the route.
    pub net_if: String,
    /// Seconds until the route expires, for entries learned by address
    /// resolution; none for a route that does not expire.
    pub expires: Option<u64>,
}

pub struct RouteEntryV {
    pub proto: Protocol,
    pub dest: DestinationV,
    pub gateway: DestinationV,
    pub flags: Set<RoutingFlag>,
    pub net_if: Seq<char>,
    pub expires: Option<u64>,
}

impl View for RouteEntry {
    type V = RouteEntryV;

    open spec fn view(&self) -> RouteEntryV {
        RouteEntryV {
            proto: self.proto,
            dest: self.dest@,
            gateway: self.gateway@,
            flags: self.flags@.to_set(),
            net_if: self.net_if@,
            expires: self.expires,
        }
    }
}

/// An `Expire` value: `!` for none, else a count of seconds.
pub open spec fn expire_of(s: Seq<char>) -> Result<Option<u64>, ErrorV> {
    if s == "!"@ {
        Ok(None)
    } else {
        match decimal(s, u64::MAX as int) {
            Ok(v) => Ok(Some(v as u64)),
            Err(e) => Err(ErrorV::ParseExpiration { expiration: s, err: e }),
        }
    }
}

/// Reads an `Expire` value (see [`expire_of`]).
pub fn parse_expire(s: &str) -> (r: Result<Option<u64>, Error>)
    ensures
        match r {
            Ok(x) => expire_of(s@) == Ok::<Option<u64>, ErrorV>(x),
            Err(e) => expire_of(s@) == Err::<Option<u64>, ErrorV>(e@),
        },
{
    if str_eq(s, "!") {
        Ok(None)
    } else {
        match parse_decimal(s, u64::MAX) {
            Ok(v) => Ok(Some(v)),
            Err(err) => Err(Error::ParseExpiration { expiration: s.to_owned(), err }),
        }
    }
}

/// What the columns of a line read so far have given.
pub struct LineState {
    pub dest: Option<DestinationV>,
    pub gateway: Option<DestinationV>,
    pub flags: Seq<char>,
    pub net_if: Option<Seq<char>>,
    pub expires: Option<u64>,
}

pub open spec fn empty_line_state() -> LineState {
    LineState { dest: None, gateway: None, flags: Seq::empty(), net_if: None, expires: None }
}

/// Takes one column, named `header`, with the text `field`.
pub open spec fn column_step(st: LineState, header: Seq<char>, field: Seq<char>) -> Result<
    LineState,
    ErrorV,
> {
    if header == "Destination"@ {
        match destination_of(field) {
            Ok(d) => Ok(LineState { dest: Some(d), ..st }),
            Err(e) => Err(e),
        }
    } else if header == "Gateway"@ {
        match destination_of(field) {
            Ok(d) => Ok(LineState { gateway: Some(d), ..st }),
            Err(e) => Err(e),
        }
    } else if header == "Flags"@ {
        Ok(LineState { flags: field, ..st })
    } else if header == "Netif"@ {
        Ok(LineState { net_if: Some(field), ..st })
    } else if header == "Expire"@ {
        match expire_of(field) {
            Ok(x) => Ok(LineState { expires: x, ..st }),
            Err(e) => Err(e),
        }
    } else {
        Ok(st)
    }
}

/// Takes the first `m` columns, stopping at the first error.
pub open spec fn scan_columns(h: Seq<Seq<char>>, f: Seq<Seq<char>>, m: nat) -> Result<
    LineState,
    ErrorV,
>
    decreases m,
{
    if m == 0 {
        Ok(empty_line_state())
    } else {
        match scan_columns(h, f, (m - 1) as nat) {
            Err(e) => Err(e),
            Ok(st) => column_step(st, h[m - 1], f[m - 1]),
        }
    }
}

pub open spec fn min_len(a: nat, b: nat) -> nat {
    if a <= b {
        a
    } else {
        b
    }
}

/// The route that a data line gives under `headers`: each whitespace field
/// is read under the header at its position, fields past the headers are
/// ignored, and destination, gateway and interface must all be present.
pub open spec fn route_of(proto: Protocol, line: Seq<char>, headers: Seq<Seq<char>>) -> Result<
    RouteEntryV,
    ErrorV,
> {
    let f = fields(line);
    match scan_columns(headers, f, min_len(headers.len(), f.len())) {
        Err(e) => Err(e),
        Ok(st) => if st.dest is None {
            Err(ErrorV::MissingDestination)
        } else if st.gateway is None {
            Err(ErrorV::MissingGateway)
        } else if st.net_if is None {
            Err(ErrorV::MissingInterface)
        } else {
            Ok(
                RouteEntryV {
                    proto,
                    dest: st.dest->0,
                    gateway: st.gateway->0,
                    flags: flag_set(st.flags),
                    net_if: st.net_if->0,
                    expires: st.expires,
                },
            )
        },
    }
}

pub open spec fn opt_dest_view(d: Option<Destination>) -> Option<DestinationV> {
    match d {
        Some(x) => Some(x@),
        None => None,
    }
}

pub open spec fn opt_string_view(d: Option<String>) -> Option<Seq<char>> {
    match d {
        Some(x) => Some(x@),
        None => None,
    }
}

impl RouteEntry {
    /// Parses one data line of a section of family `proto` whose column
    /// names are `headers` (see [`route_of`]).
    pub fn parse(proto: Protocol, line: &str, headers: &[&str]) -> (r: Result<Self, Error>)
        ensures
            match r {
                Ok(e) => route_of(proto, line@, views(headers@)) == Ok::<RouteEntryV, ErrorV>(
                    e@,
                ),
                Err(x) => route_of(proto, line@, views(headers@)) == Err::<RouteEntryV, ErrorV>(
                    x@,
                ),
            },
            r matches Ok(e) ==> route_wf(e@),
    {
        let fs = split_fields(line);
        let ghost h = views(headers@);
        let ghost f = views(fs@);
        let m = if headers.len() <= fs.len() {
            headers.len()
        } else {
            fs.len()
        };
        let mut dest: Option<Destination> = None;
        let mut gateway: Option<Destination> = None;
        let mut flag_text: &str = "";
        let mut net_if: Option<String> = None;
        let mut expires: Option<u64> = None;
        proof {
            reveal_strlit("");
            assert(flag_text@ =~= Seq::<char>::empty());
        }
        let mut i: usize = 0;
        while i < m
            invariant
                h == views(headers@),
                f == views(fs@),
                f == fields(line@),
                m == min_len(h.len(), f.len()),
                i <= m,
                dest matches Some(d) ==> entity_wf(d.entity@),
                gateway matches Some(d) ==> entity_wf(d.entity@),
                scan_columns(h, f, i as nat) == Ok::<LineState, ErrorV>(
                    LineState {
                        dest: opt_dest_view(dest),
                        gateway: opt_dest_view(gateway),
                        flags: flag_text@,
                        net_if: opt_string_view(net_if),
                        expires,
                    },
                ),
            decreases m - i,
        {
            let hd = headers[i];
            let fd = fs[i];
            assert(h[i as int] == hd@ && f[i as int] == fd@);
            if str_eq(hd, "Destination") {
                match parse_destination(fd) {
                    Ok(d) => {
                        dest = Some(d);
                    },
                    Err(e) => {
                        proof {
                            lemma_scan_columns_err(h, f, (i + 1) as nat, m as nat);
                        }
                        return Err(e);
                    },
                }
            } else if str_eq(hd, "Gateway") {
                match parse_destination(fd) {
                    Ok(d) => {
                        gateway = Some(d);
                    },
                    Err(e) => {
                        proof {
                            lemma_scan_columns_err(h, f, (i + 1) as nat, m as nat);
                        }
                        return Err(e);
                    },
                }
            } else if str_eq(hd, "Flags") {
                flag_text = fd;
            } else if str_eq(hd, "Netif") {
                net_if = Some(fd.to_owned());
            } else if str_eq(hd, "Expire") {
                match parse_expire(fd) {
                    Ok(x) => {
                        expires = x;
                    },
                    Err(e) => {
                        proof {
                            lemma_scan_columns_err(h, f, (i + 1) as nat, m as nat);
                        }
                        return Err(e);
                    },
                }
            }
            i += 1;
        }
        let flags = parse_flags(flag_text);
        match (dest, gateway, net_if) {
            (None, _, _) => Err(Error::MissingDestination),
            (Some(_), None, _) => Err(Error::MissingGateway),
            (Some(_), Some(_), None) => Err(Error::MissingInterface),
            (Some(dest), Some(gateway), Some(net_if)) => Ok(
                RouteEntry { proto, dest, gateway, flags, net_if, expires },
            ),
        }
    }
}

/// The networks of destination and gateway are within their address width.
pub open spec fn route_wf(r: RouteEntryV) -> bool {
    entity_wf(r.dest.entity) && entity_wf(r.gateway.entity)
}

/// Whether a route can carry traffic for `a`: a network destination that
/// holds `a`, or a wildcard destination with an address gateway in the
/// family of `a` (the family of the section, not of the gateway).
pub open spec fn applies(r: RouteEntryV, a: IpAddress) -> bool {
    match r.dest.entity {
        EntityV::Cidr(c) => c.spec_contains(a),
        EntityV::Default => r.gateway.entity is Cidr && match a {
            IpAddress::V4(_) => r.proto == Protocol::V4,
            IpAddress::V6(_) => r.proto == Protocol::V6,
        },
        _ => false,
    }
}

/// How specific a route's destination is: its network length, and below
/// all of them the wildcard.
pub open spec fn precision(r: RouteEntryV) -> int {
    match r.dest.entity {
        EntityV::Cidr(c) => c.spec_prefix_len(),
        _ => -1,
    }
}

impl RouteEntry {
    /// Whether this route's destination is appropriate for `addr`.
    pub fn contains(&self, addr: IpAddress) -> (r: bool)
        ensures
            r == applies(self@, addr),
    {
        match &self.dest.entity {
            Entity::Cidr(c) => c.contains(addr),
            Entity::Default => match &self.gateway.entity {
                Entity::Cidr(_) => match addr {
                    IpAddress::V4(_) => self.proto == Protocol::V4,
                    IpAddress::V6(_) => self.proto == Protocol::V6,
                },
                _ => false,
            },
            _ => false,
        }
    }

    pub fn precision_of(&self) -> (r: i16)
        ensures
            r as int == precision(self@),
    {
        match &self.dest.entity {
            Entity::Cidr(Cidr::Any) => 0,
            Entity::Cidr(Cidr::V4 { len, .. }) => *len as i16,
            Entity::Cidr(Cidr::V6 { len, .. }) => *len as i16,
            _ => -1,
        }
    }

    /// The more specific of two routes; `self` when they are equally
    /// specific.
    pub fn most_precise<'a>(&'a self, other: &'a RouteEntry) -> (r: &'a RouteEntry)
        ensures
            r == (if precision(other@) > precision(self@) {
                other
            } else {
                self
            }),
    {
        if other.precision_of() > self.precision_of() {
            other
        } else {
            self
        }
    }
}

/// Once the scan of the first `k` columns fails, the scan of more fails the
/// same way.
pub proof fn lemma_scan_columns_err(h: Seq<Seq<char>>, f: Seq<Seq<char>>, k: nat, m: nat)
    requires
        k <= m,
        scan_columns(h, f, k) is Err,
    ensures
        scan_columns(h, f, m) == scan_columns(h, f, k),
    decreases m,
{
    if m > k {
        lemma_scan_columns_err(h, f, k, (m - 1) as nat);
    }
}

} // verus!
