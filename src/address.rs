//! Classification of one address-like token: the wildcard, a network or
//! host (including the short IPv4 forms of `inet_addr`), an interface
//! reference or a hardware address, with an optional `%` zone.
use vstd::prelude::*;

use crate::entity::{entity_wf, Cidr, CidrError, Destination, DestinationV, Entity, EntityV, MacError};
use crate::route_entry::{Error, ErrorV};
use crate::text::{
    decimal, find_char, parse_decimal, scan_decimal, split_on,
    split_str, starts_with, str_eq, contains_char, views, NumberError,
};

verus! {

/// What `cidr` reads from a network text.
pub uninterp spec fn cidr_text(s: Seq<char>) -> Result<Cidr, CidrError>;

/// What `mac_address` reads from a hardware-address text.
pub uninterp spec fn mac_text(s: Seq<char>) -> Result<[u8; 6], MacError>;

/// Relies on `<cidr::AnyIpCidr as FromStr>::from_str`: `any`, an address
/// (taken as a host), or an address (short IPv4 forms allowed) with `/` and
/// a network length no larger than the address width.
#[verifier::external_body]
fn parse_any_cidr(s: &str) -> (r: Result<Cidr, CidrError>)
    ensures
        r == cidr_text(s@),
        r matches Ok(c) ==> c.wf(),
{
    match s.parse::<cidr::AnyIpCidr>() {
        Ok(cidr::AnyIpCidr::Any) => Ok(Cidr::Any),
        Ok(cidr::AnyIpCidr::V4(c)) => Ok(Cidr::V4 { addr: c.first_address().into(), len: c.network_length() }),
        Ok(cidr::AnyIpCidr::V6(c)) => Ok(Cidr::V6 { addr: c.first_address().into(), len: c.network_length() }),
        Err(cidr::errors::NetworkParseError::InvalidHostPart) => Err(CidrError::InvalidHostPart),
        Err(cidr::errors::NetworkParseError::AddrParseError(_)) => Err(CidrError::InvalidAddress),
        Err(cidr::errors::NetworkParseError::NetworkLengthParseError(_)) => Err(CidrError::InvalidLength),
        Err(cidr::errors::NetworkParseError::NetworkLengthTooLongError(_)) => Err(CidrError::LengthTooLong),
    }
}

/// Relies on `<mac_address::MacAddress as FromStr>::from_str`: the six
/// bytes that the text spells.
#[verifier::external_body]
fn parse_mac(s: &str) -> (r: Result<[u8; 6], MacError>)
    ensures
        r == mac_text(s@),
{
    match s.parse::<mac_address::MacAddress>() {
        Ok(m) => Ok(m.bytes()),
        Err(mac_address::MacParseError::InvalidDigit) => Err(MacError::InvalidDigit),
        Err(mac_address::MacParseError::InvalidLength) => Err(MacError::InvalidLength),
    }
}

/// Relies on `str::replace`: each `.` becomes `:`, every other character stays.
#[verifier::external_body]
fn dots_to_colons(s: &str) -> (r: String)
    ensures
        r@ == dots_as_colons(s@),
{
    s.replace('.', ":")
}

pub open spec fn dots_as_colons(s: Seq<char>) -> Seq<char> {
    s.map_values(|c: char| if c == '.' { ':' } else { c })
}

/// One component of a strict dotted quad: one to three digits, no leading
/// zero, at most 255.
pub open spec fn strict_octet(t: Seq<char>) -> bool {
    1 <= t.len() <= 3 && (t.len() == 1 || t[0] != '0') && scan_decimal(t, 255) is Ok
}

pub open spec fn octet_value(t: Seq<char>) -> int {
    scan_decimal(t, 255)->Ok_0
}

pub open spec fn byte_value(t: Seq<char>) -> int {
    decimal(t, 255)->Ok_0
}

pub open spec fn quad(a: int, b: int, c: int, d: int) -> u32 {
    (a * 0x1000000 + b * 0x10000 + c * 0x100 + d) as u32
}

/// The standard IPv4 text form: exactly four strict components.
pub open spec fn dotted_quad(s: Seq<char>) -> Option<u32> {
    let p = split_on(s, '.');
    if p.len() == 4 && strict_octet(p[0]) && strict_octet(p[1]) && strict_octet(p[2])
        && strict_octet(p[3]) {
        Some(quad(octet_value(p[0]), octet_value(p[1]), octet_value(p[2]), octet_value(p[3])))
    } else {
        None
    }
}

/// The error of the first component that is not a byte, if any.
pub open spec fn first_bad_byte(p: Seq<Seq<char>>) -> Option<NumberError>
    decreases p.len(),
{
    if p.len() == 0 {
        None
    } else {
        match first_bad_byte(p.drop_last()) {
            Some(e) => Some(e),
            None => match decimal(p.last(), 255) {
                Err(e) => Some(e),
                Ok(_) => None,
            },
        }
    }
}

/// IPv4 as `inet_addr` reads it: a standard dotted quad, or one to three
/// byte components placed as `a` = 0.0.0.a, `a.b` = a.0.0.b and
/// `a.b.c` = a.b.0.c.
pub open spec fn legacy_ipv4(s: Seq<char>) -> Result<u32, ErrorV> {
    match dotted_quad(s) {
        Some(a) => Ok(a),
        None => {
            let p = split_on(s, '.');
            match first_bad_byte(p) {
                Some(e) => Err(ErrorV::ParseIPv4AddrBadInt { addr: s, err: e }),
                None => if p.len() == 1 {
                    Ok(quad(0, 0, 0, byte_value(p[0])))
                } else if p.len() == 2 {
                    Ok(quad(byte_value(p[0]), 0, 0, byte_value(p[1])))
                } else if p.len() == 3 {
                    Ok(quad(byte_value(p[0]), byte_value(p[1]), 0, byte_value(p[2])))
                } else {
                    Err(ErrorV::ParseIPv4AddrNComps { n_comps: p.len(), addr: s })
                },
            }
        },
    }
}

fn strict_octet_value(t: &str) -> (r: Option<u8>)
    ensures
        r is Some <==> strict_octet(t@),
        r matches Some(v) ==> v as int == octet_value(t@),
{
    let n = t.unicode_len();
    if n < 1 || n > 3 {
        return None;
    }
    let c0 = t.get_char(0);
    if c0 == '+' || (n > 1 && c0 == '0') {
        proof {
            if c0 == '+' {
                crate::text::lemma_scan_decimal_err(t@, 1, 255);
                assert(t@.subrange(0, 1).drop_last() =~= Seq::<char>::empty());
            }
        }
        return None;
    }
    match parse_decimal(t, 255) {
        Ok(v) => Some(v as u8),
        Err(_) => None,
    }
}

/// Reads the standard IPv4 text form `a.b.c.d`.
pub fn parse_dotted_quad(s: &str) -> (r: Option<u32>)
    ensures
        r == dotted_quad(s@),
{
    let parts = split_str(s, '.');
    if parts.len() != 4 {
        return None;
    }
    let a = strict_octet_value(parts[0]);
    let b = strict_octet_value(parts[1]);
    let c = strict_octet_value(parts[2]);
    let d = strict_octet_value(parts[3]);
    match (a, b, c, d) {
        (Some(a), Some(b), Some(c), Some(d)) => Some(
            (a as u32) * 0x1000000 + (b as u32) * 0x10000 + (c as u32) * 0x100 + d as u32,
        ),
        _ => None,
    }
}

/// Reads an IPv4 host address as `inet_addr` does (see [`legacy_ipv4`]).
pub fn parse_ipv4dest(dest: &str) -> (r: Result<u32, Error>)
    ensures
        match r {
            Ok(a) => legacy_ipv4(dest@) == Ok::<u32, ErrorV>(a),
            Err(e) => legacy_ipv4(dest@) == Err::<u32, ErrorV>(e@),
        },
{
    if let Some(a) = parse_dotted_quad(dest) {
        return Ok(a);
    }
    let parts = split_str(dest, '.');
    let ghost p = views(parts@);
    let mut bytes: Vec<u8> = Vec::new();
    let mut i: usize = 0;
    while i < parts.len()
        invariant
            p == views(parts@),
            p == split_on(dest@, '.'),
            dotted_quad(dest@) is None,
            i <= parts.len(),
            bytes.len() == i,
            first_bad_byte(p.subrange(0, i as int)) is None,
            forall|j: int| 0 <= j < i ==> bytes@[j] as int == byte_value(#[trigger] p[j]),
        decreases parts.len() - i,
    {
        proof {
            assert(p.subrange(0, i as int + 1).drop_last() =~= p.subrange(0, i as int));
            assert(p.subrange(0, i as int + 1).last() == parts@[i as int]@);
        }
        match parse_decimal(parts[i], 255) {
            Ok(v) => {
                bytes.push(v as u8);
            },
            Err(e) => {
                proof {
                    lemma_first_bad_extends(p, i as int + 1);
                }
                return Err(Error::ParseIPv4AddrBadInt { addr: dest.to_owned(), err: e });
            },
        }
        i += 1;
    }
    proof {
        assert(p.subrange(0, p.len() as int) =~= p);
    }
    let n = bytes.len();
    if n == 1 {
        Ok(bytes[0] as u32)
    } else if n == 2 {
        Ok((bytes[0] as u32) * 0x1000000 + bytes[1] as u32)
    } else if n == 3 {
        Ok((bytes[0] as u32) * 0x1000000 + (bytes[1] as u32) * 0x10000 + bytes[2] as u32)
    } else {
        Err(Error::ParseIPv4AddrNComps { n_comps: n, addr: dest.to_owned() })
    }
}

/// On a standard dotted quad the short-form reader agrees with the
/// standard reader.
pub proof fn lemma_dotted_quad_reads_alike(s: Seq<char>)
    requires
        dotted_quad(s) is Some,
    ensures
        legacy_ipv4(s) == Ok::<u32, ErrorV>(dotted_quad(s)->0),
{
}

/// Once a prefix of the components holds a bad one, so does the whole.
proof fn lemma_first_bad_extends(p: Seq<Seq<char>>, m: int)
    requires
        0 <= m <= p.len(),
        first_bad_byte(p.subrange(0, m)) is Some,
    ensures
        first_bad_byte(p) == first_bad_byte(p.subrange(0, m)),
    decreases p.len(),
{
    if p.len() > m {
        assert(p.drop_last().subrange(0, m) =~= p.subrange(0, m));
        lemma_first_bad_extends(p.drop_last(), m);
    } else {
        assert(p.subrange(0, m) =~= p);
    }
}

pub open spec fn host_v4(a: u32) -> Cidr {
    Cidr::V4 { addr: a, len: 32 }
}

pub open spec fn starts_with_link(s: Seq<char>) -> bool {
    "link"@.len() <= s.len() && s.subrange(0, "link"@.len() as int) == "link"@
}

/// The entity that a token without a zone denotes, tried in order: the
/// wildcard; a network when there is a `/`; with a `.`, an IPv4 host, else a
/// dot-delimited hardware address; with a `:`, an IPv6 host, else a hardware
/// address; an interface reference when it starts with `link`; else an IPv4
/// host in short form (a bare number).
pub open spec fn entity_of(s: Seq<char>) -> Result<EntityV, ErrorV> {
    if s == "default"@ {
        Ok(EntityV::Default)
    } else if s.contains('/') {
        match cidr_text(s) {
            Ok(c) => Ok(EntityV::Cidr(c)),
            Err(e) => Err(ErrorV::ParseDestination { value: s, err: e }),
        }
    } else if s.contains('.') {
        match legacy_ipv4(s) {
            Ok(a) => Ok(EntityV::Cidr(host_v4(a))),
            Err(_) => match mac_text(dots_as_colons(s)) {
                Ok(m) => Ok(EntityV::Mac(m)),
                Err(e) => Err(ErrorV::ParseMacAddr { dest: s, err: e }),
            },
        }
    } else if s.contains(':') {
        match cidr_text(s) {
            Ok(c) => Ok(EntityV::Cidr(c)),
            Err(_) => match mac_text(s) {
                Ok(m) => Ok(EntityV::Mac(m)),
                Err(e) => Err(ErrorV::ParseMacAddr { dest: s, err: e }),
            },
        }
    } else if starts_with_link(s) {
        Ok(EntityV::Link(s))
    } else {
        match legacy_ipv4(s) {
            Ok(a) => Ok(EntityV::Cidr(host_v4(a))),
            Err(e) => Err(e),
        }
    }
}

/// The index of the first `c` in `s`.
pub open spec fn first_pos(s: Seq<char>, c: char) -> int {
    choose|i: int| 0 <= i < s.len() && s[i] == c && forall|j: int| 0 <= j < i ==> s[j] != c
}

pub proof fn lemma_first_pos(s: Seq<char>, c: char, i: int)
    requires
        0 <= i < s.len(),
        s[i] == c,
        forall|j: int| 0 <= j < i ==> s[j] != c,
    ensures
        first_pos(s, c) == i,
{
    let k = first_pos(s, c);
    assert(0 <= k < s.len() && s[k] == c && forall|j: int| 0 <= j < k ==> s[j] != c);
    if k < i {
        assert(s[k] != c);
    } else if k > i {
        assert(s[i] != c);
    }
}

/// The destination that a token denotes.  A `%` splits it into an address
/// and a zone; the zone ends at the next `/`, and what follows that `/` is
/// the network length of the address.
pub open spec fn destination_of(s: Seq<char>) -> Result<DestinationV, ErrorV> {
    if s.contains('%') {
        let i = first_pos(s, '%');
        let addr = s.subrange(0, i);
        let rest = s.subrange(i + 1, s.len() as int);
        let (zone, target) = if rest.contains('/') {
            let j = first_pos(rest, '/');
            (rest.subrange(0, j), addr + seq!['/'] + rest.subrange(j + 1, rest.len() as int))
        } else {
            (rest, addr)
        };
        match entity_of(target) {
            Ok(e) => Ok(DestinationV { entity: e, zone: Some(zone) }),
            Err(x) => Err(x),
        }
    } else {
        match entity_of(s) {
            Ok(e) => Ok(DestinationV { entity: e, zone: None }),
            Err(x) => Err(x),
        }
    }
}

/// Classifies a token that holds no zone (see [`entity_of`]).
pub fn parse_simple_destination(dest: &str) -> (r: Result<Entity, Error>)
    ensures
        match r {
            Ok(e) => entity_of(dest@) == Ok::<EntityV, ErrorV>(e@),
            Err(x) => entity_of(dest@) == Err::<EntityV, ErrorV>(x@),
        },
        r matches Ok(e) ==> entity_wf(e@),
{
    if str_eq(dest, "default") {
        Ok(Entity::Default)
    } else if contains_char(dest, '/') {
        match parse_any_cidr(dest) {
            Ok(c) => Ok(Entity::Cidr(c)),
            Err(e) => Err(Error::ParseDestination { value: dest.to_owned(), err: e }),
        }
    } else if contains_char(dest, '.') {
        match parse_ipv4dest(dest) {
            Ok(a) => Ok(Entity::Cidr(Cidr::V4 { addr: a, len: 32 })),
            Err(_) => {
                let colons = dots_to_colons(dest);
                match parse_mac(colons.as_str()) {
                    Ok(m) => Ok(Entity::Mac(m)),
                    Err(e) => Err(Error::ParseMacAddr { dest: dest.to_owned(), err: e }),
                }
            },
        }
    } else if contains_char(dest, ':') {
        match parse_any_cidr(dest) {
            Ok(c) => Ok(Entity::Cidr(c)),
            Err(_) => match parse_mac(dest) {
                Ok(m) => Ok(Entity::Mac(m)),
                Err(e) => Err(Error::ParseMacAddr { dest: dest.to_owned(), err: e }),
            },
        }
    } else if starts_with(dest, "link") {
        Ok(Entity::Link(dest.to_owned()))
    } else {
        match parse_ipv4dest(dest) {
            Ok(a) => Ok(Entity::Cidr(Cidr::V4 { addr: a, len: 32 })),
            Err(e) => Err(e),
        }
    }
}

/// Classifies a destination or gateway token (see [`destination_of`]).
pub fn parse_destination(dest: &str) -> (r: Result<Destination, Error>)
    ensures
        match r {
            Ok(d) => destination_of(dest@) == Ok::<DestinationV, ErrorV>(d@),
            Err(x) => destination_of(dest@) == Err::<DestinationV, ErrorV>(x@),
        },
        r matches Ok(d) ==> entity_wf(d.entity@),
{
    match find_char(dest, '%') {
        None => match parse_simple_destination(dest) {
            Ok(e) => Ok(Destination { entity: e, zone: None }),
            Err(x) => Err(x),
        },
        Some(i) => {
            proof {
                lemma_first_pos(dest@, '%', i as int);
            }
            let n = dest.unicode_len();
            let addr = dest.substring_char(0, i);
            let rest = dest.substring_char(i + 1, n);
            match find_char(rest, '/') {
                None => match parse_simple_destination(addr) {
                    Ok(e) => Ok(Destination { entity: e, zone: Some(rest.to_owned()) }),
                    Err(x) => Err(x),
                },
                Some(j) => {
                    proof {
                        lemma_first_pos(rest@, '/', j as int);
                        reveal_strlit("/");
                    }
                    let m = rest.unicode_len();
                    let zone = rest.substring_char(0, j);
                    let bits = rest.substring_char(j + 1, m);
                    let mut target = String::from_str(addr);
                    target.append("/");
                    target.append(bits);
                    proof {
                        assert("/"@ =~= seq!['/']);
                    }
                    match parse_simple_destination(target.as_str()) {
                        Ok(e) => Ok(Destination { entity: e, zone: Some(zone.to_owned()) }),
                        Err(x) => Err(x),
                    }
                },
            }
        },
    }
}

} // verus!
