use route_parser_macos::address::{parse_destination, parse_dotted_quad, parse_ipv4dest};
use route_parser_macos::entity::MacError;
use route_parser_macos::flags::parse_flags;
use route_parser_macos::route_entry::{parse_expire, Error};
use route_parser_macos::routing_table::Error as TableError;
use route_parser_macos::text::NumberError;
use route_parser_macos::{
    Cidr, Destination, Entity, IpAddress, Protocol, RouteEntry, RoutingFlag, RoutingTable,
};

const HEADERS: [&str; 5] = ["Destination", "Gateway", "Flags", "Netif", "Expire"];

const SAMPLE: &str = "Routing tables

Internet:
Destination        Gateway            Flags           Netif Expire
default            192.168.1.1        UGScg             en0
10/8               10.0.0.1           UGSc              en1
10.1/16            10.0.0.2           UGSc              en2
10.1.2/24          10.0.0.3           UGSc              en3
127                127.0.0.1          UCS               lo0
192.168.1          link#4             UCS               en0      !
default            link#9             UCSI              utun3

Internet6:
Destination                             Gateway                                 Flags           Netif Expire
default                                 fe80::%utun0                            UGcIg           utun0
::1                                     ::1                                     UHL               lo0
";

fn v4(a: u8, b: u8, c: u8, d: u8) -> IpAddress {
    IpAddress::V4(u32::from_be_bytes([a, b, c, d]))
}

const FE80_1: u128 = 0xfe80_0000_0000_0000_0000_0000_0000_0001;

fn entity(token: &str) -> Entity {
    parse_destination(token).unwrap().entity
}

#[test]
fn short_ipv4_forms_place_components() {
    assert_eq!(parse_ipv4dest("1").unwrap(), 0x0000_0001);
    assert_eq!(parse_ipv4dest("1.2").unwrap(), 0x0100_0002);
    assert_eq!(parse_ipv4dest("1.2.3").unwrap(), 0x0102_0003);
    assert_eq!(parse_ipv4dest("1.2.3.4").unwrap(), 0x0102_0304);
    assert_eq!(parse_ipv4dest("192.168.1").unwrap(), 0xC0A8_0001);
}

#[test]
fn dotted_quad_reads_alike_both_ways() {
    for s in ["10.0.0.1", "255.255.255.255", "0.0.0.0", "192.168.100.7"] {
        let standard = parse_dotted_quad(s).unwrap();
        assert_eq!(parse_ipv4dest(s).unwrap(), standard);
    }
    assert_eq!(parse_dotted_quad("10.0.0.1"), Some(0x0A00_0001));
    assert_eq!(parse_dotted_quad("01.2.3.4"), None);
    assert_eq!(parse_dotted_quad("1.2.3"), None);
    assert_eq!(parse_dotted_quad("256.1.1.1"), None);
}

#[test]
fn short_ipv4_errors() {
    match parse_ipv4dest("1.2.3.4.5") {
        Err(Error::ParseIPv4AddrNComps { n_comps, addr }) => {
            assert_eq!(n_comps, 5);
            assert_eq!(addr, "1.2.3.4.5");
        }
        other => panic!("unexpected {other:?}"),
    }
    match parse_ipv4dest("01.2.3.4") {
        Err(Error::ParseIPv4AddrNComps { n_comps, .. }) => assert_eq!(n_comps, 4),
        other => panic!("unexpected {other:?}"),
    }
    assert_eq!(
        parse_ipv4dest("1.x"),
        Err(Error::ParseIPv4AddrBadInt { addr: "1.x".to_string(), err: NumberError::InvalidDigit })
    );
    assert_eq!(
        parse_ipv4dest("1.300"),
        Err(Error::ParseIPv4AddrBadInt { addr: "1.300".to_string(), err: NumberError::Overflow })
    );
    assert_eq!(
        parse_ipv4dest("1..2"),
        Err(Error::ParseIPv4AddrBadInt { addr: "1..2".to_string(), err: NumberError::Empty })
    );
    assert_eq!(parse_ipv4dest("+7").unwrap(), 7);
}

#[test]
fn default_token_is_wildcard() {
    assert_eq!(
        parse_destination("default").unwrap(),
        Destination { entity: Entity::Default, zone: None }
    );
    for proto in [Protocol::V4, Protocol::V6] {
        let r = RouteEntry::parse(proto, "default 10.0.0.1 UG en0", &HEADERS).unwrap();
        assert_eq!(r.dest.entity, Entity::Default);
        assert_eq!(r.proto, proto);
    }
}

#[test]
fn network_with_short_address() {
    assert_eq!(entity("224.0.0/4"), Entity::Cidr(Cidr::V4 { addr: 0xE000_0000, len: 4 }));
    assert_eq!(entity("10/8"), Entity::Cidr(Cidr::V4 { addr: 0x0A00_0000, len: 8 }));
    assert_eq!(
        parse_destination("10.0.0.1/8"),
        Err(Error::ParseDestination {
            value: "10.0.0.1/8".to_string(),
            err: route_parser_macos::entity::CidrError::InvalidHostPart,
        })
    );
}

#[test]
fn zone_is_split_off() {
    let d = parse_destination("fe80::1%en0").unwrap();
    assert_eq!(d.entity, Entity::Cidr(Cidr::V6 { addr: FE80_1, len: 128 }));
    assert_eq!(d.zone, Some("en0".to_string()));

    let d = parse_destination("fe80::%utun0/64").unwrap();
    assert_eq!(d.entity, Entity::Cidr(Cidr::V6 { addr: 0xfe80 << 112, len: 64 }));
    assert_eq!(d.zone, Some("utun0".to_string()));
}

#[test]
fn hosts_links_and_hardware_addresses() {
    assert_eq!(entity("127"), Entity::Cidr(Cidr::V4 { addr: 127, len: 32 }));
    assert_eq!(entity("::1"), Entity::Cidr(Cidr::V6 { addr: 1, len: 128 }));
    assert_eq!(entity("link#3"), Entity::Link("link#3".to_string()));
    let mac = [0x00, 0x1c, 0x42, 0x00, 0x00, 0x08];
    assert_eq!(entity("00:1c:42:00:00:08"), Entity::Mac(mac));
    assert_eq!(entity("00.1c.42.00.00.08"), Entity::Mac(mac));
    assert_eq!(
        parse_destination("0.1c.42.0.0.8"),
        Err(Error::ParseMacAddr { dest: "0.1c.42.0.0.8".to_string(), err: MacError::InvalidLength })
    );
    assert_eq!(
        parse_destination("foo"),
        Err(Error::ParseIPv4AddrBadInt { addr: "foo".to_string(), err: NumberError::InvalidDigit })
    );
}

#[test]
fn flags_decode_as_a_set() {
    let ug = parse_flags("UG");
    assert_eq!(ug.len(), 2);
    assert!(ug.contains(&RoutingFlag::Up));
    assert!(ug.contains(&RoutingFlag::Gateway));
    for other in ["GU", "UUGG"] {
        let f = parse_flags(other);
        assert_eq!(f.len(), 2);
        assert!(f.contains(&RoutingFlag::Up));
        assert!(f.contains(&RoutingFlag::Gateway));
    }
    let f = parse_flags("Hz");
    assert_eq!(f, vec![RoutingFlag::Host, RoutingFlag::Unknown('z')]);
    assert!(parse_flags("").is_empty());
}

#[test]
fn route_line_fields() {
    let r = RouteEntry::parse(Protocol::V4, "192.168.1 link#4 UCS en0 1169 extra", &HEADERS).unwrap();
    assert_eq!(r.dest.entity, Entity::Cidr(Cidr::V4 { addr: 0xC0A8_0001, len: 32 }));
    assert_eq!(r.gateway.entity, Entity::Link("link#4".to_string()));
    assert_eq!(r.net_if, "en0");
    assert_eq!(r.expires, Some(1169));
    assert_eq!(r.flags.len(), 3);
    let r = RouteEntry::parse(Protocol::V4, "10/8 10.0.0.1 UG en1 !", &HEADERS).unwrap();
    assert_eq!(r.expires, None);
}

#[test]
fn expiration_values() {
    assert_eq!(parse_expire("!"), Ok(None));
    assert_eq!(parse_expire("1169"), Ok(Some(1169)));
    assert_eq!(parse_expire("18446744073709551615"), Ok(Some(u64::MAX)));
    assert_eq!(
        parse_expire("18446744073709551616"),
        Err(Error::ParseExpiration {
            expiration: "18446744073709551616".to_string(),
            err: NumberError::Overflow,
        })
    );
    assert_eq!(
        parse_expire("soon"),
        Err(Error::ParseExpiration { expiration: "soon".to_string(), err: NumberError::InvalidDigit })
    );
}

#[test]
fn missing_fields_are_named() {
    assert_eq!(
        RouteEntry::parse(Protocol::V4, "10.0.0.1 UG en0", &["Gateway", "Flags", "Netif"]),
        Err(Error::MissingDestination)
    );
    assert_eq!(RouteEntry::parse(Protocol::V4, "10.0.0.1", &HEADERS), Err(Error::MissingGateway));
    assert_eq!(
        RouteEntry::parse(Protocol::V4, "10.0.0.1 10.0.0.2 UG", &HEADERS),
        Err(Error::MissingInterface)
    );
}

#[test]
fn longest_prefix_wins() {
    let t = RoutingTable::from_netstat_output(SAMPLE).unwrap();
    assert_eq!(t.routes().len(), 9);
    assert_eq!(t.find_route_entry(v4(10, 1, 2, 3)).unwrap().net_if, "en3");
    assert_eq!(t.find_route_entry(v4(10, 1, 9, 9)).unwrap().net_if, "en2");
    assert_eq!(t.find_route_entry(v4(10, 9, 9, 9)).unwrap().net_if, "en1");
    assert_eq!(t.find_route_entry(v4(192, 168, 0, 1)).unwrap().gateway.entity, Entity::Link("link#4".to_string()));
    assert_eq!(t.find_route_entry(IpAddress::V6(1)).unwrap().net_if, "lo0");
}

#[test]
fn default_route_follows_section_family() {
    let t = RoutingTable::from_netstat_output(SAMPLE).unwrap();
    let r = t.find_route_entry(v4(8, 8, 8, 8)).unwrap();
    assert_eq!(r.dest.entity, Entity::Default);
    assert_eq!(r.proto, Protocol::V4);
    assert_eq!(r.net_if, "en0");
    let r = t.find_route_entry(IpAddress::V6(0x2001_0db8 << 96 | 1)).unwrap();
    assert_eq!(r.proto, Protocol::V6);
    assert_eq!(r.net_if, "utun0");
    assert_eq!(r.gateway.zone, Some("utun0".to_string()));
}

#[test]
fn no_route_without_applicable_entry() {
    let text = "Internet:\nDestination Gateway Flags Netif\n10/8 10.0.0.1 UG en1\ndefault link#2 UCS en5\n";
    let t = RoutingTable::from_netstat_output(text).unwrap();
    assert!(t.find_route_entry(v4(11, 0, 0, 1)).is_none());
    assert!(t.find_route_entry(IpAddress::V6(1)).is_none());
}

#[test]
fn default_gateways_per_interface() {
    let t = RoutingTable::from_netstat_output(SAMPLE).unwrap();
    assert_eq!(t.default_gateways_for_netif("en0"), Some(&vec![v4(192, 168, 1, 1)]));
    assert_eq!(t.default_gateways_for_netif("utun0"), Some(&vec![IpAddress::V6(0xfe80 << 112)]));
    assert_eq!(t.default_gateways_for_netif("en1"), None);
    assert_eq!(t.default_gateways_for_netif("utun3"), None);
    assert_eq!(t.default_gateways_for_netif("nope"), None);
}

#[test]
fn default_gateways_keep_order() {
    let text = "Internet:\nDestination Gateway Flags Netif\ndefault 10.0.0.1 UG en0\ndefault 10.0.0.2 UGI en0\n";
    let t = RoutingTable::from_netstat_output(text).unwrap();
    assert_eq!(t.default_gateways_for_netif("en0"), Some(&vec![v4(10, 0, 0, 1), v4(10, 0, 0, 2)]));
}

#[test]
fn reparsing_answers_alike() {
    let a = RoutingTable::from_netstat_output(SAMPLE).unwrap();
    let b = RoutingTable::from_netstat_output(SAMPLE).unwrap();
    let queries = [v4(10, 1, 2, 3), v4(8, 8, 8, 8), v4(127, 0, 0, 1), IpAddress::V6(1), IpAddress::V6(FE80_1)];
    for q in queries {
        assert_eq!(a.find_route_entry(q).map(|r| r.clone()), b.find_route_entry(q).map(|r| r.clone()));
    }
    for name in ["en0", "en1", "utun0", "utun3", "lo0"] {
        assert_eq!(a.default_gateways_for_netif(name), b.default_gateways_for_netif(name));
    }
}

#[test]
fn table_errors() {
    assert_eq!(
        RoutingTable::from_netstat_output("10.0.0.1 link#1 UH en0\n").err(),
        Some(TableError::EntryBeforeProto)
    );
    assert_eq!(
        RoutingTable::from_netstat_output("Internet:\n").err(),
        Some(TableError::NetstatParseNoHeaders("Internet:".to_string()))
    );
    assert_eq!(
        RoutingTable::from_netstat_output("Internet:\n\nInternet6:\nDestination Gateway\n").err(),
        Some(TableError::NetstatParseNoHeaders("Internet:".to_string()))
    );
    assert_eq!(
        RoutingTable::from_netstat_output("Internet:\nDestination Gateway Flags Netif Expire\ndefault 10.0.0.1 UG en0 later\n").err(),
        Some(TableError::RouteEntryParse(Error::ParseExpiration {
            expiration: "later".to_string(),
            err: NumberError::InvalidDigit,
        }))
    );
    let empty = RoutingTable::from_netstat_output("").unwrap();
    assert!(empty.routes().is_empty());
}

#[test]
fn text_forms() {
    assert_eq!(entity("default").to_text(), "default");
    assert_eq!(entity("10/8").to_text(), "10.0.0.0/8");
    assert_eq!(entity("127").to_text(), "0.0.0.127");
    assert_eq!(entity("192.168.1").to_text(), "192.168.0.1");
    assert_eq!(entity("link#3").to_text(), "link#3");
    assert_eq!(entity("00.1c.42.00.00.0a").to_text(), "00:1c:42:00:00:0a");
    assert_eq!(parse_destination("fe80::1%en0").unwrap().to_text(), "fe80::1");
    assert_eq!(entity("fe80::%utun0/64").to_text(), "fe80::/64");
    assert_eq!(Entity::Cidr(Cidr::Any).to_text(), "any");
    let r = RouteEntry::parse(Protocol::V4, "default 192.168.1.1 UGScg en0", &HEADERS).unwrap();
    assert_eq!(r.to_text(), "V4(default -> 192.168.1.1 if=en0");
}

#[test]
fn default_gateways_keep_repeats() {
    let text = "Internet:\nDestination Gateway Flags Netif\ndefault 10.0.0.1 UG en0\n10/8 10.0.0.9 UG en0\ndefault 10.0.0.1 UGI en0\n";
    let t = RoutingTable::from_netstat_output(text).unwrap();
    assert_eq!(t.default_gateways_for_netif("en0"), Some(&vec![v4(10, 0, 0, 1), v4(10, 0, 0, 1)]));
}
