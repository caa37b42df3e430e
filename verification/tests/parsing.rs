use porkbun_ddns::addr::{AddressFamily, IpAddrExt, IpAddress, Ipv4Address, Ipv6Address};
use porkbun_ddns::parse::{parse_ip, parse_ipv4, parse_ipv6};
use porkbun_ddns::record::{DNSRecord, IpParseError};

fn v4(o0: u8, o1: u8, o2: u8, o3: u8) -> Ipv4Address {
    Ipv4Address { o0, o1, o2, o3 }
}

fn v6(g: [u16; 8]) -> Ipv6Address {
    Ipv6Address {
        g0: g[0],
        g1: g[1],
        g2: g[2],
        g3: g[3],
        g4: g[4],
        g5: g[5],
        g6: g[6],
        g7: g[7],
    }
}

#[test]
fn ipv4_accepts_dotted_quads() {
    assert_eq!(parse_ipv4("198.51.100.7"), Some(v4(198, 51, 100, 7)));
    assert_eq!(parse_ipv4("0.0.0.0"), Some(v4(0, 0, 0, 0)));
    assert_eq!(parse_ipv4("255.255.255.255"), Some(v4(255, 255, 255, 255)));
    assert_eq!(parse_ipv4("1.2.3.4"), Some(v4(1, 2, 3, 4)));
}

#[test]
fn ipv4_rejects_bad_text() {
    assert_eq!(parse_ipv4(""), None);
    assert_eq!(parse_ipv4("1.2.3"), None);
    assert_eq!(parse_ipv4("1.2.3.4.5"), None);
    assert_eq!(parse_ipv4("256.1.1.1"), None);
    assert_eq!(parse_ipv4("01.2.3.4"), None); // leading zero
    assert_eq!(parse_ipv4("1.2.3.4 "), None);
    assert_eq!(parse_ipv4("1..3.4"), None);
    assert_eq!(parse_ipv4("1.2.3.x"), None);
    assert_eq!(parse_ipv4("1.2.3.4."), None);
    assert_eq!(parse_ipv4("1000.2.3.4"), None);
}

#[test]
fn ipv6_accepts_full_form() {
    assert_eq!(
        parse_ipv6("1:2:3:4:5:6:7:8"),
        Some(v6([1, 2, 3, 4, 5, 6, 7, 8]))
    );
    assert_eq!(
        parse_ipv6("2001:db8:0:0:0:0:0:1"),
        Some(v6([0x2001, 0xdb8, 0, 0, 0, 0, 0, 1]))
    );
    assert_eq!(
        parse_ipv6("ABCD:ef01:2345:6789:abcd:EF01:2345:6789"),
        Some(v6([0xabcd, 0xef01, 0x2345, 0x6789, 0xabcd, 0xef01, 0x2345, 0x6789]))
    );
}

#[test]
fn ipv6_accepts_compressed_forms() {
    assert_eq!(parse_ipv6("::"), Some(v6([0; 8])));
    assert_eq!(parse_ipv6("::1"), Some(v6([0, 0, 0, 0, 0, 0, 0, 1])));
    assert_eq!(parse_ipv6("1::"), Some(v6([1, 0, 0, 0, 0, 0, 0, 0])));
    assert_eq!(
        parse_ipv6("2001:db8::1"),
        Some(v6([0x2001, 0xdb8, 0, 0, 0, 0, 0, 1]))
    );
    assert_eq!(
        parse_ipv6("1:2:3::7:8"),
        Some(v6([1, 2, 3, 0, 0, 0, 7, 8]))
    );
    assert_eq!(
        parse_ipv6("::2:3:4:5:6:7:8"),
        Some(v6([0, 2, 3, 4, 5, 6, 7, 8]))
    );
    assert_eq!(
        parse_ipv6("1:2:3:4:5:6:7::"),
        Some(v6([1, 2, 3, 4, 5, 6, 7, 0]))
    );
}

#[test]
fn ipv6_accepts_embedded_dotted_quad() {
    assert_eq!(
        parse_ipv6("::ffff:198.51.100.7"),
        Some(v6([0, 0, 0, 0, 0, 0xffff, 0xc633, 0x6407]))
    );
    assert_eq!(
        parse_ipv6("1:2:3:4:5:6:1.2.3.4"),
        Some(v6([1, 2, 3, 4, 5, 6, 0x0102, 0x0304]))
    );
}

#[test]
fn ipv6_rejects_bad_text() {
    assert_eq!(parse_ipv6(""), None);
    assert_eq!(parse_ipv6(":"), None);
    assert_eq!(parse_ipv6(":::"), None);
    assert_eq!(parse_ipv6("1:2:3:4:5:6:7"), None); // seven groups, no ::
    assert_eq!(parse_ipv6("1:2:3:4:5:6:7:8:9"), None);
    assert_eq!(parse_ipv6("1:2:3:4:5:6:7:8::"), None); // :: with eight groups
    assert_eq!(parse_ipv6("::1::2"), None); // two compressions
    assert_eq!(parse_ipv6("12345::"), None); // five hex digits
    assert_eq!(parse_ipv6("g::1"), None);
    assert_eq!(parse_ipv6(":1:2:3:4:5:6:7"), None); // single leading colon
    assert_eq!(parse_ipv6("1:2:3:4:5:6:7:"), None); // single trailing colon
    assert_eq!(parse_ipv6("1.2.3.4::"), None); // dotted quad not at the end
}

#[test]
fn either_family_parse_prefers_the_matching_form() {
    assert_eq!(
        parse_ip("198.51.100.7"),
        Some(IpAddress::V4(v4(198, 51, 100, 7)))
    );
    assert_eq!(
        parse_ip("::1"),
        Some(IpAddress::V6(v6([0, 0, 0, 0, 0, 0, 0, 1])))
    );
    assert_eq!(parse_ip("not-an-address"), None);
}

#[test]
fn dns_type_tags() {
    assert_eq!(AddressFamily::IPv4.dns_type(), "A");
    assert_eq!(AddressFamily::IPv6.dns_type(), "AAAA");
    assert_eq!(IpAddress::V4(v4(1, 2, 3, 4)).dns_type(), "A");
    assert_eq!(IpAddress::V6(v6([0; 8])).dns_type(), "AAAA");
    assert_eq!(v4(1, 2, 3, 4).dns_type(), "A");
    assert_eq!(v6([0; 8]).dns_type(), "AAAA");
}

fn rec(typ: &str, content: &str) -> DNSRecord {
    DNSRecord {
        id: "1".to_string(),
        name: "example.com".to_string(),
        typ: typ.to_string(),
        content: content.to_string(),
        ttl: None,
        prio: None,
        notes: None,
    }
}

#[test]
fn record_content_parses_for_matching_type() {
    assert_eq!(
        rec("A", "198.51.100.7").try_parse_ip(),
        Ok(IpAddress::V4(v4(198, 51, 100, 7)))
    );
    assert_eq!(
        rec("AAAA", "2001:db8::1").try_parse_ip(),
        Ok(IpAddress::V6(v6([0x2001, 0xdb8, 0, 0, 0, 0, 0, 1])))
    );
}

#[test]
fn record_content_errors_are_distinguished() {
    assert_eq!(
        rec("CNAME", "other.example.com").try_parse_ip(),
        Err(IpParseError::NotAddressRecord)
    );
    assert_eq!(rec("A", "banana").try_parse_ip(), Err(IpParseError::Malformed));
    assert_eq!(
        rec("A", "2001:db8::1").try_parse_ip(),
        Err(IpParseError::WrongFamily)
    );
    assert_eq!(
        rec("AAAA", "198.51.100.7").try_parse_ip(),
        Err(IpParseError::WrongFamily)
    );
}
