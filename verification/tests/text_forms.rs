use multiroute::addr::{
    fmt_ip4, fmt_ip6, fmt_sock4, fmt_sock6, parse_ip4, parse_ip6, parse_sock4, parse_sock6,
    Ip4Addr, Ip6Addr,
};
use multiroute::error::Error;
use multiroute::segment::MultiAddr;
use multiroute::text::{fmt_dec, fmt_hex, parse_hex4, parse_octet, parse_u16};

#[test]
fn decimal_formatting() {
    assert_eq!(fmt_dec(0), "0");
    assert_eq!(fmt_dec(7), "7");
    assert_eq!(fmt_dec(666), "666");
    assert_eq!(fmt_dec(65535), "65535");
}

#[test]
fn hex_formatting() {
    assert_eq!(fmt_hex(0), "0");
    assert_eq!(fmt_hex(0xab), "ab");
    assert_eq!(fmt_hex(0xffff), "ffff");
    assert_eq!(fmt_hex(0x2001), "2001");
}

#[test]
fn port_parsing_is_value_bounded() {
    assert_eq!(parse_u16("666"), Some(666));
    assert_eq!(parse_u16("0"), Some(0));
    assert_eq!(parse_u16("000080"), Some(80));
    assert_eq!(parse_u16("00065535"), Some(65535));
    assert_eq!(parse_u16(""), None);
    assert_eq!(parse_u16("65536"), None);
    assert_eq!(parse_u16("99999"), None);
    assert_eq!(parse_u16("12a"), None);
}

#[test]
fn octet_parsing() {
    assert_eq!(parse_octet("0"), Some(0));
    assert_eq!(parse_octet("127"), Some(127));
    assert_eq!(parse_octet("255"), Some(255));
    assert_eq!(parse_octet("256"), None);
    assert_eq!(parse_octet("00"), None);
    assert_eq!(parse_octet("012"), None);
    assert_eq!(parse_octet("1234"), None);
    assert_eq!(parse_octet(""), None);
}

#[test]
fn hex_group_parsing() {
    assert_eq!(parse_hex4("0"), Some(0));
    assert_eq!(parse_hex4("Ab"), Some(0xab));
    assert_eq!(parse_hex4("ffff"), Some(0xffff));
    assert_eq!(parse_hex4("10000"), None);
    assert_eq!(parse_hex4(""), None);
    assert_eq!(parse_hex4("g"), None);
}

#[test]
fn ipv4_text_forms() {
    let a = Ip4Addr::new(127, 0, 0, 1);
    assert_eq!(fmt_ip4(&a), "127.0.0.1");
    assert_eq!(fmt_sock4(&a, 666), "127.0.0.1:666");
    assert_eq!(parse_ip4("127.0.0.1"), Some(a));
    assert_eq!(parse_ip4("127.0.0"), None);
    assert_eq!(parse_ip4("256.0.0.1"), None);
    assert_eq!(parse_ip4("1.2.3.4.5"), None);
    assert_eq!(parse_ip4("127.00.0.1"), None);
    assert_eq!(parse_sock4("10.0.0.1:4000"), Some((Ip4Addr::new(10, 0, 0, 1), 4000)));
    assert_eq!(parse_sock4("10.0.0.1:70000"), None);
    assert_eq!(parse_sock4("10.0.0.1"), None);
}

#[test]
fn ipv6_text_forms() {
    let a = Ip6Addr::new(0, 0, 0, 0, 0, 0, 0, 1);
    assert_eq!(fmt_ip6(&a), "0:0:0:0:0:0:0:1");
    assert_eq!(fmt_sock6(&a, 80), "[0:0:0:0:0:0:0:1]:80");
    assert_eq!(parse_ip6("0:0:0:0:0:0:0:1"), Some(a));
    assert_eq!(parse_ip6("0:0:0:0:0:0:1"), None);
    let b = Ip6Addr::new(0x2001, 0xdb8, 0, 0, 0, 0, 0, 0x42);
    assert_eq!(fmt_sock6(&b, 443), "[2001:db8:0:0:0:0:0:42]:443");
    assert_eq!(parse_sock6("[2001:DB8:0:0:0:0:0:42]:443"), Some((b, 443)));
    assert_eq!(parse_sock6("2001:db8:0:0:0:0:0:42:443"), None);
}

#[test]
fn ipv6_zero_compression_forms() {
    let loopback = Ip6Addr::new(0, 0, 0, 0, 0, 0, 0, 1);
    assert_eq!(parse_ip6("::1"), Some(loopback));
    assert_eq!(parse_ip6("::"), Some(Ip6Addr::new(0, 0, 0, 0, 0, 0, 0, 0)));
    assert_eq!(parse_ip6("1::"), Some(Ip6Addr::new(1, 0, 0, 0, 0, 0, 0, 0)));
    assert_eq!(
        parse_ip6("2001:db8::42"),
        Some(Ip6Addr::new(0x2001, 0xdb8, 0, 0, 0, 0, 0, 0x42))
    );
    assert_eq!(parse_ip6("1:::2"), None);
    assert_eq!(parse_ip6("1:2:3:4:5:6:7::8"), None);
    assert_eq!(parse_ip6("1::2::3"), None);
    assert_eq!(parse_sock6("[::1]:80"), Some((loopback, 80)));
    assert_eq!(parse_sock6("[::1]:000080"), Some((loopback, 80)));
}

#[test]
fn multiaddr_text_round_trip() {
    let t = "/node/hub/dnsaddr/example.com/tcp/80/ip4/1.2.3.4/tcp/5/ip6/a:b:c:d:e:f:0:1/tcp/9/service/x";
    let ma = MultiAddr::parse(t).unwrap();
    assert_eq!(ma.len(), 8);
    assert_eq!(ma.to_text(), t);
}

#[test]
fn malformed_multiaddr_text_rejected() {
    assert_eq!(MultiAddr::parse("ip4/1.2.3.4"), Err(Error::MalformedSegment));
    assert_eq!(MultiAddr::parse("//x"), Err(Error::MalformedSegment));
    assert_eq!(MultiAddr::parse("/node"), Err(Error::MalformedSegment));
    assert_eq!(MultiAddr::parse("/ip4/1.2.3"), Err(Error::MalformedSegment));
    assert_eq!(MultiAddr::parse("/tcp/99999"), Err(Error::MalformedSegment));
}

#[test]
fn unknown_protocol_code_rejected() {
    assert_eq!(
        MultiAddr::parse("/udp/53"),
        Err(Error::UnsupportedProtocol { code: "udp".to_string() })
    );
}
