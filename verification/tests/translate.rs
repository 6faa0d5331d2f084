use multiroute::addr::Ip4Addr;
use multiroute::error::Error;
use multiroute::lookup::{ConfigLookup, InternetAddress};
use multiroute::route::{Address, Route, LOCAL, TCP};
use multiroute::segment::{MultiAddr, Segment};
use multiroute::util::{
    clean_multiaddr, multiaddr_to_addr, multiaddr_to_route, route_to_multiaddr,
};

#[test]
fn clean_multiaddr_simple() {
    let addr: MultiAddr = MultiAddr::parse("/node/hub/service/echoer").unwrap();

    let lookup = {
        let mut map = ConfigLookup::new();
        map.set_node(
            "hub",
            InternetAddress::V4 { addr: Ip4Addr::new(127, 0, 0, 1), port: 666 },
        );
        map
    };

    let new_addr = clean_multiaddr(&addr, &lookup).unwrap();
    assert_ne!(addr, new_addr); // Make sure the address changed

    let new_route = multiaddr_to_route(&new_addr).unwrap();
    println!("{:#?}", new_route);
}

#[test]
fn resolve_node_scenario() {
    let addr = MultiAddr::parse("/node/hub/service/echoer").unwrap();
    let mut lookup = ConfigLookup::new();
    lookup.set_node(
        "hub",
        InternetAddress::V4 { addr: Ip4Addr::new(127, 0, 0, 1), port: 666 },
    );
    let resolved = clean_multiaddr(&addr, &lookup).unwrap();
    assert_eq!(resolved.to_text(), "/ip4/127.0.0.1/tcp/666/service/echoer");
    let route = multiaddr_to_route(&resolved).unwrap();
    assert_eq!(route.len(), 2);
    assert_eq!(route.get(0).transport_type(), TCP);
    assert_eq!(route.get(0).address(), "127.0.0.1:666");
    assert_eq!(route.get(1).transport_type(), LOCAL);
    assert_eq!(route.get(1).address(), "echoer");
}

#[test]
fn dns_route_scenario() {
    let addr = MultiAddr::parse("/dns4/example.com/tcp/4000").unwrap();
    let route = multiaddr_to_route(&addr).unwrap();
    assert_eq!(route.len(), 1);
    assert_eq!(route.get(0).transport_type(), TCP);
    assert_eq!(route.get(0).address(), "example.com:4000");
}

#[test]
fn service_terminal_scenario() {
    let addr = MultiAddr::parse("/service/echoer").unwrap();
    let hop = multiaddr_to_addr(&addr).unwrap();
    assert_eq!(hop.transport_type(), LOCAL);
    assert_eq!(hop.address(), "echoer");
    let route = multiaddr_to_route(&addr).unwrap();
    assert_eq!(route.len(), 1);
    assert_eq!(route.get(0).transport_type(), LOCAL);
    assert_eq!(route.get(0).address(), "echoer");
}

#[test]
fn unsupported_transport_rejected() {
    // a transport tag outside the supported {TCP, LOCAL} set, as a UDP-style
    // transport would carry
    let udp: u8 = 2;
    let route = Route::new()
        .append(Address::new(TCP, "10.0.0.1:4000".to_string()))
        .append(Address::new(udp, "10.0.0.2:4001".to_string()));
    assert_eq!(
        route_to_multiaddr(&route),
        Err(Error::UnsupportedTransport { code: udp })
    );
}

#[test]
fn trailing_bare_ip_malformed() {
    let addr = MultiAddr::parse("/ip4/10.0.0.1").unwrap();
    assert_eq!(multiaddr_to_route(&addr), Err(Error::MalformedSegment));
    let addr6 = MultiAddr::parse("/dns4/example.com/tcp/4000/ip6/0:0:0:0:0:0:0:1").unwrap();
    assert_eq!(multiaddr_to_route(&addr6), Err(Error::MalformedSegment));
}

#[test]
fn node_segment_invariant_violation() {
    let addr = MultiAddr::parse("/node/hub/service/echoer").unwrap();
    assert_eq!(multiaddr_to_route(&addr), Err(Error::InvariantViolation));
}

#[test]
fn unknown_alias_fails() {
    let addr = MultiAddr::parse("/node/nowhere").unwrap();
    let lookup = ConfigLookup::new();
    assert_eq!(
        clean_multiaddr(&addr, &lookup),
        Err(Error::UnknownAlias { alias: "nowhere".to_string() })
    );
}

#[test]
fn resolve_without_nodes_is_identity() {
    let addr = MultiAddr::parse("/ip4/127.0.0.1/tcp/80/service/api").unwrap();
    let lookup = ConfigLookup::new();
    let resolved = clean_multiaddr(&addr, &lookup).unwrap();
    assert_eq!(addr, resolved);
}

#[test]
fn resolved_alias_expands_to_pair() {
    let mut lookup = ConfigLookup::new();
    lookup.set_node(
        "hub",
        InternetAddress::Dns { host: "example.com".to_string(), port: 4000 },
    );
    let addr = MultiAddr::parse("/node/hub").unwrap();
    let resolved = clean_multiaddr(&addr, &lookup).unwrap();
    assert_eq!(resolved.len(), 2);
    assert_eq!(
        resolved.get(0),
        &Segment::DnsAddr { host: "example.com".to_string() }
    );
    assert_eq!(resolved.get(1), &Segment::Tcp { port: 4000 });
}

#[test]
fn round_trip_preserves_hops() {
    let route = Route::new()
        .append(Address::new(TCP, "127.0.0.1:666".to_string()))
        .append(Address::new(TCP, "[0:0:0:0:0:0:0:1]:80".to_string()))
        .append(Address::new(TCP, "example.com:4000".to_string()))
        .append(Address::new(TCP, "barehost".to_string()))
        .append(Address::new(LOCAL, "echoer".to_string()));
    let ma = route_to_multiaddr(&route).unwrap();
    let back = multiaddr_to_route(&ma).unwrap();
    assert_eq!(back.len(), route.len());
    let mut i = 0;
    while i < route.len() {
        assert_eq!(
            back.get(i).transport_type(),
            route.get(i).transport_type()
        );
        i += 1;
    }
}

#[test]
fn bare_host_with_port_resplits_on_reverse() {
    // a DnsAddr whose literal string already encodes a port becomes one
    // opaque TCP hop forward, and the reverse translation re-splits it:
    // the round trip is not byte-identical here, by design
    let addr = MultiAddr::parse("/dns4/example.com:4000").unwrap();
    let route = multiaddr_to_route(&addr).unwrap();
    assert_eq!(route.len(), 1);
    assert_eq!(route.get(0).address(), "example.com:4000");
    let back = route_to_multiaddr(&route).unwrap();
    assert_eq!(back.to_text(), "/dnsaddr/example.com/tcp/4000");
    assert_ne!(addr, back);
}

#[test]
fn reverse_translates_compressed_ipv6() {
    let route = Route::new().append(Address::new(TCP, "[::1]:666".to_string()));
    let ma = route_to_multiaddr(&route).unwrap();
    assert_eq!(ma.to_text(), "/ip6/0:0:0:0:0:0:0:1/tcp/666");
}

#[test]
fn reverse_translates_padded_port() {
    let route = Route::new().append(Address::new(TCP, "example.com:000080".to_string()));
    let ma = route_to_multiaddr(&route).unwrap();
    assert_eq!(ma.to_text(), "/dnsaddr/example.com/tcp/80");
}

#[test]
fn leading_zero_octets_read_as_host() {
    // "127.00.0.1" is no dotted quad (leading-zero octet), so the hop string
    // splits as host and port
    let route = Route::new().append(Address::new(TCP, "127.00.0.1:80".to_string()));
    let ma = route_to_multiaddr(&route).unwrap();
    assert_eq!(ma.to_text(), "/dnsaddr/127.00.0.1/tcp/80");
}

#[test]
fn compressed_ipv6_multiaddr_text() {
    let addr = MultiAddr::parse("/ip6/::1/tcp/80").unwrap();
    let route = multiaddr_to_route(&addr).unwrap();
    assert_eq!(route.len(), 1);
    assert_eq!(route.get(0).transport_type(), TCP);
    assert_eq!(route.get(0).address(), "[0:0:0:0:0:0:0:1]:80");
}

#[test]
fn tcp_hop_with_bad_port_malformed() {
    let route = Route::new().append(Address::new(TCP, "example.com:notaport".to_string()));
    assert_eq!(route_to_multiaddr(&route), Err(Error::MalformedSegment));
}

#[test]
fn stray_tcp_unsupported() {
    let addr = MultiAddr::parse("/tcp/80").unwrap();
    assert_eq!(
        multiaddr_to_route(&addr),
        Err(Error::UnsupportedProtocol { code: "tcp".to_string() })
    );
}

#[test]
fn empty_multiaddr_edge_cases() {
    let addr = MultiAddr::default();
    assert_eq!(multiaddr_to_route(&addr).unwrap().len(), 0);
    assert_eq!(multiaddr_to_addr(&addr), None);
    assert_eq!(MultiAddr::parse("").unwrap(), addr);
    assert_eq!(MultiAddr::parse("/").unwrap(), addr);
    assert_eq!(route_to_multiaddr(&Route::new()).unwrap(), addr);
}

#[test]
fn terminal_address_needs_port_after_host() {
    // unlike the route builder, the extractor refuses a bare host
    let addr = MultiAddr::parse("/dns4/example.com").unwrap();
    assert_eq!(multiaddr_to_addr(&addr), None);
    let paired = MultiAddr::parse("/dns4/example.com/tcp/4000").unwrap();
    let hop = multiaddr_to_addr(&paired).unwrap();
    assert_eq!(hop.transport_type(), TCP);
    assert_eq!(hop.address(), "example.com:4000");
}
