//! The translation core: alias resolution, route building, terminal address
//! extraction, and the reverse step that rebuilds a multiaddr out of a route.

use vstd::prelude::*;
use vstd::string::StrSliceExecFns;
use vstd::string::StringExecFns;
use crate::addr::{
    fmt_sock4, fmt_sock6, parse_sock4, parse_sock6, sock4_text, sock6_text, spec_parse_sock4,
    spec_parse_sock6,
};
use crate::error::{Error, ErrorV, oview, rview};
use crate::lookup::{ConfigLookup, InternetAddress, InternetAddressV, spec_get};
use crate::route::{Address, AddressV, Route, LOCAL, TCP};
use crate::segment::{MultiAddr, SegV, Segment};
use crate::text::{dec_str, fmt_dec, find_char, parse_u16, spec_find, spec_parse_u16};

verus! {

/// The textual protocol code of a `Tcp` segment, carried in diagnostics.
pub open spec fn tcp_code() -> Seq<char> {
    seq!['t', 'c', 'p']
}

/// The two concrete segments that a resolved alias expands to: an address
/// segment followed by the entry's port as a `Tcp` segment.
pub open spec fn expand_entry(e: InternetAddressV) -> Seq<SegV> {
    match e {
        InternetAddressV::Dns { host, port } => seq![
            SegV::DnsAddr { host },
            SegV::Tcp { port },
        ],
        InternetAddressV::V4 { addr, port } => seq![SegV::Ip4 { addr }, SegV::Tcp { port }],
        InternetAddressV::V6 { addr, port } => seq![SegV::Ip6 { addr }, SegV::Tcp { port }],
    }
}

/// Resolution of one segment: a non-`Node` segment passes through unchanged;
/// a `Node` segment expands via the lookup table or fails.
pub open spec fn resolve_seg(
    s: SegV,
    t: Seq<(Seq<char>, InternetAddressV)>,
) -> Result<Seq<SegV>, ErrorV> {
    match s {
        SegV::Node { alias } => match spec_get(t, alias) {
            Some(e) => Ok(expand_entry(e)),
            None => Err(ErrorV::UnknownAlias { alias }),
        },
        _ => Ok(seq![s]),
    }
}

/// Resolution of a whole multiaddr, left to right; the first missing alias
/// decides the error.
pub open spec fn resolve_of(
    ma: Seq<SegV>,
    t: Seq<(Seq<char>, InternetAddressV)>,
) -> Result<Seq<SegV>, ErrorV>
    decreases ma.len(),
{
    if ma.len() == 0 {
        Ok(Seq::empty())
    } else {
        match resolve_seg(ma[0], t) {
            Err(e) => Err(e),
            Ok(first) => match resolve_of(ma.drop_first(), t) {
                Err(e) => Err(e),
                Ok(rest) => Ok(first + rest),
            },
        }
    }
}

/// Route built from a multiaddr by scanning with one-segment lookahead:
/// an `Ip4`/`Ip6` must be followed by a `Tcp` and the pair becomes one TCP
/// hop; a `DnsAddr` takes a following `Tcp` if there is one, else its literal
/// string is the whole hop address; a `Service` becomes one LOCAL hop; a
/// `Node` is an invariant violation; a stray `Tcp` is an unsupported code.
pub open spec fn route_of(ma: Seq<SegV>) -> Result<Seq<AddressV>, ErrorV>
    decreases ma.len(),
{
    if ma.len() == 0 {
        Ok(Seq::empty())
    } else {
        match ma[0] {
            SegV::Node { .. } => Err(ErrorV::InvariantViolation),
            SegV::Tcp { .. } => Err(ErrorV::UnsupportedProtocol { code: tcp_code() }),
            SegV::Service { name } => match route_of(ma.drop_first()) {
                Ok(rest) => Ok(seq![AddressV { tt: LOCAL, addr: name }] + rest),
                Err(e) => Err(e),
            },
            SegV::Ip4 { addr } => if ma.len() >= 2 {
                match ma[1] {
                    SegV::Tcp { port } => match route_of(ma.skip(2)) {
                        Ok(rest) => Ok(
                            seq![AddressV { tt: TCP, addr: sock4_text(addr, port) }] + rest,
                        ),
                        Err(e) => Err(e),
                    },
                    _ => Err(ErrorV::MalformedSegment),
                }
            } else {
                Err(ErrorV::MalformedSegment)
            },
            SegV::Ip6 { addr } => if ma.len() >= 2 {
                match ma[1] {
                    SegV::Tcp { port } => match route_of(ma.skip(2)) {
                        Ok(rest) => Ok(
                            seq![AddressV { tt: TCP, addr: sock6_text(addr, port) }] + rest,
                        ),
                        Err(e) => Err(e),
                    },
                    _ => Err(ErrorV::MalformedSegment),
                }
            } else {
                Err(ErrorV::MalformedSegment)
            },
            SegV::DnsAddr { host } => if ma.len() >= 2 {
                match ma[1] {
                    SegV::Tcp { port } => match route_of(ma.skip(2)) {
                        Ok(rest) => Ok(
                            seq![
                                AddressV { tt: TCP, addr: host + seq![':'] + dec_str(port as nat) },
                            ] + rest,
                        ),
                        Err(e) => Err(e),
                    },
                    _ => match route_of(ma.drop_first()) {
                        Ok(rest) => Ok(seq![AddressV { tt: TCP, addr: host }] + rest),
                        Err(e) => Err(e),
                    },
                }
            } else {
                match route_of(ma.drop_first()) {
                    Ok(rest) => Ok(seq![AddressV { tt: TCP, addr: host }] + rest),
                    Err(e) => Err(e),
                }
            },
        }
    }
}

/// The terminal hop address of a multiaddr: decided by the first segment
/// alone (with a one-segment lookahead after a `DnsAddr`).
pub open spec fn addr_of(ma: Seq<SegV>) -> Option<AddressV> {
    if ma.len() == 0 {
        None
    } else {
        match ma[0] {
            SegV::DnsAddr { host } => if ma.len() >= 2 {
                match ma[1] {
                    SegV::Tcp { port } => Some(
                        AddressV { tt: TCP, addr: host + seq![':'] + dec_str(port as nat) },
                    ),
                    _ => None,
                }
            } else {
                None
            },
            SegV::Service { name } => Some(AddressV { tt: LOCAL, addr: name }),
            _ => None,
        }
    }
}

/// The segments that one hop translates back to.  A TCP hop's address string
/// is read, in order, as an IPv4 socket address, an IPv6 socket address, a
/// `"host:port"` string split at the first colon (whose port part must be a
/// valid sixteen-bit decimal), or a bare host; a LOCAL hop becomes one
/// `Service` segment; any other transport tag fails.
pub open spec fn hop_segs(h: AddressV) -> Result<Seq<SegV>, ErrorV> {
    if h.tt == TCP {
        match spec_parse_sock4(h.addr) {
            Some((a, p)) => Ok(seq![SegV::Ip4 { addr: a }, SegV::Tcp { port: p }]),
            None => match spec_parse_sock6(h.addr) {
                Some((a, p)) => Ok(seq![SegV::Ip6 { addr: a }, SegV::Tcp { port: p }]),
                None => {
                    let j = spec_find(h.addr, ':', 0);
                    if j < h.addr.len() {
                        match spec_parse_u16(h.addr.subrange(j + 1, h.addr.len() as int)) {
                            Some(p) => Ok(
                                seq![
                                    SegV::DnsAddr { host: h.addr.subrange(0, j) },
                                    SegV::Tcp { port: p },
                                ],
                            ),
                            None => Err(ErrorV::MalformedSegment),
                        }
                    } else {
                        Ok(seq![SegV::DnsAddr { host: h.addr }])
                    }
                },
            },
        }
    } else if h.tt == LOCAL {
        Ok(seq![SegV::Service { name: h.addr }])
    } else {
        Err(ErrorV::UnsupportedTransport { code: h.tt })
    }
}

/// The multiaddr that a whole route translates back to, hop by hop.
pub open spec fn multiaddr_of(r: Seq<AddressV>) -> Result<Seq<SegV>, ErrorV>
    decreases r.len(),
{
    if r.len() == 0 {
        Ok(Seq::empty())
    } else {
        match hop_segs(r[0]) {
            Err(e) => Err(e),
            Ok(first) => match multiaddr_of(r.drop_first()) {
                Err(e) => Err(e),
                Ok(rest) => Ok(first + rest),
            },
        }
    }
}

/// Resolves the segments of `input` from index `i` on.
fn resolve_from(input: &MultiAddr, lookup: &ConfigLookup, i: usize) -> (r: Result<
    MultiAddr,
    Error,
>)
    requires
        i <= input@.len(),
    ensures
        rview(r) == resolve_of(input@.skip(i as int), lookup@),
    decreases input@.len() - i,
{
    let n = input.len();
    if i == n {
        proof {
            assert(input@.skip(i as int) =~= Seq::<SegV>::empty());
        }
        return Ok(MultiAddr::new());
    }
    let ghost tail = input@.skip(i as int);
    proof {
        assert(tail[0] == input@[i as int]);
        assert(tail.drop_first() =~= input@.skip(i as int + 1));
    }
    let seg = input.get(i);
    let mut out = MultiAddr::new();
    match seg {
        Segment::Node { alias } => match lookup.get_node(alias) {
            Some(entry) => {
                let port = entry.port();
                match entry {
                    InternetAddress::Dns { host, .. } => {
                        out.push_back(Segment::DnsAddr { host: host.clone() });
                        out.push_back(Segment::Tcp { port });
                    },
                    InternetAddress::V4 { addr, .. } => {
                        out.push_back(Segment::Ip4 { addr: *addr });
                        out.push_back(Segment::Tcp { port });
                    },
                    InternetAddress::V6 { addr, .. } => {
                        out.push_back(Segment::Ip6 { addr: *addr });
                        out.push_back(Segment::Tcp { port });
                    },
                }
                proof {
                    assert(out@ =~= expand_entry(entry@));
                }
            },
            None => {
                return Err(Error::UnknownAlias { alias: alias.clone() });
            },
        },
        _ => {
            out.push_back(seg.duplicate());
            proof {
                assert(out@ =~= seq![tail[0]]);
            }
        },
    }
    let ghost first = out@;
    proof {
        assert(resolve_seg(tail[0], lookup@) == Ok::<Seq<SegV>, ErrorV>(first));
    }
    match resolve_from(input, lookup, i + 1) {
        Ok(rest) => {
            let ghost restv = rest@;
            out.push_all(rest);
            proof {
                assert(out@ =~= first + restv);
            }
            Ok(out)
        },
        Err(e) => Err(e),
    }
}

/// Rewrites a multiaddr by expanding every `/node/<alias>` segment into the
/// fully qualified address of the target, via the lookup table; all other
/// segments pass through unchanged.
pub fn clean_multiaddr(input: &MultiAddr, lookup: &ConfigLookup) -> (r: Result<MultiAddr, Error>)
    ensures
        rview(r) == resolve_of(input@, lookup@),
{
    let r = resolve_from(input, lookup, 0);
    proof {
        assert(input@.skip(0) =~= input@);
    }
    r
}

/// Builds the route for the segments of `ma` from index `i` on.
fn to_route_from(ma: &MultiAddr, i: usize) -> (r: Result<Route, Error>)
    requires
        i <= ma@.len(),
    ensures
        rview(r) == route_of(ma@.skip(i as int)),
    decreases ma@.len() - i,
{
    let n = ma.len();
    if i == n {
        proof {
            assert(ma@.skip(i as int) =~= Seq::<SegV>::empty());
        }
        return Ok(Route::new());
    }
    let ghost tail = ma@.skip(i as int);
    proof {
        assert(tail[0] == ma@[i as int]);
        assert(tail.drop_first() =~= ma@.skip(i as int + 1));
        if i + 1 < n {
            assert(tail[1] == ma@[i as int + 1]);
            assert(tail.skip(2) =~= ma@.skip(i as int + 2));
        }
    }
    match ma.get(i) {
        Segment::Node { .. } => Err(Error::InvariantViolation),
        Segment::Tcp { .. } => {
            let code: String = "tcp".to_owned();
            proof {
                reveal_strlit("tcp");
                assert(code@ =~= tcp_code());
            }
            Err(Error::UnsupportedProtocol { code })
        },
        Segment::Service { name } => {
            let hop = Address::new(LOCAL, name.clone());
            match to_route_from(ma, i + 1) {
                Ok(rest) => {
                    let ghost restv = rest@;
                    let mut out = Route::new().append(hop);
                    out.push_all(rest);
                    proof {
                        assert(out@ =~= seq![hop@] + restv);
                    }
                    Ok(out)
                },
                Err(e) => Err(e),
            }
        },
        Segment::Ip4 { addr } => {
            if i + 1 >= n {
                return Err(Error::MalformedSegment);
            }
            match ma.get(i + 1) {
                Segment::Tcp { port } => {
                    let hop = Address::new(TCP, fmt_sock4(addr, *port));
                    match to_route_from(ma, i + 2) {
                        Ok(rest) => {
                            let ghost restv = rest@;
                            let mut out = Route::new().append(hop);
                            out.push_all(rest);
                            proof {
                                assert(out@ =~= seq![hop@] + restv);
                            }
                            Ok(out)
                        },
                        Err(e) => Err(e),
                    }
                },
                _ => Err(Error::MalformedSegment),
            }
        },
        Segment::Ip6 { addr } => {
            if i + 1 >= n {
                return Err(Error::MalformedSegment);
            }
            match ma.get(i + 1) {
                Segment::Tcp { port } => {
                    let hop = Address::new(TCP, fmt_sock6(addr, *port));
                    match to_route_from(ma, i + 2) {
                        Ok(rest) => {
                            let ghost restv = rest@;
                            let mut out = Route::new().append(hop);
                            out.push_all(rest);
                            proof {
                                assert(out@ =~= seq![hop@] + restv);
                            }
                            Ok(out)
                        },
                        Err(e) => Err(e),
                    }
                },
                _ => Err(Error::MalformedSegment),
            }
        },
        Segment::DnsAddr { host } => {
            if i + 1 < n {
                match ma.get(i + 1) {
                    Segment::Tcp { port } => {
                        proof {
                            reveal_strlit(":");
                        }
                        let mut s = host.clone();
                        s.append(":");
                        s.append(fmt_dec(*port).as_str());
                        proof {
                            assert(s@ =~= host@ + seq![':'] + dec_str(*port as nat));
                        }
                        let hop = Address::new(TCP, s);
                        match to_route_from(ma, i + 2) {
                            Ok(rest) => {
                                let ghost restv = rest@;
                                let mut out = Route::new().append(hop);
                                out.push_all(rest);
                                proof {
                                    assert(out@ =~= seq![hop@] + restv);
                                }
                                Ok(out)
                            },
                            Err(e) => Err(e),
                        }
                    },
                    _ => {
                        let hop = Address::new(TCP, host.clone());
                        match to_route_from(ma, i + 1) {
                            Ok(rest) => {
                                let ghost restv = rest@;
                                let mut out = Route::new().append(hop);
                                out.push_all(rest);
                                proof {
                                    assert(out@ =~= seq![hop@] + restv);
                                }
                                Ok(out)
                            },
                            Err(e) => Err(e),
                        }
                    },
                }
            } else {
                let hop = Address::new(TCP, host.clone());
                match to_route_from(ma, i + 1) {
                    Ok(rest) => {
                        let ghost restv = rest@;
                        let mut out = Route::new().append(hop);
                        out.push_all(rest);
                        proof {
                            assert(out@ =~= seq![hop@] + restv);
                        }
                        Ok(out)
                    },
                    Err(e) => Err(e),
                }
            }
        },
    }
}

/// Converts a multiaddr to a route.  The multiaddr must already be resolved:
/// a `Node` segment is reported as an invariant violation, since the caller
/// skipped `clean_multiaddr`.  No partial route is returned on failure.
pub fn multiaddr_to_route(ma: &MultiAddr) -> (r: Result<Route, Error>)
    ensures
        rview(r) == route_of(ma@),
{
    let r = to_route_from(ma, 0);
    proof {
        assert(ma@.skip(0) =~= ma@);
    }
    r
}

/// Extracts a single terminal hop address from the first segment of a
/// multiaddr: a `DnsAddr` followed by a `Tcp` combines into one TCP hop, a
/// `Service` becomes one LOCAL hop, and anything else yields nothing.
pub fn multiaddr_to_addr(ma: &MultiAddr) -> (r: Option<Address>)
    ensures
        oview(r) == addr_of(ma@),
{
    let n = ma.len();
    if n == 0 {
        return None;
    }
    match ma.get(0) {
        Segment::DnsAddr { host } => {
            if n >= 2 {
                match ma.get(1) {
                    Segment::Tcp { port } => {
                        proof {
                            reveal_strlit(":");
                        }
                        let mut s = host.clone();
                        s.append(":");
                        s.append(fmt_dec(*port).as_str());
                        proof {
                            assert(s@ =~= host@ + seq![':'] + dec_str(*port as nat));
                        }
                        Some(Address::new(TCP, s))
                    },
                    _ => None,
                }
            } else {
                None
            }
        },
        Segment::Service { name } => Some(Address::new(LOCAL, name.clone())),
        _ => None,
    }
}

/// Translates the hops of `r` back to segments, from index `i` on.
fn from_route_from(r: &Route, i: usize) -> (res: Result<MultiAddr, Error>)
    requires
        i <= r@.len(),
    ensures
        rview(res) == multiaddr_of(r@.skip(i as int)),
    decreases r@.len() - i,
{
    let n = r.len();
    if i == n {
        proof {
            assert(r@.skip(i as int) =~= Seq::<AddressV>::empty());
        }
        return Ok(MultiAddr::new());
    }
    let ghost tail = r@.skip(i as int);
    proof {
        assert(tail[0] == r@[i as int]);
        assert(tail.drop_first() =~= r@.skip(i as int + 1));
    }
    let a = r.get(i);
    let mut out = MultiAddr::new();
    if a.transport_type() == TCP {
        let s = a.address();
        match parse_sock4(s) {
            Some((ip, port)) => {
                out.push_back(Segment::Ip4 { addr: ip });
                out.push_back(Segment::Tcp { port });
                proof {
                    assert(out@ =~= seq![SegV::Ip4 { addr: ip }, SegV::Tcp { port }]);
                }
            },
            None => match parse_sock6(s) {
                Some((ip, port)) => {
                    out.push_back(Segment::Ip6 { addr: ip });
                    out.push_back(Segment::Tcp { port });
                    proof {
                        assert(out@ =~= seq![SegV::Ip6 { addr: ip }, SegV::Tcp { port }]);
                    }
                },
                None => {
                    let m = s.unicode_len();
                    let j = find_char(s, ':', 0);
                    if j < m {
                        let host = s.substring_char(0, j).to_owned();
                        match parse_u16(s.substring_char(j + 1, m)) {
                            Some(p) => {
                                let ghost hostv = host@;
                                out.push_back(Segment::DnsAddr { host });
                                out.push_back(Segment::Tcp { port: p });
                                proof {
                                    assert(out@ =~= seq![
                                        SegV::DnsAddr { host: hostv },
                                        SegV::Tcp { port: p },
                                    ]);
                                }
                            },
                            None => {
                                return Err(Error::MalformedSegment);
                            },
                        }
                    } else {
                        out.push_back(Segment::DnsAddr { host: s.to_owned() });
                        proof {
                            assert(out@ =~= seq![SegV::DnsAddr { host: s@ }]);
                        }
                    }
                },
            },
        }
    } else if a.transport_type() == LOCAL {
        out.push_back(Segment::Service { name: a.address().to_owned() });
        proof {
            assert(out@ =~= seq![SegV::Service { name: tail[0].addr }]);
        }
    } else {
        return Err(Error::UnsupportedTransport { code: a.transport_type() });
    }
    let ghost first = out@;
    proof {
        assert(hop_segs(tail[0]) == Ok::<Seq<SegV>, ErrorV>(first));
    }
    match from_route_from(r, i + 1) {
        Ok(rest) => {
            let ghost restv = rest@;
            out.push_all(rest);
            proof {
                assert(out@ =~= first + restv);
            }
            Ok(out)
        },
        Err(e) => Err(e),
    }
}

/// Reconstructs a multiaddr from an existing route, for display or
/// re-persistence.  The inverse of `multiaddr_to_route` up to the handling
/// of bare `DnsAddr` hop strings that happen to contain a colon.
pub fn route_to_multiaddr(r: &Route) -> (res: Result<MultiAddr, Error>)
    ensures
        rview(res) == multiaddr_of(r@),
{
    let res = from_route_from(r, 0);
    proof {
        assert(r@.skip(0) =~= r@);
    }
    res
}

} // verus!
