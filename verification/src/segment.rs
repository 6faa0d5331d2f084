//! The protocol segment model: the closed set of typed multiaddr path
//! elements, and multiaddrs as ordered sequences of them.

use vstd::prelude::*;
use vstd::string::StrSliceExecFns;
use vstd::string::StringExecFns;
use crate::addr::{
    Ip4Addr, Ip6Addr, fmt_ip4, fmt_ip6, ip4_text, ip6_text, parse_ip4, parse_ip6, spec_parse_ip4,
    spec_parse_ip6,
};
use crate::error::{Error, ErrorV, rview};
use crate::text::{
    dec_str, fmt_dec, find_char, lemma_find_bounds, parse_u16, spec_find, spec_parse_u16,
};

verus! {

/// Mathematical model of one protocol segment.
#[verifier::ext_equal]
pub enum SegV {
    Node { alias: Seq<char> },
    DnsAddr { host: Seq<char> },
    Ip4 { addr: Ip4Addr },
    Ip6 { addr: Ip6Addr },
    Tcp { port: u16 },
    Service { name: Seq<char> },
}

/// One typed element of a multiaddr path.
///
/// `Node` is a symbolic alias that must be resolved before a route can be
/// built; `DnsAddr` holds a hostname (or a literal `"host:port"` string);
/// `Tcp` is a port that pairs with the address segment before it; `Service`
/// names an in-process endpoint.
#[derive(Debug, PartialEq)]
pub enum Segment {
    Node { alias: String },
    DnsAddr { host: String },
    Ip4 { addr: Ip4Addr },
    Ip6 { addr: Ip6Addr },
    Tcp { port: u16 },
    Service { name: String },
}

impl View for Segment {
    type V = SegV;

    open spec fn view(&self) -> SegV {
        match self {
            Segment::Node { alias } => SegV::Node { alias: alias@ },
            Segment::DnsAddr { host } => SegV::DnsAddr { host: host@ },
            Segment::Ip4 { addr } => SegV::Ip4 { addr: *addr },
            Segment::Ip6 { addr } => SegV::Ip6 { addr: *addr },
            Segment::Tcp { port } => SegV::Tcp { port: *port },
            Segment::Service { name } => SegV::Service { name: name@ },
        }
    }
}

impl Segment {
    /// A fresh segment with the same value.
    pub fn duplicate(&self) -> (r: Segment)
        ensures
            r@ == self@,
    {
        match self {
            Segment::Node { alias } => Segment::Node { alias: alias.clone() },
            Segment::DnsAddr { host } => Segment::DnsAddr { host: host.clone() },
            Segment::Ip4 { addr } => Segment::Ip4 { addr: *addr },
            Segment::Ip6 { addr } => Segment::Ip6 { addr: *addr },
            Segment::Tcp { port } => Segment::Tcp { port: *port },
            Segment::Service { name } => Segment::Service { name: name.clone() },
        }
    }
}

/// An ordered sequence of protocol segments; order is significant, and the
/// empty multiaddr is valid.
#[derive(Debug, PartialEq)]
pub struct MultiAddr {
    pub segments: Vec<Segment>,
}

impl View for MultiAddr {
    type V = Seq<SegV>;

    open spec fn view(&self) -> Seq<SegV> {
        self.segments@.map_values(|s: Segment| s@)
    }
}

impl Default for MultiAddr {
    /// The empty multiaddr.
    fn default() -> (r: MultiAddr)
        ensures
            r@ == Seq::<SegV>::empty(),
    {
        let r = MultiAddr { segments: Vec::new() };
        proof {
            assert(r@ =~= Seq::<SegV>::empty());
        }
        r
    }
}

impl MultiAddr {
    /// The empty multiaddr.
    pub fn new() -> (r: MultiAddr)
        ensures
            r@ == Seq::<SegV>::empty(),
    {
        let r = MultiAddr { segments: Vec::new() };
        proof {
            assert(r@ =~= Seq::<SegV>::empty());
        }
        r
    }

    /// Appends one segment at the end.
    pub fn push_back(&mut self, s: Segment)
        ensures
            final(self)@ == old(self)@.push(s@),
    {
        self.segments.push(s);
        proof {
            assert(self@ =~= old(self)@.push(s@));
        }
    }

    /// Number of segments.
    pub fn len(&self) -> (r: usize)
        ensures
            r == self@.len(),
    {
        self.segments.len()
    }

    /// The segment at index `i`.
    pub fn get(&self, i: usize) -> (r: &Segment)
        requires
            i < self@.len(),
        ensures
            r@ == self@[i as int],
    {
        &self.segments[i]
    }

    /// Appends all segments of `other` at the end.
    pub fn push_all(&mut self, other: MultiAddr)
        ensures
            final(self)@ == old(self)@ + other@,
    {
        let ghost ov = other@;
        let mut o = other;
        self.segments.append(&mut o.segments);
        proof {
            assert(self@ =~= old(self)@ + ov);
        }
    }

    /// Renders the multiaddr as `/`-delimited text.
    pub fn to_text(&self) -> (r: String)
        ensures
            r@ == ma_text(self@),
    {
        let r = to_text_from(self, 0);
        proof {
            assert(self@.skip(0) =~= self@);
        }
        r
    }

    /// Parses `/`-delimited multiaddr text.
    pub fn parse(s: &str) -> (r: Result<MultiAddr, Error>)
        ensures
            rview(r) == spec_parse_ma(s@),
    {
        parse_ma_from(s, 0)
    }

    /// A fresh multiaddr with the same segments.
    pub fn duplicate(&self) -> (r: MultiAddr)
        ensures
            r@ == self@,
    {
        let mut out = MultiAddr::new();
        let n = self.segments.len();
        let mut i: usize = 0;
        while i < n
            invariant
                i <= n,
                n == self@.len(),
                out@ =~= self@.take(i as int),
            decreases n - i,
        {
            out.push_back(self.get(i).duplicate());
            i = i + 1;
        }
        proof {
            assert(self@.take(n as int) =~= self@);
        }
        out
    }
}

/// The text of one segment: `/<code>/<value>`.
pub open spec fn seg_text(s: SegV) -> Seq<char> {
    match s {
        SegV::Node { alias } => "/node/"@ + alias,
        SegV::DnsAddr { host } => "/dnsaddr/"@ + host,
        SegV::Ip4 { addr } => "/ip4/"@ + ip4_text(addr),
        SegV::Ip6 { addr } => "/ip6/"@ + ip6_text(addr),
        SegV::Tcp { port } => "/tcp/"@ + dec_str(port as nat),
        SegV::Service { name } => "/service/"@ + name,
    }
}

/// The text of a whole multiaddr: its segments' texts in order.
pub open spec fn ma_text(ma: Seq<SegV>) -> Seq<char>
    decreases ma.len(),
{
    if ma.len() == 0 {
        Seq::empty()
    } else {
        seg_text(ma[0]) + ma_text(ma.drop_first())
    }
}

/// Renders the segments of `ma` from index `i` on.
fn to_text_from(ma: &MultiAddr, i: usize) -> (r: String)
    requires
        i <= ma@.len(),
    ensures
        r@ == ma_text(ma@.skip(i as int)),
    decreases ma@.len() - i,
{
    let n = ma.len();
    if i == n {
        proof {
            assert(ma@.skip(i as int) =~= Seq::<SegV>::empty());
        }
        return String::new();
    }
    let ghost tail = ma@.skip(i as int);
    proof {
        assert(tail[0] == ma@[i as int]);
        assert(tail.drop_first() =~= ma@.skip(i as int + 1));
    }
    let mut r: String = match ma.get(i) {
        Segment::Node { alias } => {
            let mut p: String = "/node/".to_owned();
            p.append(alias.as_str());
            proof {
                assert(p@ == seg_text(tail[0]));
            }
            p
        },
        Segment::DnsAddr { host } => {
            let mut p: String = "/dnsaddr/".to_owned();
            p.append(host.as_str());
            proof {
                assert(p@ == seg_text(tail[0]));
            }
            p
        },
        Segment::Ip4 { addr } => {
            let mut p: String = "/ip4/".to_owned();
            p.append(fmt_ip4(addr).as_str());
            proof {
                assert(p@ == seg_text(tail[0]));
            }
            p
        },
        Segment::Ip6 { addr } => {
            let mut p: String = "/ip6/".to_owned();
            p.append(fmt_ip6(addr).as_str());
            proof {
                assert(p@ == seg_text(tail[0]));
            }
            p
        },
        Segment::Tcp { port } => {
            let mut p: String = "/tcp/".to_owned();
            p.append(fmt_dec(*port).as_str());
            proof {
                assert(p@ == seg_text(tail[0]));
            }
            p
        },
        Segment::Service { name } => {
            let mut p: String = "/service/".to_owned();
            p.append(name.as_str());
            proof {
                assert(p@ == seg_text(tail[0]));
            }
            p
        },
    };
    let rest = to_text_from(ma, i + 1);
    r.append(rest.as_str());
    r
}

/// Parsed value of multiaddr text from position `i` on: a sequence of
/// `/<code>/<value>` pairs, possibly ending right after a final `/`.  An
/// unknown protocol code fails with `UnsupportedProtocol` carrying the code;
/// a payload that does not decode as its declared type, a missing value, or
/// text that does not start with `/` fails with `MalformedSegment`.
pub open spec fn spec_parse_ma_from(s: Seq<char>, i: int) -> Result<Seq<SegV>, ErrorV>
    decreases s.len() - i,
    via spec_parse_ma_from_dec
{
    if i < 0 {
        Err(ErrorV::MalformedSegment)
    } else if i >= s.len() {
        Ok(Seq::empty())
    } else if s[i] != '/' {
        Err(ErrorV::MalformedSegment)
    } else if i + 1 == s.len() {
        Ok(Seq::empty())
    } else {
        let j = spec_find(s, '/', i + 1);
        let name = s.subrange(i + 1, j);
        if name.len() == 0 {
            Err(ErrorV::MalformedSegment)
        } else if j >= s.len() {
            Err(ErrorV::MalformedSegment)
        } else {
            let k = spec_find(s, '/', j + 1);
            let value = s.subrange(j + 1, k);
            let seg: Result<SegV, ErrorV> = if name == "node"@ {
                Ok(SegV::Node { alias: value })
            } else if name == "dns4"@ || name == "dns6"@ || name == "dnsaddr"@ {
                Ok(SegV::DnsAddr { host: value })
            } else if name == "ip4"@ {
                match spec_parse_ip4(value) {
                    Some(a) => Ok(SegV::Ip4 { addr: a }),
                    None => Err(ErrorV::MalformedSegment),
                }
            } else if name == "ip6"@ {
                match spec_parse_ip6(value) {
                    Some(a) => Ok(SegV::Ip6 { addr: a }),
                    None => Err(ErrorV::MalformedSegment),
                }
            } else if name == "tcp"@ {
                match spec_parse_u16(value) {
                    Some(p) => Ok(SegV::Tcp { port: p }),
                    None => Err(ErrorV::MalformedSegment),
                }
            } else if name == "service"@ {
                Ok(SegV::Service { name: value })
            } else {
                Err(ErrorV::UnsupportedProtocol { code: name })
            };
            match seg {
                Err(e) => Err(e),
                Ok(sv) => match spec_parse_ma_from(s, k) {
                    Err(e) => Err(e),
                    Ok(rest) => Ok(seq![sv] + rest),
                },
            }
        }
    }
}

#[via_fn]
proof fn spec_parse_ma_from_dec(s: Seq<char>, i: int) {
    if 0 <= i && i < s.len() && s[i] == '/' && i + 1 < s.len() {
        lemma_find_bounds(s, '/', i + 1);
        let j = spec_find(s, '/', i + 1);
        if j < s.len() {
            lemma_find_bounds(s, '/', j + 1);
        }
    }
}

/// Parsed value of whole multiaddr text.
pub open spec fn spec_parse_ma(s: Seq<char>) -> Result<Seq<SegV>, ErrorV> {
    spec_parse_ma_from(s, 0)
}

/// Parses the segments of `s` from position `i` on.
fn parse_ma_from(s: &str, i: usize) -> (r: Result<MultiAddr, Error>)
    requires
        i <= s@.len(),
    ensures
        rview(r) == spec_parse_ma_from(s@, i as int),
    decreases s@.len() - i,
{
    let n = s.unicode_len();
    if i == n {
        return Ok(MultiAddr::new());
    }
    if s.get_char(i) != '/' {
        return Err(Error::MalformedSegment);
    }
    if i + 1 == n {
        return Ok(MultiAddr::new());
    }
    let j = find_char(s, '/', i + 1);
    proof {
        lemma_find_bounds(s@, '/', i as int + 1);
    }
    if j == i + 1 {
        proof {
            assert(s@.subrange(i as int + 1, j as int).len() == 0);
        }
        return Err(Error::MalformedSegment);
    }
    if j >= n {
        return Err(Error::MalformedSegment);
    }
    let k = find_char(s, '/', j + 1);
    proof {
        lemma_find_bounds(s@, '/', j as int + 1);
    }
    let name: String = s.substring_char(i + 1, j).to_owned();
    let value: &str = s.substring_char(j + 1, k);
    let seg: Segment = if name == "node".to_owned() {
        Segment::Node { alias: value.to_owned() }
    } else if name == "dns4".to_owned() || name == "dns6".to_owned() || name
        == "dnsaddr".to_owned() {
        Segment::DnsAddr { host: value.to_owned() }
    } else if name == "ip4".to_owned() {
        match parse_ip4(value) {
            Some(a) => Segment::Ip4 { addr: a },
            None => {
                return Err(Error::MalformedSegment);
            },
        }
    } else if name == "ip6".to_owned() {
        match parse_ip6(value) {
            Some(a) => Segment::Ip6 { addr: a },
            None => {
                return Err(Error::MalformedSegment);
            },
        }
    } else if name == "tcp".to_owned() {
        match parse_u16(value) {
            Some(p) => Segment::Tcp { port: p },
            None => {
                return Err(Error::MalformedSegment);
            },
        }
    } else if name == "service".to_owned() {
        Segment::Service { name: value.to_owned() }
    } else {
        return Err(Error::UnsupportedProtocol { code: name });
    };
    match parse_ma_from(s, k) {
        Ok(rest) => {
            let ghost restv = rest@;
            let ghost segv = seg@;
            let mut out = MultiAddr::new();
            out.push_back(seg);
            out.push_all(rest);
            proof {
                assert(out@ =~= seq![segv] + restv);
            }
            Ok(out)
        },
        Err(e) => Err(e),
    }
}

} // verus!
