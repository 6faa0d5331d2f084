//! Laws of the translation core, proved once and for all inputs: resolution
//! is the identity on alias-free multiaddrs, a resolved alias expands to
//! exactly one address/port pair, a missing alias is the only resolution
//! failure, a trailing bare address segment defeats the route builder, an
//! unresolved node defeats it too, and the reverse translation round-trips
//! the shape of every translatable route.

use vstd::prelude::*;
use crate::error::ErrorV;
use crate::lookup::{InternetAddressV, spec_get};
use crate::segment::SegV;
use crate::route::AddressV;
use crate::util::{expand_entry, hop_segs, multiaddr_of, resolve_of, resolve_seg, route_of};

verus! {

/// The segment is a symbolic node alias.
pub open spec fn is_node(s: SegV) -> bool {
    s matches SegV::Node { .. }
}

/// The segment is a bare TCP port.
pub open spec fn is_tcp(s: SegV) -> bool {
    s matches SegV::Tcp { .. }
}

/// The segment carries an address that a following `Tcp` can pair with.
pub open spec fn is_addr_bearing(s: SegV) -> bool {
    s matches SegV::Ip4 { .. } || s matches SegV::Ip6 { .. } || s matches SegV::DnsAddr { .. }
}

/// No segment of `ma` is a node alias.
pub open spec fn no_node(ma: Seq<SegV>) -> bool {
    forall|i: int| 0 <= i < ma.len() ==> !is_node(#[trigger] ma[i])
}

/// Every `Tcp` segment of `ma` immediately follows an address-bearing
/// segment.
pub open spec fn tcp_paired(ma: Seq<SegV>) -> bool {
    forall|i: int| 0 <= i < ma.len() && is_tcp(#[trigger] ma[i]) ==> i > 0 && is_addr_bearing(
        ma[i - 1],
    )
}

/// Some segment of `ma` is a node alias whose alias is absent from `t`.
pub open spec fn has_unknown_alias(ma: Seq<SegV>, t: Seq<(Seq<char>, InternetAddressV)>) -> bool {
    exists|i: int|
        #![trigger ma[i]]
        0 <= i < ma.len() && (ma[i] matches SegV::Node { alias } && spec_get(t, alias) is None)
}

/// Law: the alias resolver returns a multiaddr that contains no node segment
/// unchanged.
pub proof fn lemma_resolve_identity(ma: Seq<SegV>, t: Seq<(Seq<char>, InternetAddressV)>)
    requires
        no_node(ma),
    ensures
        resolve_of(ma, t) == Ok::<Seq<SegV>, ErrorV>(ma),
    decreases ma.len(),
{
    if ma.len() == 0 {
        assert(ma =~= Seq::<SegV>::empty());
    } else {
        assert(!is_node(ma[0]));
        assert(no_node(ma.drop_first())) by {
            assert(forall|i: int| 0 <= i < ma.drop_first().len() ==> #[trigger] ma.drop_first()[i]
                == ma[i + 1]);
        }
        lemma_resolve_identity(ma.drop_first(), t);
        assert(seq![ma[0]] + ma.drop_first() =~= ma);
    }
}

/// Law: resolving a node segment whose alias the table maps to `e` yields
/// exactly two segments, the entry's address followed by a `Tcp` segment
/// carrying the entry's port.
pub proof fn lemma_resolve_alias_present(
    alias: Seq<char>,
    t: Seq<(Seq<char>, InternetAddressV)>,
    e: InternetAddressV,
)
    requires
        spec_get(t, alias) == Some(e),
    ensures
        resolve_of(seq![SegV::Node { alias }], t) == Ok::<Seq<SegV>, ErrorV>(expand_entry(e)),
        expand_entry(e).len() == 2,
        expand_entry(e)[1] == (SegV::Tcp { port: e.port() }),
        is_addr_bearing(expand_entry(e)[0]),
{
    let ma = seq![SegV::Node { alias }];
    assert(ma[0] == (SegV::Node { alias }));
    assert(ma.drop_first() =~= Seq::<SegV>::empty());
    assert(resolve_of(ma.drop_first(), t) == Ok::<Seq<SegV>, ErrorV>(Seq::empty()));
    assert(expand_entry(e) + Seq::<SegV>::empty() =~= expand_entry(e));
}

/// Law: when some node segment's alias is absent from the table, resolution
/// fails, the failure is an `UnknownAlias`, and no output accompanies it.
pub proof fn lemma_resolve_unknown_alias(ma: Seq<SegV>, t: Seq<(Seq<char>, InternetAddressV)>)
    requires
        has_unknown_alias(ma, t),
    ensures
        resolve_of(ma, t) matches Err(e) && (e matches ErrorV::UnknownAlias { .. }),
    decreases ma.len(),
{
    let i = choose|i: int|
        #![trigger ma[i]]
        0 <= i < ma.len() && (ma[i] matches SegV::Node { alias } && spec_get(t, alias) is None);
    if ma[0] matches SegV::Node { alias } && spec_get(t, alias) is None {
    } else {
        assert(i != 0);
        assert(ma.drop_first()[i - 1] == ma[i]);
        assert(has_unknown_alias(ma.drop_first(), t));
        lemma_resolve_unknown_alias(ma.drop_first(), t);
    }
}

/// Law: a multiaddr that ends in a bare `Ip4` or `Ip6` segment cannot be
/// built into a route.
pub proof fn lemma_route_trailing_bare_ip_fails(ma: Seq<SegV>)
    requires
        ma.len() > 0,
        ma.last() matches SegV::Ip4 { .. } || ma.last() matches SegV::Ip6 { .. },
    ensures
        route_of(ma) matches Err(_),
    decreases ma.len(),
{
    assert(ma.last() == ma[ma.len() - 1]);
    match ma[0] {
        SegV::Node { .. } => {},
        SegV::Tcp { .. } => {},
        SegV::Service { .. } => {
            assert(ma.len() >= 2);
            assert(ma.drop_first().last() == ma.last());
            lemma_route_trailing_bare_ip_fails(ma.drop_first());
        },
        SegV::Ip4 { .. } => {
            if ma.len() >= 2 && is_tcp(ma[1]) {
                assert(ma.len() >= 3);
                assert(ma.skip(2).last() == ma.last());
                lemma_route_trailing_bare_ip_fails(ma.skip(2));
            }
        },
        SegV::Ip6 { .. } => {
            if ma.len() >= 2 && is_tcp(ma[1]) {
                assert(ma.len() >= 3);
                assert(ma.skip(2).last() == ma.last());
                lemma_route_trailing_bare_ip_fails(ma.skip(2));
            }
        },
        SegV::DnsAddr { .. } => {
            if ma.len() >= 2 && is_tcp(ma[1]) {
                assert(ma.len() >= 3);
                assert(ma.skip(2).last() == ma.last());
                lemma_route_trailing_bare_ip_fails(ma.skip(2));
            } else {
                assert(ma.len() >= 2);
                assert(ma.drop_first().last() == ma.last());
                lemma_route_trailing_bare_ip_fails(ma.drop_first());
            }
        },
    }
}

/// `no_node` and `tcp_paired` carry over to the suffix after one consumed
/// segment.
proof fn lemma_wf_drop_first(ma: Seq<SegV>)
    requires
        ma.len() >= 1,
        no_node(ma),
        tcp_paired(ma),
        !is_addr_bearing(ma[0]) || ma.len() < 2 || !is_tcp(ma[1]),
    ensures
        no_node(ma.drop_first()),
        tcp_paired(ma.drop_first()),
{
    let d = ma.drop_first();
    assert(forall|i: int| 0 <= i < d.len() ==> #[trigger] d[i] == ma[i + 1]);
    assert forall|i: int| 0 <= i < d.len() && is_tcp(#[trigger] d[i]) implies i > 0
        && is_addr_bearing(d[i - 1]) by {
        assert(d[i] == ma[i + 1]);
        if i == 0 {
            assert(is_addr_bearing(ma[0]) && ma.len() >= 2 && is_tcp(ma[1]));
        }
    }
}

/// `no_node` and `tcp_paired` carry over to the suffix after one consumed
/// address/port pair.
proof fn lemma_wf_skip_two(ma: Seq<SegV>)
    requires
        ma.len() >= 2,
        no_node(ma),
        tcp_paired(ma),
        is_tcp(ma[1]),
    ensures
        no_node(ma.skip(2)),
        tcp_paired(ma.skip(2)),
{
    let d = ma.skip(2);
    assert(forall|i: int| 0 <= i < d.len() ==> #[trigger] d[i] == ma[i + 2]);
    assert forall|i: int| 0 <= i < d.len() && is_tcp(#[trigger] d[i]) implies i > 0
        && is_addr_bearing(d[i - 1]) by {
        assert(d[i] == ma[i + 2]);
        if i == 0 {
            assert(is_addr_bearing(ma[1]));
        }
    }
}

/// Law: for a multiaddr without node segments and with every `Tcp` paired to
/// the address before it, a trailing bare `Ip4` or `Ip6` fails the route
/// builder with exactly `MalformedSegment`.
pub proof fn lemma_route_trailing_bare_ip_malformed(ma: Seq<SegV>)
    requires
        ma.len() > 0,
        ma.last() matches SegV::Ip4 { .. } || ma.last() matches SegV::Ip6 { .. },
        no_node(ma),
        tcp_paired(ma),
    ensures
        route_of(ma) == Err::<Seq<AddressV>, ErrorV>(ErrorV::MalformedSegment),
    decreases ma.len(),
{
    assert(ma.last() == ma[ma.len() - 1]);
    assert(!is_node(ma[0]));
    assert(!is_tcp(ma[0]));
    match ma[0] {
        SegV::Node { .. } => {},
        SegV::Tcp { .. } => {},
        SegV::Service { .. } => {
            assert(ma.len() >= 2);
            assert(ma.drop_first().last() == ma.last());
            lemma_wf_drop_first(ma);
            lemma_route_trailing_bare_ip_malformed(ma.drop_first());
        },
        SegV::Ip4 { .. } => {
            if ma.len() >= 2 && is_tcp(ma[1]) {
                assert(ma.len() >= 3);
                assert(ma.skip(2).last() == ma.last());
                lemma_wf_skip_two(ma);
                lemma_route_trailing_bare_ip_malformed(ma.skip(2));
            }
        },
        SegV::Ip6 { .. } => {
            if ma.len() >= 2 && is_tcp(ma[1]) {
                assert(ma.len() >= 3);
                assert(ma.skip(2).last() == ma.last());
                lemma_wf_skip_two(ma);
                lemma_route_trailing_bare_ip_malformed(ma.skip(2));
            }
        },
        SegV::DnsAddr { .. } => {
            if ma.len() >= 2 && is_tcp(ma[1]) {
                assert(ma.len() >= 3);
                assert(ma.skip(2).last() == ma.last());
                lemma_wf_skip_two(ma);
                lemma_route_trailing_bare_ip_malformed(ma.skip(2));
            } else {
                assert(ma.len() >= 2);
                assert(ma.drop_first().last() == ma.last());
                lemma_wf_drop_first(ma);
                lemma_route_trailing_bare_ip_malformed(ma.drop_first());
            }
        },
    }
}

/// Law: a multiaddr that still contains a node segment cannot be built into
/// a route.
pub proof fn lemma_route_node_fails(ma: Seq<SegV>, k: int)
    requires
        0 <= k < ma.len(),
        is_node(ma[k]),
    ensures
        route_of(ma) matches Err(_),
    decreases ma.len(),
{
    match ma[0] {
        SegV::Node { .. } => {},
        SegV::Tcp { .. } => {},
        SegV::Service { .. } => {
            assert(ma.drop_first()[k - 1] == ma[k]);
            lemma_route_node_fails(ma.drop_first(), k - 1);
        },
        SegV::Ip4 { .. } => {
            if ma.len() >= 2 && is_tcp(ma[1]) {
                assert(k >= 2);
                assert(ma.skip(2)[k - 2] == ma[k]);
                lemma_route_node_fails(ma.skip(2), k - 2);
            }
        },
        SegV::Ip6 { .. } => {
            if ma.len() >= 2 && is_tcp(ma[1]) {
                assert(k >= 2);
                assert(ma.skip(2)[k - 2] == ma[k]);
                lemma_route_node_fails(ma.skip(2), k - 2);
            }
        },
        SegV::DnsAddr { .. } => {
            if ma.len() >= 2 && is_tcp(ma[1]) {
                assert(k >= 2);
                assert(ma.skip(2)[k - 2] == ma[k]);
                lemma_route_node_fails(ma.skip(2), k - 2);
            } else {
                assert(ma.drop_first()[k - 1] == ma[k]);
                lemma_route_node_fails(ma.drop_first(), k - 1);
            }
        },
    }
}

/// Law: when the segments before the first node segment form a buildable
/// prefix, the route builder reports exactly an `InvariantViolation` for the
/// node that reached it.
pub proof fn lemma_route_node_invariant_violation(ma: Seq<SegV>, k: int)
    requires
        0 <= k < ma.len(),
        is_node(ma[k]),
        forall|j: int| 0 <= j < k ==> !is_node(#[trigger] ma[j]),
        route_of(ma.take(k)) matches Ok(_),
    ensures
        route_of(ma) == Err::<Seq<AddressV>, ErrorV>(ErrorV::InvariantViolation),
    decreases ma.len(),
{
    let p = ma.take(k);
    if k == 0 {
    } else {
        assert(p[0] == ma[0]);
        assert(!is_node(ma[0]));
        match ma[0] {
            SegV::Node { .. } => {},
            SegV::Tcp { .. } => {
                assert(route_of(p) matches Err(_));
            },
            SegV::Service { .. } => {
                assert(p.drop_first() =~= ma.drop_first().take(k - 1));
                assert(route_of(p.drop_first()) matches Ok(_));
                assert(ma.drop_first()[k - 1] == ma[k]);
                assert(forall|j: int| 0 <= j < k - 1 ==> #[trigger] ma.drop_first()[j] == ma[j + 1]);
                lemma_route_node_invariant_violation(ma.drop_first(), k - 1);
            },
            SegV::Ip4 { .. } => {
                if p.len() >= 2 && is_tcp(p[1]) {
                    assert(k >= 2);
                    assert(ma[1] == p[1]);
                    assert(p.skip(2) =~= ma.skip(2).take(k - 2));
                    assert(route_of(p.skip(2)) matches Ok(_));
                    assert(ma.skip(2)[k - 2] == ma[k]);
                    assert(forall|j: int| 0 <= j < k - 2 ==> #[trigger] ma.skip(2)[j] == ma[j + 2]);
                    lemma_route_node_invariant_violation(ma.skip(2), k - 2);
                } else {
                    if k == 1 {
                        assert(p.len() == 1);
                        assert(route_of(p) matches Err(_));
                    } else {
                        assert(p[1] == ma[1]);
                        assert(route_of(p) matches Err(_));
                    }
                }
            },
            SegV::Ip6 { .. } => {
                if p.len() >= 2 && is_tcp(p[1]) {
                    assert(k >= 2);
                    assert(ma[1] == p[1]);
                    assert(p.skip(2) =~= ma.skip(2).take(k - 2));
                    assert(route_of(p.skip(2)) matches Ok(_));
                    assert(ma.skip(2)[k - 2] == ma[k]);
                    assert(forall|j: int| 0 <= j < k - 2 ==> #[trigger] ma.skip(2)[j] == ma[j + 2]);
                    lemma_route_node_invariant_violation(ma.skip(2), k - 2);
                } else {
                    if k == 1 {
                        assert(p.len() == 1);
                        assert(route_of(p) matches Err(_));
                    } else {
                        assert(p[1] == ma[1]);
                        assert(route_of(p) matches Err(_));
                    }
                }
            },
            SegV::DnsAddr { .. } => {
                if p.len() >= 2 && is_tcp(p[1]) {
                    assert(k >= 2);
                    assert(ma[1] == p[1]);
                    assert(p.skip(2) =~= ma.skip(2).take(k - 2));
                    assert(route_of(p.skip(2)) matches Ok(_));
                    assert(ma.skip(2)[k - 2] == ma[k]);
                    assert(forall|j: int| 0 <= j < k - 2 ==> #[trigger] ma.skip(2)[j] == ma[j + 2]);
                    lemma_route_node_invariant_violation(ma.skip(2), k - 2);
                } else {
                    // the head is a bare host: in `ma` the next segment is
                    // either the node itself (k == 1) or the same non-`Tcp`
                    // segment as in the prefix.
                    if k == 1 {
                        assert(is_node(ma[1]));
                        assert(!is_tcp(ma[1]));
                    } else {
                        assert(p[1] == ma[1]);
                    }
                    assert(p.drop_first() =~= ma.drop_first().take(k - 1));
                    assert(route_of(p.drop_first()) matches Ok(_));
                    assert(ma.drop_first()[k - 1] == ma[k]);
                    assert(forall|j: int| 0 <= j < k - 1 ==> #[trigger] ma.drop_first()[j] == ma[j
                        + 1]);
                    lemma_route_node_invariant_violation(ma.drop_first(), k - 1);
                }
            },
        }
    }
}

/// The segments that a route translates back to never begin with a `Tcp` or
/// a `Node` segment.
proof fn lemma_multiaddr_of_head(r: Seq<AddressV>)
    requires
        multiaddr_of(r) matches Ok(_),
    ensures
        multiaddr_of(r) matches Ok(s) && ((s.len() == 0 || (!is_tcp(s[0]) && !is_node(s[0])))),
    decreases r.len(),
{
    if r.len() > 0 {
        lemma_multiaddr_of_head(r.drop_first());
    }
}

/// Law: translating a translatable route back to a multiaddr and building a
/// route from it again recovers a route of the same length with the same
/// transport kind at every hop.
pub proof fn lemma_route_round_trip(r: Seq<AddressV>)
    requires
        multiaddr_of(r) matches Ok(_),
    ensures
        multiaddr_of(r) matches Ok(ma) && (route_of(ma) matches Ok(r2) && (r2.len() == r.len() && (
        forall|i: int| 0 <= i < r.len() ==> (#[trigger] r2[i]).tt == r[i].tt))),
    decreases r.len(),
{
    if r.len() == 0 {
        assert(route_of(Seq::<SegV>::empty()) == Ok::<Seq<AddressV>, ErrorV>(Seq::empty()));
    } else {
        let first = match hop_segs(r[0]) {
            Ok(f) => f,
            Err(_) => Seq::empty(),
        };
        let rest = match multiaddr_of(r.drop_first()) {
            Ok(s) => s,
            Err(_) => Seq::empty(),
        };
        let ma = first + rest;
        assert(multiaddr_of(r) == Ok::<Seq<SegV>, ErrorV>(ma));
        lemma_route_round_trip(r.drop_first());
        lemma_multiaddr_of_head(r.drop_first());
        let r2rest = match route_of(rest) {
            Ok(s) => s,
            Err(_) => Seq::empty(),
        };
        if first.len() == 2 {
            assert(ma[0] == first[0]);
            assert(ma[1] == first[1]);
            assert(ma.skip(2) =~= rest);
            assert(route_of(ma) matches Ok(_));
        } else {
            assert(first.len() == 1);
            assert(ma[0] == first[0]);
            assert(ma.drop_first() =~= rest);
            if first[0] matches SegV::DnsAddr { .. } {
                if ma.len() >= 2 {
                    assert(ma[1] == rest[0]);
                    assert(!is_tcp(ma[1]));
                }
                assert(route_of(ma) matches Ok(_));
            } else {
                assert(first[0] matches SegV::Service { .. });
                assert(route_of(ma) matches Ok(_));
            }
        }
        let r2 = match route_of(ma) {
            Ok(s) => s,
            Err(_) => Seq::empty(),
        };
        assert(r2.len() == 1 + r2rest.len());
        assert(r2[0].tt == r[0].tt);
        assert(forall|i: int| 1 <= i < r.len() ==> (#[trigger] r2[i]).tt == r[i].tt) by {
            assert(forall|i: int| 1 <= i < r.len() ==> #[trigger] r2[i] == r2rest[i - 1]);
            assert(forall|i: int| 1 <= i < r.len() ==> #[trigger] r.drop_first()[i - 1] == r[i]);
        }
    }
}

} // verus!
