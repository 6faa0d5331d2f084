//! The alias lookup table: maps a symbolic node alias to a concrete endpoint
//! that always carries a port.

use vstd::prelude::*;
use vstd::string::StringExecFns;
use crate::addr::{Ip4Addr, Ip6Addr, ip4_text, sock6_text, fmt_ip4, fmt_sock6};
use crate::text::{dec_str, fmt_dec};

verus! {

/// Mathematical model of a stored endpoint.
#[verifier::ext_equal]
pub enum InternetAddressV {
    Dns { host: Seq<char>, port: u16 },
    V4 { addr: Ip4Addr, port: u16 },
    V6 { addr: Ip6Addr, port: u16 },
}

impl InternetAddressV {
    /// The port that every stored endpoint carries.
    pub open spec fn port(self) -> u16 {
        match self {
            InternetAddressV::Dns { port, .. } => port,
            InternetAddressV::V4 { port, .. } => port,
            InternetAddressV::V6 { port, .. } => port,
        }
    }
}

/// A concrete endpoint: a DNS host, an IPv4 address or an IPv6 address,
/// always together with a port.
#[derive(Debug, PartialEq)]
pub enum InternetAddress {
    Dns { host: String, port: u16 },
    V4 { addr: Ip4Addr, port: u16 },
    V6 { addr: Ip6Addr, port: u16 },
}

impl View for InternetAddress {
    type V = InternetAddressV;

    open spec fn view(&self) -> InternetAddressV {
        match self {
            InternetAddress::Dns { host, port } => InternetAddressV::Dns {
                host: host@,
                port: *port,
            },
            InternetAddress::V4 { addr, port } => InternetAddressV::V4 {
                addr: *addr,
                port: *port,
            },
            InternetAddress::V6 { addr, port } => InternetAddressV::V6 {
                addr: *addr,
                port: *port,
            },
        }
    }
}

/// `"host:port"`-style display text of an endpoint.
pub open spec fn ia_text(a: InternetAddressV) -> Seq<char> {
    match a {
        InternetAddressV::Dns { host, port } => host + seq![':'] + dec_str(port as nat),
        InternetAddressV::V4 { addr, port } => ip4_text(addr) + seq![':'] + dec_str(port as nat),
        InternetAddressV::V6 { addr, port } => sock6_text(addr, port),
    }
}

impl InternetAddress {
    /// The endpoint's port.
    pub fn port(&self) -> (r: u16)
        ensures
            r == self@.port(),
    {
        match self {
            InternetAddress::Dns { port, .. } => *port,
            InternetAddress::V4 { port, .. } => *port,
            InternetAddress::V6 { port, .. } => *port,
        }
    }

    /// A fresh endpoint with the same value.
    pub fn duplicate(&self) -> (r: InternetAddress)
        ensures
            r@ == self@,
    {
        match self {
            InternetAddress::Dns { host, port } => InternetAddress::Dns {
                host: host.clone(),
                port: *port,
            },
            InternetAddress::V4 { addr, port } => InternetAddress::V4 {
                addr: *addr,
                port: *port,
            },
            InternetAddress::V6 { addr, port } => InternetAddress::V6 {
                addr: *addr,
                port: *port,
            },
        }
    }

    /// The endpoint rendered as `"host:port"` / `"ip:port"` text.
    pub fn display_string(&self) -> (r: String)
        ensures
            r@ == ia_text(self@),
    {
        proof {
            reveal_strlit(":");
        }
        match self {
            InternetAddress::Dns { host, port } => {
                let mut r = host.clone();
                r.append(":");
                r.append(fmt_dec(*port).as_str());
                proof {
                    assert(r@ =~= ia_text(self@));
                }
                r
            },
            InternetAddress::V4 { addr, port } => {
                let mut r = fmt_ip4(addr);
                r.append(":");
                r.append(fmt_dec(*port).as_str());
                proof {
                    assert(r@ =~= ia_text(self@));
                }
                r
            },
            InternetAddress::V6 { addr, port } => fmt_sock6(addr, *port),
        }
    }
}

/// Looks an alias up in the table model; a later entry for the same alias
/// overrides an earlier one.
pub open spec fn spec_get(
    t: Seq<(Seq<char>, InternetAddressV)>,
    alias: Seq<char>,
) -> Option<InternetAddressV>
    decreases t.len(),
{
    if t.len() == 0 {
        None
    } else if t.last().0 == alias {
        Some(t.last().1)
    } else {
        spec_get(t.drop_last(), alias)
    }
}

/// The alias lookup table, read-only during resolution.
#[derive(Debug)]
pub struct ConfigLookup {
    pub entries: Vec<(String, InternetAddress)>,
}

impl View for ConfigLookup {
    type V = Seq<(Seq<char>, InternetAddressV)>;

    open spec fn view(&self) -> Seq<(Seq<char>, InternetAddressV)> {
        self.entries@.map_values(|p: (String, InternetAddress)| (p.0@, p.1@))
    }
}

impl ConfigLookup {
    /// An empty table.
    pub fn new() -> (r: ConfigLookup)
        ensures
            r@ == Seq::<(Seq<char>, InternetAddressV)>::empty(),
    {
        let r = ConfigLookup { entries: Vec::new() };
        proof {
            assert(r@ =~= Seq::<(Seq<char>, InternetAddressV)>::empty());
        }
        r
    }

    /// Stores an endpoint under an alias, overriding an earlier entry for the
    /// same alias.
    pub fn set_node(&mut self, alias: &str, addr: InternetAddress)
        ensures
            final(self)@ == old(self)@.push((alias@, addr@)),
    {
        let ghost av = addr@;
        self.entries.push((alias.to_owned(), addr));
        proof {
            assert(self@ =~= old(self)@.push((alias@, av)));
        }
    }

    /// Looks an alias up.
    pub fn get_node(&self, alias: &String) -> (r: Option<&InternetAddress>)
        ensures
            match r {
                Some(a) => spec_get(self@, alias@) == Some(a@),
                None => spec_get(self@, alias@) is None,
            },
    {
        let n = self.entries.len();
        let mut i: usize = n;
        proof {
            assert(self@.take(n as int) =~= self@);
        }
        while i > 0
            invariant
                i <= n,
                n == self@.len(),
                spec_get(self@, alias@) == spec_get(self@.take(i as int), alias@),
            decreases i,
        {
            i = i - 1;
            let e = &self.entries[i];
            if e.0 == *alias {
                proof {
                    assert(self@.take(i + 1).last() == self@[i as int]);
                    assert(self@[i as int].0 == alias@);
                }
                return Some(&e.1);
            }
            proof {
                assert(self@.take(i + 1).last() == self@[i as int]);
                assert(self@.take(i + 1).drop_last() =~= self@.take(i as int));
            }
        }
        proof {
            assert(self@.take(0) =~= Seq::<(Seq<char>, InternetAddressV)>::empty());
        }
        None
    }
}

} // verus!
