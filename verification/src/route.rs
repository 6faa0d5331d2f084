//! Routes: ordered sequences of transport-tagged hop addresses.

use vstd::prelude::*;

verus! {

/// Transport tag of an in-process (local) hop.
pub const LOCAL: u8 = 0;

/// Transport tag of a TCP hop.
pub const TCP: u8 = 1;

/// Mathematical model of one hop address: a transport tag and an address
/// string (`"host:port"` or `"ip:port"` for TCP, an opaque name for LOCAL).
#[verifier::ext_equal]
pub struct AddressV {
    pub tt: u8,
    pub addr: Seq<char>,
}

/// One hop address of a route.
#[derive(Debug, PartialEq)]
pub struct Address {
    pub tt: u8,
    pub addr: String,
}

impl View for Address {
    type V = AddressV;

    open spec fn view(&self) -> AddressV {
        AddressV { tt: self.tt, addr: self.addr@ }
    }
}

impl Address {
    /// A hop address from a transport tag and an address string.
    pub fn new(tt: u8, addr: String) -> (r: Address)
        ensures
            r@ == (AddressV { tt, addr: addr@ }),
    {
        Address { tt, addr }
    }

    /// The transport tag.
    pub fn transport_type(&self) -> (r: u8)
        ensures
            r == self@.tt,
    {
        self.tt
    }

    /// The address string.
    pub fn address(&self) -> (r: &str)
        ensures
            r@ == self@.addr,
    {
        self.addr.as_str()
    }

    /// A fresh hop address with the same value.
    pub fn duplicate(&self) -> (r: Address)
        ensures
            r@ == self@,
    {
        Address { tt: self.tt, addr: self.addr.clone() }
    }
}

/// An ordered sequence of hop addresses, outermost hop first.
#[derive(Debug, PartialEq)]
pub struct Route {
    pub hops: Vec<Address>,
}

impl View for Route {
    type V = Seq<AddressV>;

    open spec fn view(&self) -> Seq<AddressV> {
        self.hops@.map_values(|a: Address| a@)
    }
}

impl Route {
    /// The empty route.
    pub fn new() -> (r: Route)
        ensures
            r@ == Seq::<AddressV>::empty(),
    {
        let r = Route { hops: Vec::new() };
        proof {
            assert(r@ =~= Seq::<AddressV>::empty());
        }
        r
    }

    /// The route extended by one hop at the end.
    pub fn append(self, a: Address) -> (r: Route)
        ensures
            r@ == self@.push(a@),
    {
        let ghost orig = self@;
        let ghost av = a@;
        let mut hops = self.hops;
        hops.push(a);
        let r = Route { hops };
        proof {
            assert(r@ =~= orig.push(av));
        }
        r
    }

    /// Appends all hops of `other` at the end.
    pub fn push_all(&mut self, other: Route)
        ensures
            final(self)@ == old(self)@ + other@,
    {
        let ghost ov = other@;
        let mut o = other;
        self.hops.append(&mut o.hops);
        proof {
            assert(self@ =~= old(self)@ + ov);
        }
    }

    /// Number of hops.
    pub fn len(&self) -> (r: usize)
        ensures
            r == self@.len(),
    {
        self.hops.len()
    }

    /// The hop at index `i`.
    pub fn get(&self, i: usize) -> (r: &Address)
        requires
            i < self@.len(),
        ensures
            r@ == self@[i as int],
    {
        &self.hops[i]
    }
}

} // verus!
