//! Addresses and routes for local dispatch.

use crate::text::{decimal, decimal_text};
use vstd::prelude::*;

verus! {

/// The tag that says which transport an address belongs to.
#[derive(Clone, Copy, Debug, PartialEq, Eq, Structural, Hash)]
pub struct TransportType {
    pub value: u8,
}

/// The tag value of process-local worker addresses.
pub const LOCAL: u8 = 0;

impl TransportType {
    pub fn new(value: u8) -> (t: TransportType)
        ensures
            t.value == value,
    {
        TransportType { value }
    }

    pub open spec fn spec_is_local(&self) -> bool {
        self.value == LOCAL
    }

    #[verifier::when_used_as_spec(spec_is_local)]
    pub fn is_local(&self) -> (b: bool)
        ensures
            b == self.spec_is_local(),
    {
        self.value == LOCAL
    }
}

/// One hop of a route: the transport that carries it and the address that
/// the transport knows it by.
#[derive(Debug, PartialEq, Eq)]
pub struct Address {
    transport_type: TransportType,
    value: String,
}

/// What an address stands for.
pub struct AddressView {
    pub transport_type: TransportType,
    pub value: Seq<char>,
}

impl View for Address {
    type V = AddressView;

    closed spec fn view(&self) -> AddressView {
        AddressView { transport_type: self.transport_type, value: self.value@ }
    }
}

impl Clone for Address {
    fn clone(&self) -> (a: Address)
        ensures
            a@ == self@,
    {
        Address { transport_type: self.transport_type, value: self.value.clone() }
    }
}

/// The text of an address: the number of its transport type, `#`, its value.
pub open spec fn address_text(a: AddressView) -> Seq<char> {
    decimal(a.transport_type.value as nat) + seq!['#'] + a.value
}

impl Address {
    pub fn new(transport_type: TransportType, value: &str) -> (a: Address)
        ensures
            a@ == (AddressView { transport_type, value: value@ }),
    {
        Address { transport_type, value: value.to_owned() }
    }

    /// The transport that carries this hop.
    pub fn transport_type(&self) -> (t: TransportType)
        ensures
            t == self@.transport_type,
    {
        self.transport_type
    }

    /// The address that the transport knows this hop by.
    pub fn address(&self) -> (v: &str)
        ensures
            v@ == self@.value,
    {
        self.value.as_str()
    }

    /// Whether this hop is a process-local worker.
    pub fn is_local(&self) -> (b: bool)
        ensures
            b == self@.transport_type.is_local(),
    {
        self.transport_type.is_local()
    }

    /// Whether two addresses are the same.
    pub fn equals(&self, other: &Address) -> (b: bool)
        ensures
            b == (self@ == other@),
    {
        self.transport_type == other.transport_type && self.value == other.value
    }

    /// The text of the address.
    pub fn to_string(&self) -> (s: String)
        ensures
            s@ == address_text(self@),
    {
        proof {
            reveal_strlit("#");
        }
        let mut out = decimal_text(self.transport_type.value as u64);
        out.append("#");
        assert("#"@ =~= seq!['#']);
        out.append(self.value.as_str());
        out
    }
}

/// Whether every hop of a route is a process-local worker: the route needs
/// no further resolution.
pub open spec fn is_local_route(route: Seq<AddressView>) -> bool {
    forall|i: int| 0 <= i < route.len() ==> (#[trigger] route[i]).transport_type.is_local()
}

/// The text of a route: the texts of its hops, with ` => ` between them.
pub open spec fn route_text(route: Seq<AddressView>) -> Seq<char>
    decreases route.len(),
{
    if route.len() == 0 {
        Seq::empty()
    } else if route.len() == 1 {
        address_text(route[0])
    } else {
        route_text(route.drop_last()) + " => "@ + address_text(route.last())
    }
}

/// An ordered sequence of hops for local dispatch.
#[derive(Debug, PartialEq, Eq)]
pub struct Route {
    addresses: Vec<Address>,
}

impl View for Route {
    type V = Seq<AddressView>;

    closed spec fn view(&self) -> Seq<AddressView> {
        self.addresses@.map_values(|a: Address| a@)
    }
}

impl Clone for Route {
    fn clone(&self) -> (r: Route)
        ensures
            r@ == self@,
    {
        let mut addresses: Vec<Address> = Vec::new();
        let mut i: usize = 0;
        while i < self.addresses.len()
            invariant
                i <= self.addresses@.len(),
                addresses@.map_values(|a: Address| a@) == self@.take(i as int),
            decreases self.addresses.len() - i,
        {
            let ghost before = addresses@.map_values(|a: Address| a@);
            let a = self.addresses[i].clone();
            addresses.push(a);
            assert(addresses@.map_values(|a: Address| a@) =~= before.push(self@[i as int]));
            assert(self@.take(i as int).push(self@[i as int]) =~= self@.take(i + 1));
            i = i + 1;
        }
        assert(self@.take(i as int) =~= self@);
        Route { addresses }
    }
}

impl Route {
    /// The route without hops.
    pub fn new() -> (r: Route)
        ensures
            r@ == Seq::<AddressView>::empty(),
    {
        let r = Route { addresses: Vec::new() };
        assert(r@ =~= Seq::<AddressView>::empty());
        r
    }

    /// This route with one more hop at its end.
    pub fn append(self, address: Address) -> (r: Route)
        ensures
            r@ == self@.push(address@),
    {
        let mut addresses = self.addresses;
        addresses.push(address);
        let r = Route { addresses };
        assert(r@ =~= self@.push(address@));
        r
    }

    /// The number of hops.
    pub fn len(&self) -> (n: usize)
        ensures
            n == self@.len(),
    {
        self.addresses.len()
    }

    /// The hop at index `i`.
    pub fn get(&self, i: usize) -> (a: &Address)
        requires
            i < self@.len(),
        ensures
            a@ == self@[i as int],
    {
        &self.addresses[i]
    }

    /// Whether every hop is a process-local worker.
    pub fn is_local(&self) -> (b: bool)
        ensures
            b == is_local_route(self@),
    {
        let mut i: usize = 0;
        while i < self.addresses.len()
            invariant
                i <= self.addresses@.len(),
                self@.len() == self.addresses@.len(),
                forall|j: int| 0 <= j < i ==> (#[trigger] self@[j]).transport_type.is_local(),
            decreases self.addresses.len() - i,
        {
            if !self.addresses[i].is_local() {
                assert(!self@[i as int].transport_type.is_local());
                return false;
            }
            i = i + 1;
        }
        true
    }

    /// Whether two routes hold the same hops in the same order.
    pub fn equals(&self, other: &Route) -> (b: bool)
        ensures
            b == (self@ == other@),
    {
        if self.addresses.len() != other.addresses.len() {
            assert(self@.len() != other@.len());
            return false;
        }
        let mut i: usize = 0;
        while i < self.addresses.len()
            invariant
                i <= self.addresses@.len(),
                self@.len() == self.addresses@.len(),
                other@.len() == other.addresses@.len(),
                self@.len() == other@.len(),
                forall|j: int| 0 <= j < i ==> self@[j] == other@[j],
            decreases self.addresses.len() - i,
        {
            if !self.addresses[i].equals(&other.addresses[i]) {
                assert(self@[i as int] != other@[i as int]);
                return false;
            }
            i = i + 1;
        }
        assert(self@ =~= other@);
        true
    }

    /// The text of the route.
    pub fn to_string(&self) -> (s: String)
        ensures
            s@ == route_text(self@),
    {
        let mut out = String::new();
        let mut i: usize = 0;
        assert(self@.take(0) =~= Seq::<AddressView>::empty());
        while i < self.addresses.len()
            invariant
                i <= self.addresses@.len(),
                self@.len() == self.addresses@.len(),
                out@ == route_text(self@.take(i as int)),
            decreases self.addresses.len() - i,
        {
            proof {
                assert(self@.take(i + 1).drop_last() =~= self@.take(i as int));
                assert(self@.take(i + 1).last() == self@[i as int]);
                assert(self@.take(i + 1)[0] == self@[0]);
            }
            if i > 0 {
                out.append(" => ");
            }
            let hop = self.addresses[i].to_string();
            out.append(hop.as_str());
            assert(i == 0 ==> out@ =~= address_text(self@[0]));
            i = i + 1;
        }
        assert(self@.take(i as int) =~= self@);
        out
    }
}

} // verus!
