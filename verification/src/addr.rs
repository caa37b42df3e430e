//! Plain-value model of IP addresses and address families.
//!
//! DNS reconciliation only ever needs the numeric value of an address and
//! which family it belongs to, so addresses are kept as bare integers here.
//! Rendering an address back into provider-facing text is left to the caller.

use vstd::prelude::*;

verus! {

/// An IPv4 address as its four dotted-quad octets, most significant first.
#[derive(Clone, Copy, PartialEq, Eq, Structural, Debug)]
pub struct Ipv4Address {
    pub o0: u8,
    pub o1: u8,
    pub o2: u8,
    pub o3: u8,
}

/// An IPv6 address as its eight 16-bit groups, most significant first.
#[derive(Clone, Copy, PartialEq, Eq, Structural, Debug)]
pub struct Ipv6Address {
    pub g0: u16,
    pub g1: u16,
    pub g2: u16,
    pub g3: u16,
    pub g4: u16,
    pub g5: u16,
    pub g6: u16,
    pub g7: u16,
}

/// An address of either family.
#[derive(Clone, Copy, PartialEq, Eq, Structural, Debug)]
pub enum IpAddress {
    V4(Ipv4Address),
    V6(Ipv6Address),
}

/// The two address families, each tied to one DNS record type.
#[derive(Clone, Copy, PartialEq, Eq, Structural, Debug)]
pub enum AddressFamily {
    IPv4,
    IPv6,
}

impl AddressFamily {
    /// The DNS record type tag for this family, as a character sequence.
    pub open spec fn spec_dns_type(self) -> Seq<char> {
        match self {
            AddressFamily::IPv4 => seq!['A'],
            AddressFamily::IPv6 => seq!['A', 'A', 'A', 'A'],
        }
    }

    /// The DNS record type tag for this family: `"A"` or `"AAAA"`.
    pub fn dns_type(self) -> (s: &'static str)
        ensures
            s@ == self.spec_dns_type(),
    {
        match self {
            AddressFamily::IPv4 => {
                proof {
                    reveal_strlit("A");
                    assert("A"@ =~= seq!['A']);
                }
                "A"
            },
            AddressFamily::IPv6 => {
                proof {
                    reveal_strlit("AAAA");
                    assert("AAAA"@ =~= seq!['A', 'A', 'A', 'A']);
                }
                "AAAA"
            },
        }
    }
}

/// The family a concrete address belongs to.
pub trait IpAddrExt {
    /// The DNS record type tag for this address's family, in spec terms.
    spec fn spec_dns_type(&self) -> Seq<char>;

    /// The DNS record type tag for this address's family.
    fn dns_type(&self) -> (s: &'static str)
        ensures
            s@ == self.spec_dns_type(),
    ;
}

impl IpAddrExt for Ipv4Address {
    open spec fn spec_dns_type(&self) -> Seq<char> {
        AddressFamily::IPv4.spec_dns_type()
    }

    fn dns_type(&self) -> (s: &'static str)
        ensures
            s@ == self.spec_dns_type(),
    {
        AddressFamily::IPv4.dns_type()
    }
}

impl IpAddrExt for Ipv6Address {
    open spec fn spec_dns_type(&self) -> Seq<char> {
        AddressFamily::IPv6.spec_dns_type()
    }

    fn dns_type(&self) -> (s: &'static str)
        ensures
            s@ == self.spec_dns_type(),
    {
        AddressFamily::IPv6.dns_type()
    }
}

impl IpAddrExt for IpAddress {
    open spec fn spec_dns_type(&self) -> Seq<char> {
        self.family().spec_dns_type()
    }

    fn dns_type(&self) -> (s: &'static str)
        ensures
            s@ == self.spec_dns_type(),
    {
        self.family().dns_type()
    }
}

impl IpAddress {
    /// Which family this address belongs to.
    pub open spec fn spec_family(self) -> AddressFamily {
        match self {
            IpAddress::V4(_) => AddressFamily::IPv4,
            IpAddress::V6(_) => AddressFamily::IPv6,
        }
    }

    /// Which family this address belongs to.
    #[verifier::when_used_as_spec(spec_family)]
    pub fn family(self) -> (f: AddressFamily)
        ensures
            f == self.spec_family(),
    {
        match self {
            IpAddress::V4(_) => AddressFamily::IPv4,
            IpAddress::V6(_) => AddressFamily::IPv6,
        }
    }
}

} // verus!
