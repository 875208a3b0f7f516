use vstd::prelude::*;

verus! {

/// A UDP endpoint: an IP address with a port, as a socket address holds it.
/// IPv4 addresses are kept as the big-endian value of their four octets,
/// IPv6 addresses as the big-endian value of their sixteen octets.
#[derive(Clone, Copy, Debug, PartialEq, Eq, Structural, Hash)]
pub enum Endpoint {
    V4 { ip4: u32, port: u16 },
    V6 { ip6: u128, port: u16, flowinfo: u32, scope_id: u32 },
}

/// The IP part of an endpoint, as an address of its own family.
#[derive(Clone, Copy, Debug, PartialEq, Eq, Structural, Hash)]
pub enum IpAddress {
    V4(u32),
    V6(u128),
}

impl Endpoint {
    pub open spec fn spec_ip(self) -> IpAddress {
        match self {
            Endpoint::V4 { ip4, .. } => IpAddress::V4(ip4),
            Endpoint::V6 { ip6, .. } => IpAddress::V6(ip6),
        }
    }

    /// The address without the port.
    pub fn ip(&self) -> (r: IpAddress)
        ensures
            r == self.spec_ip(),
    {
        match self {
            Endpoint::V4 { ip4, .. } => IpAddress::V4(*ip4),
            Endpoint::V6 { ip6, .. } => IpAddress::V6(*ip6),
        }
    }

    /// Whether two endpoints share their IP address (ports may differ).
    pub fn same_ip(&self, other: &Endpoint) -> (r: bool)
        ensures
            r == (self.spec_ip() == other.spec_ip()),
    {
        match (self, other) {
            (Endpoint::V4 { ip4: a, .. }, Endpoint::V4 { ip4: b, .. }) => *a == *b,
            (Endpoint::V6 { ip6: a, .. }, Endpoint::V6 { ip6: b, .. }) => *a == *b,
            _ => false,
        }
    }

    /// The IPv4 wildcard endpoint `0.0.0.0:0`.
    pub fn unspecified() -> (r: Endpoint)
        ensures
            r == (Endpoint::V4 { ip4: 0, port: 0 }),
    {
        Endpoint::V4 { ip4: 0, port: 0 }
    }
}

} // verus!
