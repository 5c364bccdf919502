//! Network endpoints as plain values.

use vstd::prelude::*;

verus! {

/// An IP address: IPv4 as its 32-bit number, IPv6 as its 128-bit number,
/// both in network order read as big-endian.
#[derive(Debug, Clone, Copy, PartialEq, Eq, Structural)]
pub enum IpAddress {
    V4(u32),
    V6(u128),
}

/// An (IP, port) pair.
#[derive(Debug, Clone, Copy, PartialEq, Eq, Structural)]
pub struct Endpoint {
    pub ip: IpAddress,
    pub port: u16,
}

impl Endpoint {
    pub fn new(ip: IpAddress, port: u16) -> (r: Endpoint)
        ensures
            r.ip == ip,
            r.port == port,
    {
        Endpoint { ip, port }
    }

    /// The same address with another port.
    pub fn with_port(&self, port: u16) -> (r: Endpoint)
        ensures
            r.ip == self.ip,
            r.port == port,
    {
        Endpoint { ip: self.ip, port }
    }

    pub fn same_as(&self, other: &Endpoint) -> (r: bool)
        ensures
            r == (*self == *other),
    {
        *self == *other
    }
}

/// Whether `source` is the bound remote endpoint.
pub open spec fn is_bound_remote(remote: Option<Endpoint>, source: Endpoint) -> bool {
    remote == Some(source)
}

pub fn matches_remote(remote: &Option<Endpoint>, source: &Endpoint) -> (r: bool)
    ensures
        r == is_bound_remote(*remote, *source),
{
    match remote {
        Some(e) => e.same_as(source),
        None => false,
    }
}

} // verus!
