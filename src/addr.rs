//! Internet addresses as plain values.
use vstd::prelude::*;

verus! {

/// An IP address: a version 4 address as its 32 bits, a version 6 address
/// as its 128 bits, most significant octet first.
#[derive(Clone, Copy, Debug, PartialEq, Eq, Hash, Structural)]
pub enum IpAddr {
    V4(u32),
    V6(u128),
}

impl IpAddr {
    /// The unspecified address of either version (`0.0.0.0`, `::`).
    pub open spec fn spec_is_unspecified(self) -> bool {
        match self {
            IpAddr::V4(b) => b == 0,
            IpAddr::V6(b) => b == 0,
        }
    }

    /// A loopback address: `127.0.0.0/8` for version 4, `::1` for version 6.
    pub open spec fn spec_is_loopback(self) -> bool {
        match self {
            IpAddr::V4(b) => b / 0x100_0000 == 127,
            IpAddr::V6(b) => b == 1,
        }
    }

    /// An address that a socket of this host may bind.
    pub open spec fn is_local(self) -> bool {
        self.spec_is_unspecified() || self.spec_is_loopback()
    }

    /// The version 4 address `a.b.c.d`.
    pub fn v4(a: u8, b: u8, c: u8, d: u8) -> (r: IpAddr)
        ensures
            r == IpAddr::V4((a * 0x100_0000 + b * 0x1_0000 + c * 0x100 + d) as u32),
    {
        IpAddr::V4((a as u32) * 0x100_0000 + (b as u32) * 0x1_0000 + (c as u32) * 0x100 + (d as u32))
    }

    pub fn is_ipv4(&self) -> (r: bool)
        ensures
            r == (*self is V4),
    {
        match self {
            IpAddr::V4(_) => true,
            IpAddr::V6(_) => false,
        }
    }

    pub fn is_unspecified(&self) -> (r: bool)
        ensures
            r == self.spec_is_unspecified(),
    {
        match self {
            IpAddr::V4(b) => *b == 0,
            IpAddr::V6(b) => *b == 0,
        }
    }

    pub fn is_loopback(&self) -> (r: bool)
        ensures
            r == self.spec_is_loopback(),
    {
        match self {
            IpAddr::V4(b) => *b / 0x100_0000 == 127,
            IpAddr::V6(b) => *b == 1,
        }
    }
}

/// An IP address and a port.
#[derive(Clone, Copy, Debug, PartialEq, Eq, Hash, Structural)]
pub struct SocketAddr {
    pub ip: IpAddr,
    pub port: u16,
}

impl SocketAddr {
    pub fn new(ip: IpAddr, port: u16) -> (r: SocketAddr)
        ensures
            r.ip == ip,
            r.port == port,
    {
        SocketAddr { ip, port }
    }

    pub fn is_ipv4(&self) -> (r: bool)
        ensures
            r == (self.ip is V4),
    {
        self.ip.is_ipv4()
    }
}

} // verus!
