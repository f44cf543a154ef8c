//! Sockets: an address, a descriptor and the guard that owns it.
use vstd::prelude::*;
use crate::addr::SocketAddr;
use crate::descriptor::{DescriptorGuard, Fd};

verus! {

pub type SockFd = Fd;

pub enum SocketDomain {
    AfInet,
}

#[derive(Clone, Copy, Debug, PartialEq, Eq, Structural)]
pub enum SocketProtocol {
    Tcp,
    Udp,
}

/// A socket owns the guard of its descriptor for its whole lifetime; its
/// descriptor is released when the guard goes back to its pool.
pub struct Socket {
    pub addr: SocketAddr,
    pub sock_fd: SockFd,
    pub sock_protocol: SocketProtocol,
    pub sock_fd_guard: DescriptorGuard,
}

impl Socket {
    pub fn new(
        addr: SocketAddr,
        sock_fd: SockFd,
        sock_protocol: SocketProtocol,
        sock_fd_guard: DescriptorGuard,
    ) -> (r: Self)
        ensures
            r.addr == addr,
            r.sock_fd == sock_fd,
            r.sock_protocol == sock_protocol,
            r.guard_id() == sock_fd_guard@,
    {
        Socket { addr, sock_fd, sock_protocol, sock_fd_guard }
    }

    /// The descriptor that the owned guard holds.
    pub open spec fn guard_id(&self) -> Fd {
        self.sock_fd_guard@
    }

    /// Gives up the socket, handing out the guard of its descriptor.
    pub fn into_guard(self) -> (r: DescriptorGuard)
        ensures
            r@ == self.guard_id(),
    {
        self.sock_fd_guard
    }
}

} // verus!
