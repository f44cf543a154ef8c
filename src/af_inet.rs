//! The internet address family: which addresses may be bound, ephemeral
//! port resolution, and dispatch to the bus of the socket's protocol.
use vstd::prelude::*;
use crate::addr::{IpAddr, SocketAddr};
use crate::descriptor::{DescriptorGuardManager, Fd, claimed, released, same_ids};
use crate::error::NetError;
use crate::socket::{SockFd, Socket, SocketProtocol};
use crate::udp::{UdpBus, ephemeral_port_result};

verus! {

/// The port a bind of `addr` over `protocol` ends up on, or its error, given
/// the available ports. Only the unspecified and the loopback addresses may
/// be bound; port 0 asks for an ephemeral port; TCP is not supported yet.
pub open spec fn bind_result(available: Seq<Fd>, addr: SocketAddr, protocol: SocketProtocol) -> Result<
    u16,
    NetError,
> {
    if !addr.ip.is_local() {
        Err(NetError::AddrNotAvailable)
    } else if protocol == SocketProtocol::Tcp {
        Err(NetError::NotImplemented)
    } else if addr.port == 0 {
        ephemeral_port_result(available)
    } else if available.contains(addr.port as Fd) {
        Ok(addr.port)
    } else {
        Err(NetError::AddrInUse)
    }
}

pub struct AfInet {
    udp_bus: UdpBus,
}

impl AfInet {
    /// The address of each bound socket, by descriptor.
    pub closed spec fn bound(&self) -> Map<SockFd, SocketAddr> {
        self.udp_bus.bound()
    }

    /// The pool of ports.
    pub closed spec fn ports(&self) -> DescriptorGuardManager {
        self.udp_bus.ports()
    }

    pub closed spec fn wf(&self) -> bool {
        self.udp_bus.wf()
    }

    /// No socket bound, over the ports `lo..=hi`.
    pub fn new(lo: Fd, hi: Fd) -> (r: Self)
        ensures
            r.wf(),
            r.bound() == Map::<SockFd, SocketAddr>::empty(),
            r.ports().available() == crate::descriptor::range_seq(lo, hi),
            r.ports().held() == Set::<Fd>::empty(),
            r.ports().lo() == lo,
            r.ports().hi() == hi,
    {
        AfInet { udp_bus: UdpBus::new(lo, hi) }
    }

    /// Binds the socket as `bind_result` says; on success a socket that
    /// asked for port 0 has its address rewritten to the chosen port.
    pub fn bind(&mut self, sock: &mut Socket) -> (r: Result<(), NetError>)
        requires
            old(self).wf(),
            !old(self).bound().contains_key(old(sock).sock_fd),
        ensures
            final(self).wf(),
            final(sock).sock_fd == old(sock).sock_fd,
            final(sock).sock_protocol == old(sock).sock_protocol,
            final(sock).sock_fd_guard == old(sock).sock_fd_guard,
            final(sock).addr.ip == old(sock).addr.ip,
            match bind_result(old(self).ports().available(), old(sock).addr, old(sock).sock_protocol) {
                Ok(p) => {
                    &&& r == Ok::<(), NetError>(())
                    &&& final(sock).addr.port == p
                    &&& final(self).bound() == old(self).bound().insert(
                        old(sock).sock_fd,
                        final(sock).addr,
                    )
                    &&& claimed(old(self).ports(), final(self).ports(), p as Fd)
                },
                Err(e) => {
                    &&& r == Err::<(), NetError>(e)
                    &&& *final(sock) == *old(sock)
                    &&& final(self).bound() == old(self).bound()
                    &&& same_ids(old(self).ports(), final(self).ports())
                },
            },
    {
        let addr = sock.addr;
        if !addr.ip.is_unspecified() && !addr.ip.is_loopback() {
            return Err(NetError::AddrNotAvailable);
        }
        if let SocketProtocol::Tcp = sock.sock_protocol {
            return Err(NetError::NotImplemented);
        }
        if addr.port == 0 {
            let port = match self.udp_bus.ephemeral_port() {
                Ok(p) => p,
                Err(e) => {
                    return Err(e);
                },
            };
            proof {
                let av = old(self).ports().available();
                assert(av[av.len() - 1] == av.last());
                assert(av.contains(port as Fd));
            }
            sock.addr.port = port;
        }
        self.udp_bus.bind(sock)
    }

    /// Drops the binding of the socket: `NotImplemented` for TCP.
    pub fn unbind(&mut self, sock: &mut Socket) -> (r: Result<(), NetError>)
        requires
            old(self).wf(),
        ensures
            final(self).wf(),
            *final(sock) == *old(sock),
            old(sock).sock_protocol == SocketProtocol::Tcp ==> r == Err::<(), NetError>(
                NetError::NotImplemented,
            ) && final(self).bound() == old(self).bound() && same_ids(
                old(self).ports(),
                final(self).ports(),
            ),
            old(sock).sock_protocol == SocketProtocol::Udp ==> r == Ok::<(), NetError>(())
                && unbound(*old(self), *final(self), old(sock).sock_fd),
    {
        match sock.sock_protocol {
            SocketProtocol::Tcp => Err(NetError::NotImplemented),
            SocketProtocol::Udp => self.udp_bus.unbind(sock),
        }
    }

    /// Drops whatever binding the socket's descriptor has, whatever its
    /// protocol.
    pub(crate) fn release_binding(&mut self, sock: &mut Socket)
        requires
            old(self).wf(),
        ensures
            final(self).wf(),
            *final(sock) == *old(sock),
            unbound(*old(self), *final(self), old(sock).sock_fd),
    {
        let _ = self.udp_bus.unbind(sock);
    }
}

/// `q` is `p` after the binding of `fd`, if any, was dropped and its port
/// released.
pub open spec fn unbound(p: AfInet, q: AfInet, fd: SockFd) -> bool {
    &&& q.bound() == p.bound().remove(fd)
    &&& p.bound().contains_key(fd) ==> released(p.ports(), q.ports(), p.bound()[fd].port as Fd)
    &&& !p.bound().contains_key(fd) ==> same_ids(p.ports(), q.ports())
}


/// Bind acceptance: the unspecified and the loopback addresses may be bound;
/// asking either for port 0 over UDP, while a port is free, gets a port of the
/// pool, which is nonzero when the pool starts at 1; any other address fails
/// with `AddrNotAvailable`.
pub proof fn lemma_bind_acceptance(ports: DescriptorGuardManager, addr: SocketAddr, protocol: SocketProtocol)
    requires
        ports.wf(),
        ports.hi() <= u16::MAX,
    ensures
        IpAddr::V4(0).is_local(),
        IpAddr::V4(0x7f00_0001).is_local(),
        IpAddr::V6(0).is_local(),
        IpAddr::V6(1).is_local(),
        addr.ip.is_local() && addr.port == 0 && protocol == SocketProtocol::Udp
            && ports.available().len() > 0 ==> {
            let r = bind_result(ports.available(), addr, protocol);
            &&& r is Ok
            &&& ports.lo() <= r->Ok_0 <= ports.hi()
            &&& ports.lo() >= 1 ==> r->Ok_0 != 0
        },
        !addr.ip.is_local() ==> bind_result(ports.available(), addr, protocol) == Err::<
            u16,
            NetError,
        >(NetError::AddrNotAvailable),
{
    crate::descriptor::lemma_conservation(ports);
    let av = ports.available();
    if av.len() > 0 {
        assert(av.contains(av.last())) by {
            assert(av[av.len() - 1] == av.last());
        }
        assert(ports.held().contains(av.last()) || ports.available().contains(av.last()));
        assert(ports.in_range(av.last()));
    }
}

/// Port conflict: a bind to port `P` succeeds while `P` is free; once a bind
/// has claimed `P`, another bind to `P` fails with `AddrInUse`; once `P` is
/// released by an unbind, a bind to `P` succeeds again.
pub proof fn lemma_port_conflict(
    p0: DescriptorGuardManager,
    p1: DescriptorGuardManager,
    p2: DescriptorGuardManager,
    addr: SocketAddr,
)
    requires
        p1.wf(),
        addr.ip.is_local(),
        addr.port != 0,
        claimed(p0, p1, addr.port as Fd),
        released(p1, p2, addr.port as Fd),
    ensures
        bind_result(p0.available(), addr, SocketProtocol::Udp) == Ok::<u16, NetError>(addr.port),
        bind_result(p1.available(), addr, SocketProtocol::Udp) == Err::<u16, NetError>(
            NetError::AddrInUse,
        ),
        bind_result(p2.available(), addr, SocketProtocol::Udp) == Ok::<u16, NetError>(addr.port),
{
    crate::descriptor::lemma_conservation(p1);
    assert(p2.available().last() == addr.port as Fd);
    assert(p2.available()[p2.available().len() - 1] == addr.port as Fd);
}

} // verus!
