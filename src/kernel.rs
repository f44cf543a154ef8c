//! The per-host socket layer: a pool of file descriptors and the internet
//! address family with its ports.
use vstd::prelude::*;
use crate::addr::{IpAddr, SocketAddr};
use crate::af_inet::{AfInet, bind_result, unbound};
use crate::descriptor::{DescriptorGuardManager, Fd, claimed, released, same_ids};
use crate::error::NetError;
use crate::socket::{SockFd, Socket, SocketProtocol};

verus! {

/// Highest file descriptor and highest port of a host.
pub const MAX_ID: u64 = 65535;

pub struct Kernel {
    af_inet: AfInet,
    sock_fd_manager: DescriptorGuardManager,
    /// The address of the host. It belongs to a registry of devices rather
    /// than to the socket layer.
    addr: IpAddr,
}

impl Kernel {
    /// The pool of file descriptors.
    pub closed spec fn fds(&self) -> DescriptorGuardManager {
        self.sock_fd_manager
    }

    /// The pool of ports.
    pub closed spec fn ports(&self) -> DescriptorGuardManager {
        self.af_inet.ports()
    }

    /// The address of each bound socket, by descriptor.
    pub closed spec fn bound(&self) -> Map<SockFd, SocketAddr> {
        self.af_inet.bound()
    }

    pub closed spec fn host_ip(&self) -> IpAddr {
        self.addr
    }

    pub closed spec fn family(&self) -> AfInet {
        self.af_inet
    }

    /// Every bound descriptor is held by a live socket.
    pub closed spec fn wf(&self) -> bool {
        &&& self.sock_fd_manager.wf()
        &&& self.af_inet.wf()
        &&& forall|fd: SockFd| #[trigger]
            self.af_inet.bound().contains_key(fd) ==> self.sock_fd_manager.held().contains(fd)
    }

    /// A host at `addr` with descriptors and ports `1..=65535`, all free.
    pub fn new(addr: IpAddr) -> (r: Self)
        ensures
            r.wf(),
            r.host_ip() == addr,
            r.bound() == Map::<SockFd, SocketAddr>::empty(),
            r.fds().available() == crate::descriptor::range_seq(1, MAX_ID),
            r.fds().held() == Set::<Fd>::empty(),
            r.fds().lo() == 1 && r.fds().hi() == MAX_ID,
            r.ports().available() == crate::descriptor::range_seq(1, MAX_ID),
            r.ports().held() == Set::<Fd>::empty(),
            r.ports().lo() == 1 && r.ports().hi() == MAX_ID,
    {
        Kernel {
            af_inet: AfInet::new(1, MAX_ID),
            sock_fd_manager: DescriptorGuardManager::new(1, MAX_ID),
            addr,
        }
    }

    /// Opens a socket on a fresh descriptor and binds it to `addr` (see
    /// `bind_result`). On failure the descriptor goes back to its pool. The
    /// address must be of the host's IP version.
    pub fn bind(&mut self, addr: SocketAddr, sock_protocol: SocketProtocol) -> (r: Result<
        Socket,
        NetError,
    >)
        requires
            old(self).wf(),
            (addr.ip is V4) == (old(self).host_ip() is V4),
        ensures
            final(self).wf(),
            final(self).host_ip() == old(self).host_ip(),
            old(self).fds().available().len() == 0 ==> {
                &&& r == Err::<Socket, NetError>(NetError::OutOfDescriptors)
                &&& same_ids(old(self).fds(), final(self).fds())
                &&& same_ids(old(self).ports(), final(self).ports())
                &&& final(self).bound() == old(self).bound()
            },
            old(self).fds().available().len() > 0 ==> match bind_result(
                old(self).ports().available(),
                addr,
                sock_protocol,
            ) {
                Ok(p) => {
                    let fd = old(self).fds().available().last();
                    &&& r is Ok
                    &&& r->Ok_0.addr == SocketAddr { ip: addr.ip, port: p }
                    &&& r->Ok_0.sock_fd == fd
                    &&& r->Ok_0.guard_id() == fd
                    &&& r->Ok_0.sock_protocol == sock_protocol
                    &&& claimed(old(self).fds(), final(self).fds(), fd)
                    &&& claimed(old(self).ports(), final(self).ports(), p as Fd)
                    &&& final(self).bound() == old(self).bound().insert(fd, r->Ok_0.addr)
                },
                Err(e) => {
                    &&& r == Err::<Socket, NetError>(e)
                    &&& same_ids(old(self).fds(), final(self).fds())
                    &&& same_ids(old(self).ports(), final(self).ports())
                    &&& final(self).bound() == old(self).bound()
                },
            },
    {
        let sock_fd_guard = match self.sock_fd_manager.ephemeral() {
            Some(g) => g,
            None => {
                return Err(NetError::OutOfDescriptors);
            },
        };
        let sock_fd = sock_fd_guard.id();
        let mut sock = Socket::new(addr, sock_fd, sock_protocol, sock_fd_guard);
        match self.af_inet.bind(&mut sock) {
            Ok(()) => {
                proof {
                    assert forall|fd: SockFd| #[trigger] self.af_inet.bound().contains_key(fd)
                        implies self.sock_fd_manager.held().contains(fd) by {
                        if fd != sock_fd {
                            assert(old(self).af_inet.bound().contains_key(fd));
                        }
                    }
                }
                Ok(sock)
            },
            Err(e) => {
                let g = sock.into_guard();
                self.sock_fd_manager.release(g);
                proof {
                    let s = old(self).sock_fd_manager.available();
                    assert(s.drop_last().push(s.last()) =~= s);
                    assert(old(self).sock_fd_manager.held().insert(sock_fd).remove(sock_fd)
                        =~= old(self).sock_fd_manager.held());
                }
                Err(e)
            },
        }
    }

    /// Drops the socket's binding, releasing its port: `NotImplemented` for
    /// TCP. The descriptor stays with the socket.
    pub fn unbind(&mut self, sock: &mut Socket) -> (r: Result<(), NetError>)
        requires
            old(self).wf(),
        ensures
            final(self).wf(),
            *final(sock) == *old(sock),
            same_ids(old(self).fds(), final(self).fds()),
            final(self).host_ip() == old(self).host_ip(),
            old(sock).sock_protocol == SocketProtocol::Tcp ==> r == Err::<(), NetError>(
                NetError::NotImplemented,
            ) && final(self).bound() == old(self).bound() && same_ids(
                old(self).ports(),
                final(self).ports(),
            ),
            old(sock).sock_protocol == SocketProtocol::Udp ==> r == Ok::<(), NetError>(())
                && unbound(old(self).family(), final(self).family(), old(sock).sock_fd),
    {
        self.af_inet.unbind(sock)
    }

    /// Closes a socket of this host: drops its binding, if any, and releases
    /// its descriptor.
    pub fn close(&mut self, sock: Socket)
        requires
            old(self).wf(),
            old(self).fds().held().contains(sock.guard_id()),
            sock.sock_fd == sock.guard_id(),
        ensures
            final(self).wf(),
            final(self).host_ip() == old(self).host_ip(),
            released(old(self).fds(), final(self).fds(), sock.sock_fd),
            unbound(old(self).family(), final(self).family(), sock.sock_fd),
    {
        let mut sock = sock;
        self.af_inet.release_binding(&mut sock);
        let g = sock.into_guard();
        self.sock_fd_manager.release(g);
    }

    /// Sends a datagram. Delivery belongs to the simulated world, so the
    /// socket layer reports no byte sent.
    pub fn send_to(&mut self, datagram: &[u8], target: SocketAddr) -> (r: Result<usize, NetError>)
        requires
            old(self).wf(),
        ensures
            final(self).wf(),
            *final(self) == *old(self),
            r == Ok::<usize, NetError>(0),
    {
        Ok(0)
    }
}

} // verus!
