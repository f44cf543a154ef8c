//! The UDP port bus: which socket holds which port.
use vstd::prelude::*;
use std::collections::HashMap;
use crate::addr::SocketAddr;
use crate::descriptor::{DescriptorGuard, DescriptorGuardManager, Fd, claimed, released, same_ids};
use crate::error::NetError;
use crate::socket::{SockFd, Socket};

verus! {

broadcast use vstd::std_specs::hash::group_hash_axioms;

/// What an ephemeral port request gives, over the available ports: the
/// most recently freed port, provided it is a 16-bit port.
pub open spec fn ephemeral_port_result(available: Seq<Fd>) -> Result<u16, NetError> {
    if available.len() == 0 {
        Err(NetError::NoEphemeralPorts)
    } else if available.last() > u16::MAX {
        Err(NetError::PortOutOfRange)
    } else {
        Ok(available.last() as u16)
    }
}

/// One bound socket: its address and the guard of its port.
struct Bind {
    addr: SocketAddr,
    port_guard: DescriptorGuard,
}

/// Bound sockets keyed by descriptor, and the pool of ports. Each bound
/// socket holds its own port; no two hold the same one.
pub struct UdpBus {
    binds: HashMap<SockFd, Bind>,
    ports: DescriptorGuardManager,
}

impl UdpBus {
    /// The address of each bound socket, by descriptor.
    pub closed spec fn bound(&self) -> Map<SockFd, SocketAddr> {
        self.binds@.map_values(|b: Bind| b.addr)
    }

    /// The pool of ports.
    pub closed spec fn ports(&self) -> DescriptorGuardManager {
        self.ports
    }

    pub closed spec fn wf(&self) -> bool {
        &&& self.ports.wf()
        &&& forall|fd: SockFd| #[trigger]
            self.binds@.contains_key(fd) ==> {
                &&& self.ports.held().contains(self.binds@[fd].port_guard@)
                &&& self.binds@[fd].port_guard@ == self.binds@[fd].addr.port as Fd
            }
        &&& forall|a: SockFd, b: SockFd|
            #![trigger self.binds@[a], self.binds@[b]]
            self.binds@.contains_key(a) && self.binds@.contains_key(b) && a != b
                ==> self.binds@[a].port_guard@ != self.binds@[b].port_guard@
    }

    /// A bus with no bound socket over the ports `lo..=hi`.
    pub fn new(lo: Fd, hi: Fd) -> (r: Self)
        ensures
            r.wf(),
            r.bound() == Map::<SockFd, SocketAddr>::empty(),
            r.ports().available() == crate::descriptor::range_seq(lo, hi),
            r.ports().held() == Set::<Fd>::empty(),
            r.ports().lo() == lo,
            r.ports().hi() == hi,
    {
        let r = UdpBus { binds: HashMap::new(), ports: DescriptorGuardManager::new(lo, hi) };
        assert(r.bound() =~= Map::<SockFd, SocketAddr>::empty());
        r
    }

    /// Binds the socket to the port of its address: `AddrInUse` exactly
    /// when that port is not available.
    pub fn bind(&mut self, sock: &mut Socket) -> (r: Result<(), NetError>)
        requires
            old(self).wf(),
            !old(self).bound().contains_key(old(sock).sock_fd),
        ensures
            final(self).wf(),
            *final(sock) == *old(sock),
            r is Ok == old(self).ports().available().contains(old(sock).addr.port as Fd),
            r is Ok ==> r == Ok::<(), NetError>(()) && final(self).bound() == old(self).bound().insert(
                old(sock).sock_fd,
                old(sock).addr,
            ) && claimed(old(self).ports(), final(self).ports(), old(sock).addr.port as Fd),
            r is Err ==> r == Err::<(), NetError>(NetError::AddrInUse) && final(self).bound()
                == old(self).bound() && same_ids(old(self).ports(), final(self).ports()),
    {
        match self.ports.register(sock.addr.port as Fd) {
            None => Err(NetError::AddrInUse),
            Some(port_guard) => {
                let bind = Bind { addr: sock.addr, port_guard };
                let _ = self.binds.insert(sock.sock_fd, bind);
                proof {
                    assert(self.bound() =~= old(self).bound().insert(old(sock).sock_fd, old(sock).addr));
                    assert forall|a: SockFd, b: SockFd|
                        self.binds@.contains_key(a) && self.binds@.contains_key(b) && a != b
                        implies self.binds@[a].port_guard@ != self.binds@[b].port_guard@ by {
                        if a != sock.sock_fd && b != sock.sock_fd {
                            assert(old(self).binds@.contains_key(a));
                            assert(old(self).binds@.contains_key(b));
                        } else if a == sock.sock_fd {
                            assert(old(self).binds@.contains_key(b));
                        } else {
                            assert(old(self).binds@.contains_key(a));
                        }
                    }
                    assert forall|fd: SockFd| #[trigger] self.binds@.contains_key(fd) implies
                        self.ports.held().contains(self.binds@[fd].port_guard@) by {
                        if fd != sock.sock_fd {
                            assert(old(self).binds@.contains_key(fd));
                        }
                    }
                }
                Ok(())
            },
        }
    }

    /// Drops the binding of the socket, if any, releasing its port.
    pub fn unbind(&mut self, sock: &mut Socket) -> (r: Result<(), NetError>)
        requires
            old(self).wf(),
        ensures
            final(self).wf(),
            *final(sock) == *old(sock),
            r == Ok::<(), NetError>(()),
            final(self).bound() == old(self).bound().remove(old(sock).sock_fd),
            old(self).bound().contains_key(old(sock).sock_fd) ==> released(
                old(self).ports(),
                final(self).ports(),
                old(self).bound()[old(sock).sock_fd].port as Fd,
            ),
            !old(self).bound().contains_key(old(sock).sock_fd) ==> same_ids(
                old(self).ports(),
                final(self).ports(),
            ),
    {
        match self.binds.remove(&sock.sock_fd) {
            Some(b) => {
                let Bind { addr: _, port_guard } = b;
                proof {
                    assert(old(self).binds@.contains_key(sock.sock_fd));
                }
                self.ports.release(port_guard);
                proof {
                    assert forall|fd: SockFd| #[trigger] self.binds@.contains_key(fd) implies
                        self.ports.held().contains(self.binds@[fd].port_guard@) by {
                        assert(old(self).binds@.contains_key(fd));
                    }
                }
            },
            None => {},
        }
        assert(self.bound() =~= old(self).bound().remove(old(sock).sock_fd));
        Ok(())
    }

    /// Picks a free port for a socket that asked for port 0. The port stays
    /// available until the socket binds it.
    pub fn ephemeral_port(&mut self) -> (r: Result<u16, NetError>)
        requires
            old(self).wf(),
        ensures
            final(self).wf(),
            final(self).bound() == old(self).bound(),
            same_ids(old(self).ports(), final(self).ports()),
            r == ephemeral_port_result(old(self).ports().available()),
    {
        match self.ports.ephemeral() {
            None => Err(NetError::NoEphemeralPorts),
            Some(port) => {
                let id = port.id();
                self.ports.release(port);
                proof {
                    let s = old(self).ports.available();
                    assert(s.drop_last().push(s.last()) =~= s);
                    assert(old(self).ports.held().insert(id).remove(id) =~= old(self).ports.held());
                }
                if id <= u16::MAX as u64 {
                    Ok(id as u16)
                } else {
                    Err(NetError::PortOutOfRange)
                }
            },
        }
    }
}

} // verus!
