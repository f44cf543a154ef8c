use netsim::addr::{IpAddr, SocketAddr};
use netsim::af_inet::AfInet;
use netsim::error::NetError;
use netsim::kernel::Kernel;
use netsim::socket::{Socket, SocketProtocol};
use netsim::udp::UdpBus;
use netsim::descriptor::DescriptorGuard;

fn v4(a: u8, b: u8, c: u8, d: u8, port: u16) -> SocketAddr {
    SocketAddr::new(IpAddr::v4(a, b, c, d), port)
}

#[test]
fn v4_address_bits() {
    assert_eq!(IpAddr::v4(127, 0, 0, 1), IpAddr::V4(0x7f00_0001));
    assert!(IpAddr::v4(127, 1, 2, 3).is_loopback());
    assert!(!IpAddr::v4(128, 0, 0, 1).is_loopback());
    assert!(IpAddr::V6(1).is_loopback());
    assert!(IpAddr::V6(0).is_unspecified());
    assert!(!IpAddr::V6(2).is_unspecified());
}

#[test]
fn bind_unspecified_gets_ephemeral_port() {
    let mut k = Kernel::new(IpAddr::v4(10, 0, 0, 1));
    let s = k.bind(v4(0, 0, 0, 0, 0), SocketProtocol::Udp).unwrap();
    assert_ne!(s.addr.port, 0);
    assert_eq!(s.addr.ip, IpAddr::V4(0));
    assert!(s.sock_fd >= 1 && s.sock_fd <= 65535);
}

#[test]
fn bind_loopback_gets_ephemeral_port() {
    let mut k = Kernel::new(IpAddr::v4(10, 0, 0, 1));
    let a = k.bind(v4(127, 0, 0, 1, 0), SocketProtocol::Udp).unwrap();
    let b = k.bind(v4(127, 0, 0, 1, 0), SocketProtocol::Udp).unwrap();
    assert!(a.addr.port >= 1);
    assert!(b.addr.port >= 1);
    assert_ne!(a.addr.port, b.addr.port);
    assert_ne!(a.sock_fd, b.sock_fd);
}

#[test]
fn bind_ipv6_loopback() {
    let mut k = Kernel::new(IpAddr::V6(7));
    let s = k.bind(SocketAddr::new(IpAddr::V6(1), 0), SocketProtocol::Udp).unwrap();
    assert_ne!(s.addr.port, 0);
}

#[test]
fn bind_other_address_not_available() {
    let mut k = Kernel::new(IpAddr::v4(10, 0, 0, 1));
    let r = k.bind(v4(10, 0, 0, 1, 0), SocketProtocol::Udp);
    assert_eq!(r.err(), Some(NetError::AddrNotAvailable));
    let r = k.bind(v4(192, 168, 1, 1, 8080), SocketProtocol::Udp);
    assert_eq!(r.err(), Some(NetError::AddrNotAvailable));
}

#[test]
fn port_conflict_then_unbind() {
    let mut k = Kernel::new(IpAddr::v4(10, 0, 0, 1));
    let mut s = k.bind(v4(0, 0, 0, 0, 8080), SocketProtocol::Udp).unwrap();
    assert_eq!(s.addr.port, 8080);
    let r = k.bind(v4(127, 0, 0, 1, 8080), SocketProtocol::Udp);
    assert_eq!(r.err(), Some(NetError::AddrInUse));
    assert_eq!(k.unbind(&mut s), Ok(()));
    let again = k.bind(v4(127, 0, 0, 1, 8080), SocketProtocol::Udp).unwrap();
    assert_eq!(again.addr.port, 8080);
}

#[test]
fn failed_bind_returns_descriptor() {
    let mut k = Kernel::new(IpAddr::v4(10, 0, 0, 1));
    let first = k.bind(v4(0, 0, 0, 0, 9000), SocketProtocol::Udp).unwrap();
    assert!(k.bind(v4(0, 0, 0, 0, 9000), SocketProtocol::Udp).is_err());
    let next = k.bind(v4(0, 0, 0, 0, 9001), SocketProtocol::Udp).unwrap();
    // The descriptor of the failed bind was handed back and is reused.
    assert_eq!(next.sock_fd, first.sock_fd - 1);
}

#[test]
fn tcp_is_not_implemented() {
    let mut k = Kernel::new(IpAddr::v4(10, 0, 0, 1));
    assert_eq!(k.bind(v4(0, 0, 0, 0, 0), SocketProtocol::Tcp).err(), Some(NetError::NotImplemented));
    assert_eq!(k.bind(v4(0, 0, 0, 0, 80), SocketProtocol::Tcp).err(), Some(NetError::NotImplemented));
    let mut af = AfInet::new(1, 10);
    let mut sock = Socket::new(v4(0, 0, 0, 0, 3), 1, SocketProtocol::Tcp, DescriptorGuard::new(1));
    assert_eq!(af.unbind(&mut sock), Err(NetError::NotImplemented));
}

#[test]
fn close_releases_port_and_descriptor() {
    let mut k = Kernel::new(IpAddr::v4(10, 0, 0, 1));
    let s = k.bind(v4(0, 0, 0, 0, 4000), SocketProtocol::Udp).unwrap();
    let fd = s.sock_fd;
    k.close(s);
    let t = k.bind(v4(0, 0, 0, 0, 4000), SocketProtocol::Udp).unwrap();
    assert_eq!(t.sock_fd, fd);
    assert_eq!(t.addr.port, 4000);
}

#[test]
fn send_to_reports_zero() {
    let mut k = Kernel::new(IpAddr::v4(10, 0, 0, 1));
    assert_eq!(k.send_to(&[1, 2, 3], v4(10, 0, 0, 2, 53)), Ok(0));
}

#[test]
fn ephemeral_ports_run_out() {
    let mut bus = UdpBus::new(1, 0);
    assert_eq!(bus.ephemeral_port(), Err(NetError::NoEphemeralPorts));
    let mut af = AfInet::new(1, 1);
    let mut a = Socket::new(v4(0, 0, 0, 0, 0), 1, SocketProtocol::Udp, DescriptorGuard::new(1));
    assert_eq!(af.bind(&mut a), Ok(()));
    assert_eq!(a.addr.port, 1);
    let mut b = Socket::new(v4(0, 0, 0, 0, 0), 2, SocketProtocol::Udp, DescriptorGuard::new(2));
    assert_eq!(af.bind(&mut b), Err(NetError::NoEphemeralPorts));
    assert_eq!(b.addr.port, 0);
}

#[test]
fn port_beyond_sixteen_bits_is_refused() {
    let mut bus = UdpBus::new(70000, 70000);
    assert_eq!(bus.ephemeral_port(), Err(NetError::PortOutOfRange));
}

#[test]
fn ephemeral_port_leaves_port_free() {
    let mut bus = UdpBus::new(5, 6);
    assert_eq!(bus.ephemeral_port(), Ok(6));
    assert_eq!(bus.ephemeral_port(), Ok(6));
    let mut s = Socket::new(v4(0, 0, 0, 0, 6), 1, SocketProtocol::Udp, DescriptorGuard::new(1));
    assert_eq!(bus.bind(&mut s), Ok(()));
    assert_eq!(bus.ephemeral_port(), Ok(5));
    assert_eq!(bus.unbind(&mut s), Ok(()));
    assert_eq!(bus.ephemeral_port(), Ok(6));
}

#[test]
fn descriptors_run_out() {
    let mut k = Kernel::new(IpAddr::v4(10, 0, 0, 1));
    let mut socks = Vec::new();
    for _ in 0..65535 {
        socks.push(k.bind(v4(0, 0, 0, 0, 0), SocketProtocol::Udp).unwrap());
    }
    assert_eq!(k.bind(v4(0, 0, 0, 0, 0), SocketProtocol::Udp).err(), Some(NetError::OutOfDescriptors));
}
