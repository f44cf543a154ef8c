//! The recoverable errors of the socket layer.
use vstd::prelude::*;

verus! {

#[derive(Clone, Copy, Debug, PartialEq, Eq, Structural)]
pub enum NetError {
    /// No file descriptor is left.
    OutOfDescriptors,
    /// The address is not one of this host's.
    AddrNotAvailable,
    /// The port is already bound.
    AddrInUse,
    /// No port is left for ephemeral allocation.
    NoEphemeralPorts,
    /// A port pool handed out an id that is not a 16-bit port.
    PortOutOfRange,
    /// The operation is not supported for this protocol yet.
    NotImplemented,
}

} // verus!
