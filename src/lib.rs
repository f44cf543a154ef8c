//! A deterministic network simulation core: id pools with guard-based
//! release, a simulated per-host socket layer, and the decisions of the
//! tick-driven simulation driver.
pub mod addr;
pub mod af_inet;
pub mod descriptor;
pub mod error;
pub mod kernel;
pub mod sim;
pub mod socket;
pub mod udp;
