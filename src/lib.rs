//! Discovery of peer instances of the application on the local /24 subnet.
//!
//! The library holds the logic of discovery: reading this host's own private
//! address out of the operating system's interface listing, building the
//! candidate hosts of the subnet, keeping the hosts that answered a probe, and
//! the rendezvous handshake that tells a running peer from a host that is
//! merely up. Sockets, processes and threads stay with the caller, which hands
//! the library plain values (bytes, flags) and acts on what comes back.
pub mod address;
pub mod discovery;
pub mod listing;
pub mod protocol;
pub mod text;
