//! Client core for a fleet of network-attached smart bulbs: the wire codec
//! for the device protocol, per-device handles with cached state, LAN
//! discovery collection, and the registry of known devices.
//!
//! All network and storage I/O is performed by the embedding program; the
//! functions here take the transport outcome (a reply, a timeout, a send
//! failure) or the store's answer as an explicit argument and make every
//! decision about it, so the whole decision logic is verified.

pub mod codec;
pub mod device;
pub mod ident;
pub mod registry;
pub mod scanner;

