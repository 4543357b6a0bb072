//! A verified core for a peer-to-peer connectivity layer.
//!
//! Peers are identified by long-lived 32-byte public keys and exchange
//! datagrams over direct UDP paths or through relay servers.  The upper QUIC
//! transport addresses each peer by a stable *mapped address* while the layer
//! below searches for and upgrades to the best working path.
//!
//! This crate holds the decision logic and the wire formats of that layer:
//! the control-plane (disco) message codec and its sealing, the relay frame
//! codec, packet classification and splitting, the per-peer node map with its
//! mapped-address bookkeeping, the relay client and relay actor state
//! machines, and the direct-address bookkeeping.  The surrounding I/O (UDP
//! sockets, TLS, HTTP upgrades, timers) lives outside and drives these parts
//! with plain values.

pub mod addr;
pub mod disco;
pub mod endpoints;
pub mod lifecycle;
pub mod magic;
pub mod node_map;
pub mod relay_actor;
pub mod relay_client;
pub mod relay_frames;
pub mod seal;
pub mod split;
pub mod update_state;
