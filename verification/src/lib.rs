//! openpair: the verified core of a PAIR (Personal AI Router) cluster node.
//!
//! The library holds the protocol logic of the node: EAP-NOOB pairing (PIN
//! encoding, key derivation, MACs and the Server/Peer state machines), the
//! cluster pairing envelope and session drivers, certificate pinning, the
//! model-routing table of the data plane, telemetry parsing, and stdio framing.
//! Network, file and process I/O live in the companion application.

pub mod text;
pub mod codec;
pub mod json_keys;
pub mod decimal;
pub mod keyed;
pub mod pairing;
pub mod trust;
pub mod cluster;
pub mod proxy;
pub mod proto;
pub mod rpc;
pub mod nodeinfo;
pub mod ui;
