//! Cluster pairing: the EAP-NOOB state machines carried on the plain-HTTP
//! `/v1/cluster/pairing` channel, the `PairingInfo` identity object embedded in
//! ServerInfo/PeerInfo, and the two-exchange join flow.

pub mod phase;
pub mod reason;
pub mod wire;
pub mod info;
pub mod session;
pub mod node;
pub mod agreement;
pub mod http;
