//! Wire types and identifiers of the PAIR cluster protocol: telemetry,
//! discovery records, JSON-RPC envelopes, and the method names, endpoint
//! paths and TXT keys of the observed contract.

pub mod endpoints;
pub mod methods;
pub mod txt_keys;
pub mod telemetry;
pub mod discovery;
pub mod jsonrpc;
