//! Message framing over a byte stream for JSON-RPC between the supervisor
//! and its services.

pub mod framing;
