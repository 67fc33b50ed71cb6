//! Cluster trust: node identity, certificate pinning and signed membership
//! statements.

pub mod identity;
pub mod uuid_scheme;
pub mod pin;
pub mod membership;
