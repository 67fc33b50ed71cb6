//! The data plane's routing logic: candidate selection, the routing table of
//! what each node serves, model extraction from request bodies, the `/ingress`
//! envelope, and the per-request routing decision.

pub mod router;
pub mod routing;
pub mod model;
pub mod tags;
pub mod ingress;
pub mod live;
