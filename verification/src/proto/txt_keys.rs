//! mDNS TXT keys carried in the `_nvpair-node._tcp` service record.

use vstd::prelude::*;

verus! {

/// TXT record version (observed `v=1`).
pub const VERSION: &'static str = "v";
/// Node UUID (observed key is `uuid`, not `nodeUuid`).
pub const NODE_UUID: &'static str = "uuid";
/// Primary advertised IP.
pub const IP: &'static str = "ip";
/// Cluster UUID (byte-verified in ClusterUUIDFromTXT; present when clustered).
pub const CLUSTER_UUID: &'static str = "cluster-uuid";

} // verus!
