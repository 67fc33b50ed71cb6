//! HTTP endpoint paths per service.

use vstd::prelude::*;

verus! {

// proxies (ollama-proxy / lmstudio-proxy)
pub const OLLAMA_API_PREFIX: &'static str = "/api/"; // Ollama-native
pub const OPENAI_V1_PREFIX: &'static str = "/v1/"; // OpenAI-compatible
/// Peer request forwarding: body {host,port,path,name,data,txt,code}.
pub const INGRESS: &'static str = "/ingress";
pub const SET_PRIORITY: &'static str = "/set-priority";
pub const NODE_ACTIVITY: &'static str = "/nodeactivity";

// node-info
pub const NODE_INFO: &'static str = "/v1/node-info";

// cluster-manager (pairing / membership)
pub const PAIRING: &'static str = "/pairing";
pub const INVITE: &'static str = "/invite";
pub const INVITE_STATUS: &'static str = "/invite_status";
pub const INVITE_EXPIRY: &'static str = "/invite_expiry";
pub const INVITE_PROVENANCE: &'static str = "/invite_provenance";
pub const CLUSTER_PAIRING: &'static str = "/v1/cluster/pairing";
pub const CLUSTER_ROSTER: &'static str = "/v1/cluster/roster";
pub const CLUSTER_MEMBERS_REMOVE: &'static str = "/v1/cluster/members/remove";

// shared clustertrust mesh (mTLS)
pub const CLUSTERTRUST_MEMBERSHIP: &'static str = "/clustertrust/membership";
pub const CLUSTERTRUST_MESH: &'static str = "/clustertrust/mesh";
pub const CLUSTERTRUST_PEERCLIENT: &'static str = "/clustertrust/peerclient";
pub const CLUSTERTRUST_WATCH: &'static str = "/clustertrust/watch";

// engine-manager control
pub const V1_ENGINES: &'static str = "/v1/engines";
pub const MODELOPS: &'static str = "/modelops";
pub const REMOTEPEERS: &'static str = "/remotepeers";

// workload-manager / errors
pub const WORKLOAD_EVENTS: &'static str = "/v1/workloads/events"; // SSE
pub const PEERSYNC: &'static str = "/peersync";

} // verus!
