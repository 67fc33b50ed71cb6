//! Domain JSON-RPC method and notification names.

use vstd::prelude::*;

verus! {

// discovery / nodes
pub const DISCOVERY_SUBSCRIBE: &'static str = "discovery:subscribe";
pub const DISCOVERY_GET_NODES: &'static str = "discovery:get-nodes";
pub const DISCOVERY_NODES_CHANGED: &'static str = "discovery:nodes-changed";
pub const DISCOVERY_REGISTER: &'static str = "discovery:register";
pub const NODE_ADD: &'static str = "node/add";
pub const NODE_ADD_MANUAL: &'static str = "node/add-manual";
pub const NODE_DISCOVERED: &'static str = "node/discovered";
pub const NODE_UPDATED: &'static str = "node/updated";
pub const NODE_REMOVED: &'static str = "node/removed";
pub const NODE_SET_PRIORITY: &'static str = "node/set-priority";

// scheduler
pub const SCHEDULE_PRIORITY: &'static str = "schedule:priority";

// engine lifecycle
pub const ENGINE_SUBSCRIBE: &'static str = "engine:subscribe";
pub const ENGINE_STATE_CHANGED: &'static str = "engine:state-changed";
pub const ENGINE_START: &'static str = "engine:start";
pub const ENGINE_STOP: &'static str = "engine:stop";
pub const ENGINE_INSTALL: &'static str = "engine:install";
pub const ENGINE_INSTALL_PROGRESS: &'static str = "engine:install-progress";
pub const ENGINE_READY: &'static str = "engine:ready";
pub const ENGINE_GET_INSTALLED: &'static str = "engine:get-installed";

// cluster / pairing
pub const CLUSTER_INVITE_NODE: &'static str = "cluster:invite-node";
pub const CLUSTER_RESPOND_TO_INVITE: &'static str = "cluster:respond-to-invite";
pub const CLUSTER_INVITE_STATUS: &'static str = "cluster:invite-status";
pub const CLUSTER_INVITE_RECEIVED: &'static str = "cluster:invite-received";
pub const CLUSTER_GET_INITIAL: &'static str = "cluster:get-initial";
pub const CLUSTER_LEAVE: &'static str = "cluster:leave";
pub const CLUSTER_SET_IDENTITY: &'static str = "cluster:set-identity";
pub const CLUSTER_IDENTITY_CHANGED: &'static str = "cluster:identity-changed";

// errors / settings / logging / proxy
pub const ERRORS_REPORT: &'static str = "errors:report";
pub const ERRORS_UPDATE: &'static str = "errors:update";
pub const SETTINGS_GET_CLUSTER_ID: &'static str = "settings/get-cluster-id";
pub const SETTINGS_SET_CLUSTER_ID: &'static str = "settings/set-cluster-id";
pub const LOG_SET_LEVEL: &'static str = "log/set-level";
pub const PROXY_SUBSCRIBE: &'static str = "proxy:subscribe";

// renderer<->main bridge tunnel
pub const SERVICE_BRIDGE_INVOKE: &'static str = "service-bridge:invoke";
pub const SERVICE_BRIDGE_PUSH: &'static str = "service-bridge:push";

} // verus!
