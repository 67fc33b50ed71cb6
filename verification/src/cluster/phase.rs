//! Pairing phases (the envelope's `phase` field). `initial` and `completion`
//! carry the EAP-NOOB handshake; the rest are terminal or liveness signals.

use vstd::prelude::*;

verus! {

pub const INITIAL: &'static str = "initial";
pub const COMPLETION: &'static str = "completion";
pub const CANCEL: &'static str = "cancel";
pub const DECLINE: &'static str = "decline";
pub const FAIL: &'static str = "fail";
pub const ACK: &'static str = "ack";
pub const EXPIRED: &'static str = "expired";

} // verus!
