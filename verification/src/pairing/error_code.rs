//! EAP-NOOB error notification codes (RFC 9140 §3.6.4) that the state machines
//! emit or classify.

use vstd::prelude::*;

verus! {

pub const INVALID_DATA: i64 = 1003;
pub const UNEXPECTED_PEER_ID: i64 = 2001;
pub const STATE_MISMATCH: i64 = 2002;
/// Invalid ECDHE key / unrecognized NoobId -- the wrong-PIN signature.
pub const UNRECOGNIZED_OOB_MSG_ID: i64 = 2003;
pub const UNSUPPORTED_VERSION: i64 = 3001;
pub const UNSUPPORTED_CRYPTOSUITE: i64 = 3002;
pub const NO_MUTUAL_OOB: i64 = 3003;
/// Completion MAC verification failed -- also a wrong-PIN signature.
pub const HMAC_VERIFICATION_FAILED: i64 = 4001;

} // verus!
