//! Recognized `reason` codes carried on a terminal signal.

use vstd::prelude::*;

verus! {

/// The joiner entered the wrong PIN (EAP-NOOB MAC / NoobId mismatch).
pub const INCORRECT_PIN: &'static str = "incorrect-pin";
/// The joiner is already a member of another cluster.
pub const ALREADY_CLUSTERED: &'static str = "already-clustered";

} // verus!
