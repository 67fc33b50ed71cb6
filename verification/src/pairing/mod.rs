//! EAP-NOOB (RFC 9140) PIN pairing.
//!
//! Message sequence (`Type` 1..=6): Discovery -> Negotiation -> KeyExchange ->
//! Waiting -> NoobId -> Completion. The out-of-band `Noob` (delivered through
//! the PIN) and the ECDH secret `Z` feed the one-step KDF; `Kms`/`Kmp` key the
//! confirmation MACs.

pub mod eap_wire;
pub mod handshake;
pub mod error_code;
pub mod kdf;
pub mod machine;
pub mod mac;
pub mod messages;
pub mod pin;
pub mod suite;

use vstd::prelude::*;

verus! {

/// Role in the EAP-NOOB exchange.
#[derive(Debug, Clone, Copy, PartialEq, Eq, Structural)]
pub enum Role {
    /// The inviting side (EAP server).
    Server,
    /// The joining side (EAP peer).
    Peer,
}

/// High-level phase tracker for the handshake.
#[derive(Debug, Clone, Copy, PartialEq, Eq, Structural)]
pub enum Phase {
    Discovery,
    Negotiation,
    KeyExchange,
    WaitingForOob,
    NoobId,
    Completion,
    Done,
}

/// The position of a phase in the RFC 9140 sequence, from 0 (Discovery) to 6
/// (Done).
pub open spec fn phase_rank(p: Phase) -> nat {
    match p {
        Phase::Discovery => 0,
        Phase::Negotiation => 1,
        Phase::KeyExchange => 2,
        Phase::WaitingForOob => 3,
        Phase::NoobId => 4,
        Phase::Completion => 5,
        Phase::Done => 6,
    }
}

/// The phase `n` steps after `p`.
pub open spec fn phase_after(p: Phase, n: nat) -> Phase
    decreases n,
{
    if n == 0 {
        p
    } else {
        phase_after(spec_next(p), (n - 1) as nat)
    }
}

/// The successor of a phase, `Done` being its own successor.
pub open spec fn spec_next(p: Phase) -> Phase {
    match p {
        Phase::Discovery => Phase::Negotiation,
        Phase::Negotiation => Phase::KeyExchange,
        Phase::KeyExchange => Phase::WaitingForOob,
        Phase::WaitingForOob => Phase::NoobId,
        Phase::NoobId => Phase::Completion,
        Phase::Completion => Phase::Done,
        Phase::Done => Phase::Done,
    }
}

impl Phase {
    /// The next phase on success, per the RFC 9140 sequence.
    pub fn next(self) -> (r: Phase)
        ensures
            r == spec_next(self),
            phase_rank(r) == if phase_rank(self) < 6 { phase_rank(self) + 1 } else { 6 },
    {
        match self {
            Phase::Discovery => Phase::Negotiation,
            Phase::Negotiation => Phase::KeyExchange,
            Phase::KeyExchange => Phase::WaitingForOob,
            Phase::WaitingForOob => Phase::NoobId,
            Phase::NoobId => Phase::Completion,
            Phase::Completion => Phase::Done,
            Phase::Done => Phase::Done,
        }
    }
}

/// Each step advances the phase by one position until `Done`, which is final:
/// `n` steps from `p` reach position `min(rank(p) + n, 6)`, and a phase is
/// determined by its position.
pub proof fn lemma_phase_progress(p: Phase, n: nat)
    ensures
        phase_rank(phase_after(p, n)) == if phase_rank(p) + n < 6 { phase_rank(p) + n } else { 6 },
        forall|a: Phase, b: Phase| phase_rank(a) == phase_rank(b) ==> a == b,
    decreases n,
{
    if n > 0 {
        lemma_phase_progress(spec_next(p), (n - 1) as nat);
    }
}

/// Six steps take any phase to `Done`, and `Done` never moves.
pub proof fn lemma_phase_reaches_done(p: Phase)
    ensures
        phase_after(p, 6) == Phase::Done,
        spec_next(Phase::Done) == Phase::Done,
{
    lemma_phase_progress(p, 6);
}

} // verus!
