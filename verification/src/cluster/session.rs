//! Transport-agnostic wrappers around the EAP-NOOB [`Server`]/[`Peer`] that
//! capture the other side's authenticated [`PairingInfo`] and certificate at
//! the right moments, so a driver only has to shuttle bytes.
//!
//! * inviter = EAP-NOOB **Server** (server-to-peer OOB) -> [`InviterSession`]
//! * joiner  = EAP-NOOB **Peer** (prefers server-to-peer) -> [`JoinerSession`]
//!
//! The Initial Exchange (Types 1-4) is driven by the inviter; the Completion
//! Exchange (Types 1, 5, 6) by the joiner after the human PIN step.

use vstd::prelude::*;
use vstd::utf8::encode_utf8;
use crate::cluster::info::{info_error_text, info_json, info_read, info_view, parse_pairing_info, spec_parse_pairing_info, InfoError, InfoView, PairingInfo};
use crate::pairing::machine::{
    is_wrong_pin_code, noob_set, obytes, oob_check, oob_error_text, otext, peer_accepts, peer_config_same, peer_step,
    server_accepts, server_config_same, server_step, Association, OobError, Outcome, Peer, Server, State,
};
use crate::pairing::eap_wire::reads_back;
use crate::pairing::pin::{noob_from_pin, spec_noob_from_pin};
use crate::pairing::error_code;
use crate::text::push_str;

verus! {

/// The other side's authenticated identity, captured from the EAP-NOOB
/// transcript once its PairingInfo is available and validated.
#[derive(Debug, Clone)]
pub struct PeerIdentity {
    pub info: PairingInfo,
    pub cert_der: Vec<u8>,
}

/// The content of a captured identity: its PairingInfo and certificate DER.
pub open spec fn identity_view(p: PeerIdentity) -> (InfoView, Seq<u8>) {
    (info_view(p.info), p.cert_der@)
}

/// The content of an optional captured identity.
pub open spec fn opt_identity(p: Option<PeerIdentity>) -> Option<(InfoView, Seq<u8>)> {
    match p {
        Some(i) => Some(identity_view(i)),
        None => None,
    }
}

/// The content of an optional borrowed identity.
pub open spec fn opt_identity_ref(p: Option<&PeerIdentity>) -> Option<(InfoView, Seq<u8>)> {
    match p {
        Some(i) => Some(identity_view(*i)),
        None => None,
    }
}

/// One step of a drive.
#[derive(Debug)]
pub struct Step {
    /// Bytes to send to the other side, if any.
    pub send: Option<Vec<u8>>,
    /// The exchange reached a terminal state.
    pub done: bool,
    /// Terminal state was success (Registered).
    pub success: bool,
    /// The failure was an EAP-NOOB NoobId / MAC mismatch, i.e. a wrong PIN
    /// (error code 2003 / 4001), as distinct from a protocol error.
    pub auth_failed: bool,
    /// EAP-NOOB error code when this is a protocol failure.
    pub error_code: Option<i64>,
    /// Human-readable error, when `done && !success`.
    pub error: Option<String>,
}

/// `s` is the step made of the outcome `o`.
pub open spec fn step_of(s: Step, o: Outcome) -> bool {
    &&& obytes(s.send) == obytes(o.send)
    &&& s.done == o.done
    &&& s.success == o.success
    &&& s.auth_failed == (o.error_code is Some && (o.error_code.unwrap() == error_code::UNRECOGNIZED_OOB_MSG_ID
        || o.error_code.unwrap() == error_code::HMAC_VERIFICATION_FAILED))
    &&& s.error_code == o.error_code
    &&& otext(s.error) == otext(o.error)
}

impl Default for Step {
    fn default() -> (s: Self)
        ensures
            s.send is None && !s.done && !s.success && !s.auth_failed && s.error_code is None && s.error is None,
    {
        Step { send: None, done: false, success: false, auth_failed: false, error_code: None, error: None }
    }
}

impl Step {
    /// The step made of an outcome, classifying wrong-PIN error codes.
    pub fn from_outcome(o: Outcome) -> (s: Step)
        ensures
            step_of(s, o),
    {
        let auth_failed = match o.error_code {
            Some(c) => is_wrong_pin_code(c),
            None => false,
        };
        Step {
            send: o.send,
            done: o.done,
            success: o.success,
            auth_failed,
            error_code: o.error_code,
            error: o.error,
        }
    }
}

/// Why a session step failed.
#[derive(Debug, Clone)]
pub enum SessionError {
    /// The EAP-NOOB exchange failed with this error.
    Eap(String),
    /// The inviter's ServerInfo is empty.
    NoServerInfo,
    /// The joiner's PeerInfo is empty.
    NoPeerInfo,
    /// The other side's PairingInfo was rejected.
    Info(InfoError),
    /// The out-of-band Noob was refused.
    Oob(OobError),
}

/// The description of a session failure.
pub open spec fn session_error_text(e: SessionError) -> Seq<char> {
    match e {
        SessionError::Eap(m) => "eap-noob: "@ + m@,
        SessionError::NoServerInfo => "inviter sent no ServerInfo"@,
        SessionError::NoPeerInfo => "joiner sent no PeerInfo"@,
        SessionError::Info(i) => info_error_text(i),
        SessionError::Oob(o) => oob_error_text(o),
    }
}

impl SessionError {
    /// A human-readable description.
    pub fn message(&self) -> (r: String)
        ensures
            r@ == session_error_text(*self),
    {
        match self {
            SessionError::Eap(e) => {
                let mut m = String::from_str("eap-noob: ");
                push_str(&mut m, e.as_str());
                proof {
                    reveal_strlit("eap-noob: ");
                }
                m
            },
            SessionError::NoServerInfo => String::from_str("inviter sent no ServerInfo"),
            SessionError::NoPeerInfo => String::from_str("joiner sent no PeerInfo"),
            SessionError::Info(e) => e.message(),
            SessionError::Oob(e) => e.message(),
        }
    }
}

/// The identity captured from a verbatim PairingInfo text once the machine
/// reaches the state where it is authenticated: `Ok(None)` when no capture is
/// due, the identity, or the reason it is refused (`missing` for empty text).
pub open spec fn capture(
    due: bool,
    raw: Seq<char>,
    missing: SessionError,
) -> Result<Option<(InfoView, Seq<u8>)>, SessionError> {
    if !due {
        Ok(None)
    } else if raw.len() == 0 {
        Err(missing)
    } else {
        match spec_parse_pairing_info(encode_utf8(raw)) {
            Ok(p) => Ok(Some(p)),
            Err(e) => Err(SessionError::Info(e)),
        }
    }
}

/// The same error, compared by content.
pub open spec fn same_error(a: SessionError, b: SessionError) -> bool {
    match (a, b) {
        (SessionError::Eap(x), SessionError::Eap(y)) => x@ == y@,
        (SessionError::Info(x), SessionError::Info(y)) => x == y,
        (SessionError::Oob(x), SessionError::Oob(y)) => x == y,
        (SessionError::NoServerInfo, SessionError::NoServerInfo) => true,
        (SessionError::NoPeerInfo, SessionError::NoPeerInfo) => true,
        _ => false,
    }
}

/// The bytes an outcome sends, empty when it sends nothing.
pub open spec fn send_or_empty(o: Outcome) -> Seq<u8> {
    match o.send {
        Some(v) => v@,
        None => seq![],
    }
}

fn capture_identity(raw: &str, missing: SessionError) -> (r: Result<PeerIdentity, SessionError>)
    ensures
        match capture(true, raw@, missing) {
            Ok(Some(p)) => r is Ok && identity_view(r->Ok_0) == p,
            Err(e) => r is Err && same_error(r->Err_0, e),
            Ok(None) => false,
        },
        raw@.len() > 0 ==> info_read(encode_utf8(raw@)),
{
    if raw.unicode_len() == 0 {
        return Err(missing);
    }
    match parse_pairing_info(raw.as_bytes()) {
        Ok((info, cert_der)) => Ok(PeerIdentity { info, cert_der }),
        Err(e) => Err(SessionError::Info(e)),
    }
}

/// A joiner session as created for the PairingInfo `info`: a new peer
/// (version 1, cryptosuites 1 and 2, preferring server-to-peer OOB) carrying
/// `info` as PeerInfo, with no inviter captured yet.
pub open spec fn fresh_joiner(s: JoinerSession, info: InfoView) -> bool {
    &&& s.inv()
    &&& s.inviter_view() is None
    &&& s.peer().st() == State::Unregistered
    &&& s.peer().spec_peer_info() == info_json(info)
    &&& s.peer().spec_versions() == seq![1i64]
    &&& s.peer().spec_suites() == seq![1i64, 2i64]
    &&& s.peer().spec_prefer_dir() == 2
    &&& s.peer().spec_assoc() is None
    &&& s.peer().spec_csp() == 0 && s.peer().spec_dirp() == 0
    &&& s.peer().method().keypair is None && s.peer().method().keym is None && s.peer().method().suite is None
    &&& s.peer().method().nai@ == crate::pairing::machine::default_nai()
    &&& s.peer().method().peer_id@.len() == 0 && s.peer().method().noob@.len() == 0
}

/// An inviter session as created for the PairingInfo `info`: a new server
/// (version 1, cryptosuites 2 and 1, server-to-peer OOB only) carrying `info`
/// as ServerInfo, with no joiner captured yet.
pub open spec fn fresh_inviter(s: InviterSession, info: InfoView) -> bool {
    &&& s.inv()
    &&& s.joiner_view() is None
    &&& s.server().st() == State::Unregistered
    &&& s.server().spec_server_info() == info_json(info)
    &&& s.server().spec_dirs() == 2
    &&& s.server().spec_versions() == seq![1i64]
    &&& s.server().spec_suites() == seq![2i64, 1i64]
    &&& s.server().spec_assoc() is None
    &&& s.server().spec_peer_state() == 0 && s.server().spec_csp() == 0 && s.server().spec_dirp() == 0
    &&& s.server().method().keypair is None && s.server().method().keym is None && s.server().method().suite is None
    &&& s.server().method().peer_id@.len() == 0 && s.server().method().nai@.len() == 0
    &&& s.server().method().noob@.len() == 0
}

// --- joiner (Peer) -------------------------------------------------------------------

/// The joiner side of a pairing: an EAP-NOOB Peer plus the inviter identity it
/// authenticates. Created on the first Initial-Exchange message; kept alive
/// across the human PIN step and the joiner-driven Completion Exchange.
pub struct JoinerSession {
    peer: Peer,
    inviter: Option<PeerIdentity>,
}

impl JoinerSession {
    /// The EAP-NOOB peer.
    pub closed spec fn peer(&self) -> Peer {
        self.peer
    }

    /// The captured inviter identity.
    pub closed spec fn inviter_view(&self) -> Option<(InfoView, Seq<u8>)> {
        opt_identity(self.inviter)
    }

    /// The session's invariant: that of its peer.
    pub closed spec fn inv(&self) -> bool {
        self.peer.inv()
    }

    /// A joiner carrying `peer_info` (this node's PairingInfo) as PeerInfo.
    pub fn new(peer_info: &PairingInfo) -> (s: JoinerSession)
        ensures
            fresh_joiner(s, info_view(*peer_info)),
    {
        JoinerSession { peer: Peer::new().with_peer_info(peer_info.to_json()), inviter: None }
    }

    /// The peer's association state.
    pub fn state(&self) -> (r: State)
        ensures
            r == self.peer().st(),
    {
        self.peer.state()
    }

    /// The authenticated inviter identity, once the Initial Exchange reached
    /// Waiting.
    pub fn inviter(&self) -> (r: Option<&PeerIdentity>)
        ensures
            opt_identity_ref(r) == self.inviter_view(),
    {
        self.inviter.as_ref()
    }

    /// The inviter's reachable `host:port` for the Completion Exchange.
    pub fn inviter_addr(&self) -> (r: Option<&str>)
        ensures
            match r {
                Some(a) => self.inviter_view() is Some && a@ == self.inviter_view().unwrap().0.addr,
                None => self.inviter_view() is None,
            },
    {
        match &self.inviter {
            Some(i) => Some(i.info.addr.as_str()),
            None => None,
        }
    }

    /// Whether [`JoinerSession::on_initial`] / [`JoinerSession::on_completion`]
    /// can process `blob` without the peer aborting.
    pub fn can_receive(&self, blob: &[u8]) -> (r: bool)
        ensures
            r == peer_accepts(self.peer(), blob@),
    {
        self.peer.can_receive(blob)
    }

    /// Process one Initial-Exchange message from the inviter and return the
    /// reply bytes. When the peer reaches Waiting the inviter's PairingInfo is
    /// parsed, validated and captured.
    pub fn on_initial(&mut self, blob: &[u8]) -> (r: Result<Vec<u8>, SessionError>)
        requires
            old(self).inv(),
            peer_accepts(old(self).peer(), blob@),
        ensures
            final(self).inv(),
            reads_back(blob@),
            exists|o: Outcome| {
                &&& peer_step(old(self).peer(), blob@, final(self).peer(), o)
                &&& #[trigger] joiner_initial(old(self).inviter_view(), final(self).peer(), o, final(self).inviter_view(), r)
            },
    {
        let ghost old_inv = opt_identity(self.inviter);
        let out = self.peer.receive(blob);
        if let Some(e) = &out.error {
            let mut m = String::new();
            push_str(&mut m, e.as_str());
            let r = Err(SessionError::Eap(m));
            proof {
                assert(peer_step(old(self).peer(), blob@, self.peer(), out));
                assert(joiner_initial(old(self).inviter_view(), self.peer(), out, self.inviter_view(), r));
            }
            return r;
        }
        if self.peer.state() == State::Waiting && self.inviter.is_none() {
            match capture_identity(self.peer.server_info(), SessionError::NoServerInfo) {
                Ok(id) => {
                    self.inviter = Some(id);
                },
                Err(e) => {
                    let r = Err(e);
                    proof {
                        assert(peer_step(old(self).peer(), blob@, self.peer(), out));
                assert(joiner_initial(old(self).inviter_view(), self.peer(), out, self.inviter_view(), r));
                    }
                    return r;
                },
            }
        }
        let ghost go = out;
        let send = match out.send {
            Some(v) => v,
            None => Vec::new(),
        };
        let r = Ok(send);
        proof {
            assert(peer_step(old(self).peer(), blob@, self.peer(), go));
            assert(joiner_initial(old(self).inviter_view(), self.peer(), go, self.inviter_view(), r));
        }
        r
    }

    /// Feed the human PIN, deriving the out-of-band Noob (server-to-peer).
    /// Requires the peer to be at Waiting.
    pub fn feed_pin(&mut self, pin: &str) -> (r: Result<(), OobError>)
        requires
            old(self).inv(),
        ensures
            final(self).inv(),
            final(self).inviter_view() == old(self).inviter_view(),
            r == oob_check(old(self).peer().st(), old(self).peer().spec_dirp(), 16),
            r is Ok ==> noob_set(old(self).peer().method(), final(self).peer().method(), spec_noob_from_pin(pin@))
                && final(self).peer().st() == State::OobReceived,
            r is Err ==> *final(self) == *old(self),
            peer_config_same(old(self).peer(), final(self).peer()),
    {
        let noob = noob_from_pin(pin);
        self.peer.oob_input_noob(&noob)
    }

    /// Process one Completion-Exchange response from the inviter.
    pub fn on_completion(&mut self, resp: &[u8]) -> (s: Step)
        requires
            old(self).inv(),
            peer_accepts(old(self).peer(), resp@),
        ensures
            final(self).inv(),
            final(self).inviter_view() == old(self).inviter_view(),
            reads_back(resp@),
            exists|o: Outcome| peer_step(old(self).peer(), resp@, final(self).peer(), o) && #[trigger] step_of(s, o),
    {
        let o = self.peer.receive(resp);
        Step::from_outcome(o)
    }

    /// The completed association (Registered), for pinning.
    pub fn association(&self) -> (r: Option<&Association>)
        ensures
            match r {
                Some(a) => self.peer().spec_assoc() == Some(*a),
                None => self.peer().spec_assoc() is None,
            },
    {
        self.peer.association()
    }
}

/// The joiner's Initial-Exchange result for outcome `o`: an EAP-NOOB error is
/// reported; otherwise, on first reaching Waiting, the inviter's ServerInfo is
/// captured (or the reason it is refused is reported); otherwise the reply
/// bytes are returned.
pub open spec fn joiner_initial(
    old_inviter: Option<(InfoView, Seq<u8>)>,
    new_peer: Peer,
    o: Outcome,
    new_inviter: Option<(InfoView, Seq<u8>)>,
    r: Result<Vec<u8>, SessionError>,
) -> bool {
    &&& (o.error is None && new_peer.st() == State::Waiting && old_inviter is None
        && new_peer.method().inp.server_info@.len() > 0) ==> info_read(encode_utf8(new_peer.method().inp.server_info@))
    &&& match o.error {
        Some(e) => r is Err && same_error(r->Err_0, SessionError::Eap(e)) && new_inviter == old_inviter,
        None => match capture(
            new_peer.st() == State::Waiting && old_inviter is None,
            new_peer.method().inp.server_info@,
            SessionError::NoServerInfo,
        ) {
            Err(e) => r is Err && same_error(r->Err_0, e) && new_inviter == old_inviter,
            Ok(Some(p)) => r is Ok && r->Ok_0@ == send_or_empty(o) && new_inviter == Some(p),
            Ok(None) => r is Ok && r->Ok_0@ == send_or_empty(o) && new_inviter == old_inviter,
        },
    }
}

// --- inviter (Server) -----------------------------------------------------------------

/// The inviter side of a pairing: an EAP-NOOB Server plus the joiner identity
/// it authenticates. Drives the Initial Exchange, mints a PIN, and serves the
/// joiner-driven Completion Exchange.
pub struct InviterSession {
    server: Server,
    joiner: Option<PeerIdentity>,
}

/// The inviter's Completion result for outcome `o`: on first reaching
/// Registered the joiner's PeerInfo is captured (or the reason it is refused is
/// reported); otherwise the step is returned.
pub open spec fn inviter_completion(
    old_joiner: Option<(InfoView, Seq<u8>)>,
    new_server: Server,
    o: Outcome,
    new_joiner: Option<(InfoView, Seq<u8>)>,
    r: Result<Step, SessionError>,
) -> bool {
    &&& (new_server.st() == State::Registered && old_joiner is None && new_server.method().inp.peer_info@.len() > 0)
        ==> info_read(encode_utf8(new_server.method().inp.peer_info@))
    &&& match capture(
        new_server.st() == State::Registered && old_joiner is None,
        new_server.method().inp.peer_info@,
        SessionError::NoPeerInfo,
    ) {
        Err(e) => r is Err && same_error(r->Err_0, e) && new_joiner == old_joiner,
        Ok(Some(p)) => r is Ok && step_of(r->Ok_0, o) && new_joiner == Some(p),
        Ok(None) => r is Ok && step_of(r->Ok_0, o) && new_joiner == old_joiner,
    }
}

impl InviterSession {
    /// The EAP-NOOB server.
    pub closed spec fn server(&self) -> Server {
        self.server
    }

    /// The captured joiner identity.
    pub closed spec fn joiner_view(&self) -> Option<(InfoView, Seq<u8>)> {
        opt_identity(self.joiner)
    }

    /// The session's invariant: that of its server.
    pub closed spec fn inv(&self) -> bool {
        self.server.inv()
    }

    /// An inviter carrying `server_info` (this node's PairingInfo) as
    /// ServerInfo, offering server-to-peer OOB.
    pub fn new(server_info: &PairingInfo) -> (s: InviterSession)
        ensures
            fresh_inviter(s, info_view(*server_info)),
    {
        InviterSession { server: Server::new().with_server_info(server_info.to_json()), joiner: None }
    }

    /// The server's association state.
    pub fn state(&self) -> (r: State)
        ensures
            r == self.server().st(),
    {
        self.server.state()
    }

    /// The authenticated joiner identity, once Registered.
    pub fn joiner(&self) -> (r: Option<&PeerIdentity>)
        ensures
            opt_identity_ref(r) == self.joiner_view(),
    {
        self.joiner.as_ref()
    }

    /// Begin an EAP conversation: the Type 1 Discovery request. Starts both
    /// the Initial and (again) the Completion Exchange.
    pub fn start(&mut self) -> (out: Vec<u8>)
        ensures
            out@ == crate::pairing::eap_wire::wire_bytes(crate::pairing::machine::discovery_request()),
            *final(self) == *old(self),
    {
        self.server.start()
    }

    /// Whether [`InviterSession::on_initial`] / [`InviterSession::on_completion`]
    /// can process `blob` without the server aborting.
    pub fn can_receive(&self, blob: &[u8]) -> (r: bool)
        ensures
            r == server_accepts(self.server(), blob@),
    {
        self.server.can_receive(blob)
    }

    /// Process one Initial-Exchange response from the joiner.
    pub fn on_initial(&mut self, resp: &[u8]) -> (s: Step)
        requires
            old(self).inv(),
            server_accepts(old(self).server(), resp@),
        ensures
            final(self).inv(),
            final(self).joiner_view() == old(self).joiner_view(),
            reads_back(resp@),
            exists|o: Outcome| server_step(old(self).server(), resp@, final(self).server(), o) && #[trigger] step_of(s, o),
    {
        Step::from_outcome(self.server.receive(resp))
    }

    /// Mint the out-of-band Noob from the displayed PIN (server-to-peer).
    /// Requires the server to be at Waiting.
    pub fn set_pin(&mut self, pin: &str) -> (r: Result<(), OobError>)
        requires
            old(self).inv(),
        ensures
            final(self).inv(),
            final(self).joiner_view() == old(self).joiner_view(),
            r == oob_check(old(self).server().st(), old(self).server().spec_dirp(), 16),
            r is Ok ==> noob_set(old(self).server().method(), final(self).server().method(), spec_noob_from_pin(pin@)),
            r is Err ==> *final(self) == *old(self),
            final(self).server().st() == old(self).server().st(),
            server_config_same(old(self).server(), final(self).server()),
    {
        let noob = noob_from_pin(pin);
        self.server.oob_output_with(&noob)
    }

    /// Process one Completion-Exchange message from the joiner. When the server
    /// reaches Registered the joiner's PairingInfo is captured for pinning.
    pub fn on_completion(&mut self, blob: &[u8]) -> (r: Result<Step, SessionError>)
        requires
            old(self).inv(),
            server_accepts(old(self).server(), blob@),
        ensures
            final(self).inv(),
            reads_back(blob@),
            exists|o: Outcome| {
                &&& server_step(old(self).server(), blob@, final(self).server(), o)
                &&& #[trigger] inviter_completion(old(self).joiner_view(), final(self).server(), o, final(self).joiner_view(), r)
            },
    {
        let ghost old_j = opt_identity(self.joiner);
        let o = self.server.receive(blob);
        let ghost go = o;
        let step = Step::from_outcome(o);
        if self.server.state() == State::Registered && self.joiner.is_none() {
            match capture_identity(self.server.peer_info(), SessionError::NoPeerInfo) {
                Ok(id) => {
                    self.joiner = Some(id);
                },
                Err(e) => {
                    let r = Err(e);
                    proof {
                        assert(server_step(old(self).server(), blob@, self.server(), go));
                        assert(inviter_completion(old(self).joiner_view(), self.server(), go, self.joiner_view(), r));
                    }
                    return r;
                },
            }
        }
        let r = Ok(step);
        proof {
            assert(server_step(old(self).server(), blob@, self.server(), go));
                        assert(inviter_completion(old(self).joiner_view(), self.server(), go, self.joiner_view(), r));
        }
        r
    }

    /// The completed association (Registered), for pinning.
    pub fn association(&self) -> (r: Option<&Association>)
        ensures
            match r {
                Some(a) => self.server().spec_assoc() == Some(*a),
                None => self.server().spec_assoc() is None,
            },
    {
        self.server.association()
    }
}

} // verus!
