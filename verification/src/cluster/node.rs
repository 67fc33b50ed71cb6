//! [`PairingNode`]: the stateful endpoint that joins and grows clusters over
//! the plain-HTTP `/v1/cluster/pairing` channel.
//!
//! It plays both EAP-NOOB roles: as **joiner** it answers inbound Initial
//! Exchanges ([`PairingNode::handle_request`]) and, once the user supplies the
//! PIN, drives the Completion Exchange to the inviter
//! ([`PairingNode::begin_completion`], [`PairingNode::completion_step`]); as
//! **inviter** it drives an Initial Exchange to a joiner
//! ([`PairingNode::begin_invite`], [`InviteDrive::on_response`],
//! [`PairingNode::finish_invite`]), mints a PIN, and serves the joiner-driven
//! Completion. The node makes decisions only: the caller performs the HTTP
//! exchanges, hands each response back, and pins the [`Paired`] peers it is
//! given with its [`TrustSink`].

use vstd::prelude::*;
use crate::cluster::info::{info_view, InfoView, PairingInfo, PAIRING_INFO_VERSION};
use crate::cluster::phase;
use crate::cluster::reason;
use crate::cluster::session::{fresh_inviter, fresh_joiner, inviter_completion, joiner_initial, session_error_text, step_of, InviterSession, JoinerSession, SessionError, Step};
use crate::cluster::wire::{blob_of, env_view, EnvelopeView, PairingEnvelope, DEFAULT_PAIRING_PORT};
use crate::codec::{b64std, json_members, parse_json_members};
use crate::keyed::Keyed;
use crate::pairing::eap_wire::{int_member, parsed, reads_back, wire_bytes, wire_view, Wire};
use crate::pairing::machine::{discovery_request, oob_check, OobError, obytes, otext, peer_accepts, peer_step, server_accepts, server_step, Association, Outcome, State};
use crate::text::{nat_str, push_char, push_str, str_eq, u64_to_string};
use crate::trust::identity::{fingerprint_text, Identity};
use rand::Rng;

verus! {

// --- profile -----------------------------------------------------------------------

/// This node's identity and cluster context, from which a [`PairingInfo`] is
/// built for each exchange.
#[derive(Debug, Clone)]
pub struct NodeProfile {
    pub identity: Identity,
    pub name: String,
    pub cluster_id: String,
    pub cluster_friendly_name: String,
    pub admission_epoch: u64,
    /// Reachable `host:port` this node serves the pairing channel on.
    pub advertised_addr: String,
}

/// This node's profile for pairing: admitted at epoch 1, serving the pairing
/// channel on `advertised_addr` (`host:port`).
pub fn node_profile(
    identity: Identity,
    name: String,
    advertised_addr: String,
    cluster_id: String,
    cluster_friendly_name: String,
) -> (p: NodeProfile)
    ensures
        p == (NodeProfile { identity, name, cluster_id, cluster_friendly_name, admission_epoch: 1, advertised_addr }),
{
    NodeProfile { identity, name, cluster_id, cluster_friendly_name, admission_epoch: 1, advertised_addr }
}

/// The text of an optional string slice.
pub open spec fn opt_str(a: Option<&str>) -> Option<Seq<char>> {
    match a {
        Some(s) => Some(s@),
        None => None,
    }
}

/// The PairingInfo of a profile: current schema version, the identity's UUID,
/// fingerprint and certificate, admission epoch at least 1, and `addr` (or
/// the advertised address when none is given).
pub open spec fn profile_info(p: NodeProfile, addr: Option<Seq<char>>) -> InfoView {
    InfoView {
        v: PAIRING_INFO_VERSION,
        node_uuid: p.identity.node_uuid@,
        node_id: fingerprint_text(p.identity.cert_der@),
        name: p.name@,
        cluster_id: p.cluster_id@,
        admission_epoch: if p.admission_epoch >= 1 { p.admission_epoch } else { 1 },
        cluster_friendly_name: p.cluster_friendly_name@,
        addr: match addr {
            Some(a) => a,
            None => p.advertised_addr@,
        },
        cert: p.identity.cert_pem@,
    }
}

fn copy_str(s: &str) -> (r: String)
    ensures
        r@ == s@,
{
    let mut r = String::new();
    push_str(&mut r, s);
    r
}

impl NodeProfile {
    /// This node's PairingInfo; `addr` overrides the advertised address when
    /// the reachable address is known only per exchange.
    pub fn pairing_info(&self, addr: Option<&str>) -> (r: PairingInfo)
        ensures
            info_view(r) == profile_info(*self, opt_str(addr)),
    {
        let a = match addr {
            Some(a) => copy_str(a),
            None => copy_str(self.advertised_addr.as_str()),
        };
        PairingInfo {
            v: PAIRING_INFO_VERSION,
            node_uuid: copy_str(self.identity.node_uuid.as_str()),
            node_id: self.identity.fingerprint(),
            name: copy_str(self.name.as_str()),
            cluster_id: copy_str(self.cluster_id.as_str()),
            admission_epoch: if self.admission_epoch >= 1 { self.admission_epoch } else { 1 },
            cluster_friendly_name: copy_str(self.cluster_friendly_name.as_str()),
            addr: a,
            cert: copy_str(self.identity.cert_pem.as_str()),
        }
    }
}

/// The default `host:port` for a bare invite host.
pub open spec fn spec_default_pairing_addr(host: Seq<char>) -> Seq<char> {
    host + seq![':'] + nat_str(DEFAULT_PAIRING_PORT as nat)
}

/// The default `host:port` for a bare invite host (port 14321).
pub fn default_pairing_addr(host: &str) -> (r: String)
    ensures
        r@ == spec_default_pairing_addr(host@),
{
    let mut r = copy_str(host);
    push_char(&mut r, ':');
    let p = u64_to_string(DEFAULT_PAIRING_PORT as u64);
    push_str(&mut r, p.as_str());
    r
}

// --- results ---------------------------------------------------------------------------

/// A successfully completed pairing: the peer's authenticated identity,
/// certificate, and the derived association key `Kz`.
#[derive(Debug, Clone)]
pub struct Paired {
    pub peer: PairingInfo,
    pub peer_cert_der: Vec<u8>,
    pub kz: [u8; 32],
    pub cryptosuitep: u8,
}

/// The content of a pairing result: the peer's PairingInfo and certificate,
/// and the association key and cryptosuite.
pub open spec fn paired_view(p: Paired) -> (InfoView, Seq<u8>, Seq<u8>, u8) {
    (info_view(p.peer), p.peer_cert_der@, p.kz@, p.cryptosuitep)
}

/// The pairing result made of a captured identity and an association.
pub open spec fn paired_of(id: (InfoView, Seq<u8>), a: Association) -> (InfoView, Seq<u8>, Seq<u8>, u8) {
    (id.0, id.1, a.kz@, a.cryptosuitep)
}

/// How paired peers are pinned, and whether new joins are accepted.
pub trait TrustSink {
    /// Pin a peer's certificate, identity and association key after a
    /// successful pairing.
    fn pin_peer(&self, paired: &Paired);

    /// Whether this node is already a cluster member (a joiner refuses a new
    /// pairing while clustered). Unless an implementation says otherwise, a
    /// node is not clustered.
    fn is_clustered(&self) -> (r: bool)
        default_ensures
            r == false,
    {
        false
    }
}

/// A pending inbound invite awaiting the local user's PIN (joiner side).
#[derive(Debug, Clone)]
pub struct PendingInvite {
    pub invite_id: String,
    pub from_node_uuid: String,
    pub from_name: String,
    pub cluster_id: String,
    pub cluster_friendly_name: String,
    pub inviter_addr: String,
}

/// The content of a pending invite.
pub open spec fn pending_view(p: PendingInvite) -> (Seq<char>, Seq<char>, Seq<char>, Seq<char>, Seq<char>, Seq<char>) {
    (p.invite_id@, p.from_node_uuid@, p.from_name@, p.cluster_id@, p.cluster_friendly_name@, p.inviter_addr@)
}

/// The pending invite for `id` from the inviter whose PairingInfo is `info`.
pub open spec fn pending_from(id: Seq<char>, info: InfoView) -> (Seq<char>, Seq<char>, Seq<char>, Seq<char>, Seq<char>, Seq<char>) {
    (id, info.node_uuid, info.name, info.cluster_id, info.cluster_friendly_name, info.addr)
}

/// HTTP-agnostic result of handling one pairing request.
#[derive(Debug)]
pub struct Reply {
    pub status: u16,
    pub envelope: PairingEnvelope,
}

/// `r` has this status and envelope.
pub open spec fn reply_is(r: Reply, status: u16, e: EnvelopeView) -> bool {
    r.status == status && env_view(r.envelope) == e
}

/// The content of a signal envelope.
pub open spec fn signal_view(id: Seq<char>, phase: Seq<char>, reason: Seq<char>) -> EnvelopeView {
    EnvelopeView { invite_id: id, phase, msg: seq![], rejected: false, reason }
}

/// The content of an envelope carrying `blob`.
pub open spec fn msg_view(id: Seq<char>, phase: Seq<char>, blob: Seq<u8>) -> EnvelopeView {
    EnvelopeView { invite_id: id, phase, msg: b64std(blob), rejected: false, reason: seq![] }
}

/// The content of the empty envelope.
pub open spec fn empty_view() -> EnvelopeView {
    EnvelopeView { invite_id: seq![], phase: seq![], msg: seq![], rejected: false, reason: seq![] }
}

impl Reply {
    /// A `200` reply.
    pub fn ok(envelope: PairingEnvelope) -> (r: Reply)
        ensures
            r.status == 200 && r.envelope == envelope,
    {
        Reply { status: 200, envelope }
    }

    /// A `409` reply.
    pub fn conflict(envelope: PairingEnvelope) -> (r: Reply)
        ensures
            r.status == 409 && r.envelope == envelope,
    {
        Reply { status: 409, envelope }
    }
}

// --- helpers ---------------------------------------------------------------------------

/// The `Type` member of an EAP-NOOB blob, if it is a JSON object with an
/// integer `Type` given once.
pub open spec fn spec_first_type(blob: Seq<u8>) -> Option<i64> {
    match json_members(blob) {
        None => None,
        Some(ms) => if crate::json_keys::field_repeated(blob, seq!["Type"@]) {
            None
        } else {
            int_member(ms, "Type"@)
        },
    }
}

/// The first `Type` field of an EAP-NOOB blob, if any.
pub fn first_type(blob: &[u8]) -> (r: Option<i64>)
    ensures
        r == spec_first_type(blob@),
{
    proof {
        reveal_strlit("null");
    }
    let ms = match parse_json_members(blob) {
        Some(ms) => ms,
        None => return None,
    };
    let keys: Vec<&str> = vec!["Type"];
    proof {
        assert(crate::json_keys::strs_view(keys@) =~= seq!["Type"@]);
    }
    if crate::json_keys::repeated_field(blob, &keys) {
        return None;
    }
    match crate::codec::find_member(&ms, "Type") {
        None => None,
        Some(t) => if str_eq(t.as_str(), "null") {
            None
        } else {
            crate::codec::parse_json_i64(t.as_str())
        },
    }
}

/// A Discovery (`Type` 1) message never makes a peer abort.
proof fn lemma_discovery_accepted(s: JoinerSession, blob: Seq<u8>)
    requires
        spec_first_type(blob) == Some(1i64),
    ensures
        peer_accepts(s.peer(), blob),
{
    assert forall|w: Wire| parsed(blob, w) implies !crate::pairing::machine::peer_would_abort(s.peer(), wire_view(w)) by {
        assert(wire_view(w).type_ == Some(1i64));
    }
}

/// `rand::thread_rng().gen_range(0..bound)`: a uniformly random integer below
/// `bound`. The range must not be empty (`gen_range` panics on an empty one),
/// so `bound` is required to be positive. Only the bound is claimed.
#[verifier::external_body]
fn random_below(bound: u32) -> (r: u32)
    requires
        bound > 0,
    ensures
        r < bound,
{
    rand::thread_rng().gen_range(0..bound)
}

/// How many six-digit PINs there are.
pub const PIN_SPACE: u32 = 1_000_000;

/// The six-digit, zero-padded decimal text of `n < 1_000_000`.
pub open spec fn pin_text(n: nat) -> Seq<char> {
    seq![
        crate::text::digit_char((n / 100000) % 10),
        crate::text::digit_char((n / 10000) % 10),
        crate::text::digit_char((n / 1000) % 10),
        crate::text::digit_char((n / 100) % 10),
        crate::text::digit_char((n / 10) % 10),
        crate::text::digit_char(n % 10),
    ]
}

/// The six-digit, zero-padded text of a PIN value.
pub fn format_pin(n: u32) -> (r: String)
    requires
        n < 1_000_000,
    ensures
        r@ == pin_text(n as nat),
        crate::pairing::pin::valid_pin(r@),
{
    let mut r = String::new();
    let d0 = (n / 100000) % 10;
    let d1 = (n / 10000) % 10;
    let d2 = (n / 1000) % 10;
    let d3 = (n / 100) % 10;
    let d4 = (n / 10) % 10;
    let d5 = n % 10;
    push_char(&mut r, ((d0 as u8) + 48) as char);
    push_char(&mut r, ((d1 as u8) + 48) as char);
    push_char(&mut r, ((d2 as u8) + 48) as char);
    push_char(&mut r, ((d3 as u8) + 48) as char);
    push_char(&mut r, ((d4 as u8) + 48) as char);
    push_char(&mut r, ((d5 as u8) + 48) as char);
    proof {
        assert(r@ =~= pin_text(n as nat));
        assert forall|i: int| 0 <= i < r@.len() implies crate::pairing::pin::is_digit(#[trigger] r@[i]) by {
            assert(d0 < 10 && d1 < 10 && d2 < 10 && d3 < 10 && d4 < 10 && d5 < 10);
        }
    }
    r
}

/// A fresh random six-digit PIN.
pub fn mint_pin() -> (r: String)
    ensures
        crate::pairing::pin::valid_pin(r@),
{
    format_pin(random_below(PIN_SPACE))
}

// --- the node ----------------------------------------------------------------------

/// The stateful pairing endpoint.
pub struct PairingNode {
    profile: NodeProfile,
    joiners: Keyed<JoinerSession>,
    inviters: Keyed<InviterSession>,
    pending: Keyed<PendingInvite>,
}

/// The views of the values of a map of pending invites.
pub open spec fn pending_views(m: Map<Seq<char>, PendingInvite>) -> Map<Seq<char>, (Seq<char>, Seq<char>, Seq<char>, Seq<char>, Seq<char>, Seq<char>)> {
    m.map_values(|p: PendingInvite| pending_view(p))
}

impl PairingNode {
    /// This node's profile.
    pub closed spec fn profile(&self) -> NodeProfile {
        self.profile
    }

    /// The joiner sessions, by invite id.
    pub closed spec fn joiners(&self) -> Map<Seq<char>, JoinerSession> {
        self.joiners.view()
    }

    /// The inviter sessions awaiting the joiner-driven Completion, by invite id.
    pub closed spec fn inviters(&self) -> Map<Seq<char>, InviterSession> {
        self.inviters.view()
    }

    /// The inbound invites awaiting a PIN, by invite id.
    pub closed spec fn pending(&self) -> Map<Seq<char>, (Seq<char>, Seq<char>, Seq<char>, Seq<char>, Seq<char>, Seq<char>)> {
        pending_views(self.pending.view())
    }

    /// The node's invariant: every session satisfies its own.
    pub closed spec fn wf(&self) -> bool {
        &&& self.joiners.wf()
        &&& self.inviters.wf()
        &&& self.pending.wf()
        &&& forall|k: Seq<char>| #[trigger] self.joiners.view().dom().contains(k) ==> self.joiners.view()[k].inv()
        &&& forall|k: Seq<char>| #[trigger] self.inviters.view().dom().contains(k) ==> self.inviters.view()[k].inv()
        &&& forall|k: Seq<char>| #[trigger] self.pending.view().dom().contains(k) ==> self.pending.view()[k].invite_id@ == k
    }

    /// A node with no sessions.
    pub fn new(profile: NodeProfile) -> (n: PairingNode)
        ensures
            n.wf(),
            n.profile() == profile,
            n.joiners() == Map::<Seq<char>, JoinerSession>::empty(),
            n.inviters() == Map::<Seq<char>, InviterSession>::empty(),
            n.pending() == Map::<Seq<char>, (Seq<char>, Seq<char>, Seq<char>, Seq<char>, Seq<char>, Seq<char>)>::empty(),
    {
        let n = PairingNode { profile, joiners: Keyed::new(), inviters: Keyed::new(), pending: Keyed::new() };
        proof {
            assert(n.pending() =~= Map::<Seq<char>, (Seq<char>, Seq<char>, Seq<char>, Seq<char>, Seq<char>, Seq<char>)>::empty());
        }
        n
    }

    /// The invites awaiting a local PIN response.
    pub fn pending_invites(&self) -> (r: Vec<PendingInvite>)
        requires
            self.wf(),
        ensures
            r@.len() == self.pending().len(),
            forall|i: int| 0 <= i < r@.len() ==> #[trigger] self.pending().dom().contains(r@[i].invite_id@)
                && self.pending()[r@[i].invite_id@] == pending_view(r@[i]),
    {
        let n = self.pending.len();
        let mut out: Vec<PendingInvite> = Vec::new();
        let mut i: usize = 0;
        while i < n
            invariant
                self.pending.wf(),
                forall|k: Seq<char>| #[trigger] self.pending.view().dom().contains(k) ==> self.pending.view()[k].invite_id@ == k,
                n == self.pending.view().len(),
                i <= n,
                out@.len() == i,
                forall|j: int| 0 <= j < i ==> #[trigger] self.pending.view().dom().contains(out@[j].invite_id@)
                    && pending_view(self.pending.view()[out@[j].invite_id@]) == pending_view(out@[j]),
            decreases n - i,
        {
            let p = self.pending.value_at(i);
            let c = clone_pending(p);
            out.push(c);
            i = i + 1;
        }
        proof {
            let pm = self.pending.view();
            assert(self.pending().dom() =~= pm.dom());
            assert forall|j: int| 0 <= j < out@.len() implies #[trigger] self.pending().dom().contains(out@[j].invite_id@)
                && self.pending()[out@[j].invite_id@] == pending_view(out@[j]) by {
                let k = out@[j].invite_id@;
                assert(pm.dom().contains(k));
                assert(self.pending()[k] == pending_view(pm[k]));
            }
        }
        out
    }
}

fn clone_pending(p: &PendingInvite) -> (r: PendingInvite)
    ensures
        pending_view(r) == pending_view(*p),
{
    PendingInvite {
        invite_id: copy_str(p.invite_id.as_str()),
        from_node_uuid: copy_str(p.from_node_uuid.as_str()),
        from_name: copy_str(p.from_name.as_str()),
        cluster_id: copy_str(p.cluster_id.as_str()),
        cluster_friendly_name: copy_str(p.cluster_friendly_name.as_str()),
        inviter_addr: copy_str(p.inviter_addr.as_str()),
    }
}

// --- serving one request ------------------------------------------------------------

/// The joiner session `s0` processed the Initial-Exchange message `msg` into
/// `s1` with result `r`.
pub open spec fn joiner_ran(s0: JoinerSession, msg: Seq<u8>, s1: JoinerSession, r: Result<Vec<u8>, SessionError>) -> bool {
    &&& s1.inv()
    &&& reads_back(msg)
    &&& exists|o: Outcome| peer_step(s0.peer(), msg, s1.peer(), o) && #[trigger] joiner_initial(s0.inviter_view(), s1.peer(), o, s1.inviter_view(), r)
}

/// The inviter session `s0` processed the Completion-Exchange message `blob`
/// into `s1` with result `r`.
pub open spec fn inviter_ran(s0: InviterSession, blob: Seq<u8>, s1: InviterSession, r: Result<Step, SessionError>) -> bool {
    &&& s1.inv()
    &&& reads_back(blob)
    &&& exists|o: Outcome| server_step(s0.server(), blob, s1.server(), o) && #[trigger] inviter_completion(s0.joiner_view(), s1.server(), o, s1.joiner_view(), r)
}

/// Nothing of the node changed.
pub open spec fn unchanged(a: PairingNode, b: PairingNode) -> bool {
    a.profile() == b.profile() && a.joiners() == b.joiners() && a.inviters() == b.inviters() && a.pending() == b.pending()
}

/// The node after its joiner session for `id` became `s1` with result `r`:
/// kept (and, once Waiting with the inviter captured, listed as a pending
/// invite) on success, dropped on failure.
pub open spec fn joiner_outcome(
    old: PairingNode,
    id: Seq<char>,
    s1: JoinerSession,
    r: Result<Vec<u8>, SessionError>,
    new: PairingNode,
    reply: Reply,
) -> bool {
    &&& new.profile() == old.profile() && new.inviters() == old.inviters()
    &&& match r {
        Ok(bytes) => {
            &&& new.joiners() == old.joiners().insert(id, s1)
            &&& reply_is(reply, 200, msg_view(id, "initial"@, bytes@))
            &&& new.pending() == if s1.peer().st() == State::Waiting && s1.inviter_view() is Some {
                old.pending().insert(id, pending_from(id, s1.inviter_view().unwrap().0))
            } else {
                old.pending()
            }
        },
        Err(e) => {
            &&& new.joiners() == old.joiners().remove(id)
            &&& new.pending() == old.pending()
            &&& reply_is(reply, 400, signal_view(id, "initial"@, session_error_text(e)))
        },
    }
}

/// The joiner side of the Initial Exchange: the first message of an invite
/// must be a Discovery (`Type` 1) and is refused while the node is clustered;
/// a new joiner session carries this node's PairingInfo.
pub open spec fn node_initial(old: PairingNode, env: EnvelopeView, clustered: bool, new: PairingNode, reply: Reply) -> bool {
    let id = env.invite_id;
    let msg = blob_of(env.msg);
    if old.joiners().dom().contains(id) {
        exists|s1: JoinerSession, r: Result<Vec<u8>, SessionError>|
            joiner_ran(old.joiners()[id], msg, s1, r) && #[trigger] joiner_outcome(old, id, s1, r, new, reply)
    } else if spec_first_type(msg) != Some(1i64) {
        unchanged(old, new) && reply_is(reply, 400, signal_view(id, "initial"@, "invalid EAP-NOOB message"@))
    } else if clustered {
        unchanged(old, new) && reply_is(
            reply,
            409,
            EnvelopeView { rejected: true, reason: "already-clustered"@, ..empty_view() },
        )
    } else {
        exists|s0: JoinerSession, s1: JoinerSession, r: Result<Vec<u8>, SessionError>|
            #![trigger fresh_joiner(s0, profile_info(old.profile(), None)), joiner_outcome(old, id, s1, r, new, reply)]
            fresh_joiner(s0, profile_info(old.profile(), None)) && joiner_ran(s0, msg, s1, r) && joiner_outcome(old, id, s1, r, new, reply)
    }
}

/// The bytes a step sends, empty when it sends nothing.
pub open spec fn step_send(s: Step) -> Seq<u8> {
    match obytes(s.send) {
        Some(b) => b,
        None => seq![],
    }
}

/// The node after its inviter session for `id` became `s1` with result `r`:
/// the session is kept; a successful end with the joiner identity and
/// association available yields the pairing to pin.
pub open spec fn completion_outcome(
    old: PairingNode,
    id: Seq<char>,
    s1: InviterSession,
    r: Result<Step, SessionError>,
    new: PairingNode,
    reply: Reply,
    paired: Option<Paired>,
) -> bool {
    &&& new.profile() == old.profile() && new.joiners() == old.joiners() && new.pending() == old.pending()
    &&& new.inviters() == old.inviters().insert(id, s1)
    &&& match r {
        Ok(step) => {
            let ready = step.done && step.success && s1.joiner_view() is Some && s1.server().spec_assoc() is Some;
            &&& reply_is(reply, 200, msg_view(id, "completion"@, step_send(step)))
            &&& match paired {
                Some(p) => ready && paired_view(p) == paired_of(s1.joiner_view().unwrap(), s1.server().spec_assoc().unwrap()),
                None => !ready,
            }
        },
        Err(e) => reply_is(reply, 400, signal_view(id, "completion"@, session_error_text(e))) && paired is None,
    }
}

/// The inviter side of the joiner-driven Completion Exchange: an empty
/// message is the kickoff, answered with the server's Discovery request.
pub open spec fn node_completion(old: PairingNode, env: EnvelopeView, new: PairingNode, reply: Reply, paired: Option<Paired>) -> bool {
    let id = env.invite_id;
    let blob = blob_of(env.msg);
    if !old.inviters().dom().contains(id) {
        unchanged(old, new) && paired is None && reply_is(
            reply,
            409,
            signal_view(id, "completion"@, "unknown or expired inviteId"@),
        )
    } else if blob.len() == 0 {
        unchanged(old, new) && paired is None && reply_is(
            reply,
            200,
            msg_view(id, "completion"@, wire_bytes(discovery_request())),
        )
    } else {
        exists|s1: InviterSession, r: Result<Step, SessionError>|
            inviter_ran(old.inviters()[id], blob, s1, r) && #[trigger] completion_outcome(old, id, s1, r, new, reply, paired)
    }
}

/// A terminal signal: `cancel` drops the joiner session and pending invite,
/// `decline`, `fail` and `expired` drop the inviter session, `ack` changes
/// nothing.
pub open spec fn node_signal(old: PairingNode, env: EnvelopeView, new: PairingNode) -> bool {
    let id = env.invite_id;
    &&& new.profile() == old.profile()
    &&& if env.phase == "cancel"@ {
        new.joiners() == old.joiners().remove(id) && new.pending() == old.pending().remove(id) && new.inviters()
            == old.inviters()
    } else if env.phase == "decline"@ || env.phase == "fail"@ || env.phase == "expired"@ {
        new.inviters() == old.inviters().remove(id) && new.joiners() == old.joiners() && new.pending() == old.pending()
    } else {
        unchanged(old, new)
    }
}

/// The phases that are terminal or liveness signals.
pub open spec fn is_signal_phase(p: Seq<char>) -> bool {
    p == "cancel"@ || p == "decline"@ || p == "fail"@ || p == "expired"@ || p == "ack"@
}

/// The sessions the node would hand `env`'s message to can process it without
/// aborting.
pub open spec fn node_accepts(n: PairingNode, env: EnvelopeView) -> bool {
    let id = env.invite_id;
    let blob = blob_of(env.msg);
    &&& (env.phase == "initial"@ && n.joiners().dom().contains(id)) ==> peer_accepts(n.joiners()[id].peer(), blob)
    &&& (env.phase == "completion"@ && n.inviters().dom().contains(id) && blob.len() > 0) ==> server_accepts(
        n.inviters()[id].server(),
        blob,
    )
}

/// The node's handling of one request `env`.
pub open spec fn node_step(old: PairingNode, env: EnvelopeView, clustered: bool, new: PairingNode, reply: Reply, paired: Option<Paired>) -> bool {
    if env.invite_id.len() == 0 {
        unchanged(old, new) && paired is None && reply_is(reply, 400, signal_view(seq![], env.phase, "missing inviteId"@))
    } else if env.phase == "initial"@ {
        node_initial(old, env, clustered, new, reply) && paired is None
    } else if env.phase == "completion"@ {
        node_completion(old, env, new, reply, paired)
    } else if is_signal_phase(env.phase) {
        node_signal(old, env, new) && paired is None && reply_is(reply, 200, empty_view())
    } else {
        unchanged(old, new) && paired is None && reply_is(reply, 400, signal_view(env.invite_id, env.phase, "unknown phase"@))
    }
}

/// A clustered node refuses every new invitation: a Discovery for an invite
/// it does not know is answered 409 `already-clustered`, and nothing changes.
pub proof fn lemma_clustered_refuses_invites(
    old: PairingNode,
    env: EnvelopeView,
    new: PairingNode,
    reply: Reply,
    paired: Option<Paired>,
)
    requires
        node_step(old, env, true, new, reply, paired),
        env.invite_id.len() > 0,
        env.phase == "initial"@,
        !old.joiners().dom().contains(env.invite_id),
        spec_first_type(blob_of(env.msg)) == Some(1i64),
    ensures
        unchanged(old, new),
        paired is None,
        reply.status == 409,
        reply.envelope.rejected,
        reply.envelope.reason@ == "already-clustered"@,
{
}

/// Only the Completion Exchange pairs: a request in any other phase, or for an
/// invite the node never issued, yields no pairing to pin.
pub proof fn lemma_pairing_only_on_completion(
    old: PairingNode,
    env: EnvelopeView,
    clustered: bool,
    new: PairingNode,
    reply: Reply,
    paired: Option<Paired>,
)
    requires
        node_step(old, env, clustered, new, reply, paired),
        paired is Some,
    ensures
        env.phase == "completion"@,
        env.invite_id.len() > 0,
        old.inviters().dom().contains(env.invite_id),
        blob_of(env.msg).len() > 0,
{
}

fn clone_info(p: &PairingInfo) -> (r: PairingInfo)
    ensures
        info_view(r) == info_view(*p),
{
    PairingInfo {
        v: p.v,
        node_uuid: copy_str(p.node_uuid.as_str()),
        node_id: copy_str(p.node_id.as_str()),
        name: copy_str(p.name.as_str()),
        cluster_id: copy_str(p.cluster_id.as_str()),
        admission_epoch: p.admission_epoch,
        cluster_friendly_name: copy_str(p.cluster_friendly_name.as_str()),
        addr: copy_str(p.addr.as_str()),
        cert: copy_str(p.cert.as_str()),
    }
}

impl PairingNode {
    /// Whether the sessions that would process `env` can do so without
    /// aborting (see [`PairingNode::handle_request`]).
    pub fn can_handle(&self, env: &PairingEnvelope) -> (r: bool)
        requires
            self.wf(),
        ensures
            r == node_accepts(*self, env_view(*env)),
    {
        proof {
            reveal_strlit("initial");
            reveal_strlit("completion");
            assert(phase::INITIAL@ == "initial"@);
            assert(phase::COMPLETION@ == "completion"@);
        }
        let id = env.invite_id.as_str();
        let blob = env.blob();
        if str_eq(env.phase.as_str(), phase::INITIAL) {
            match self.joiners.get(id) {
                Some(s) => s.can_receive(blob.as_slice()),
                None => true,
            }
        } else if str_eq(env.phase.as_str(), phase::COMPLETION) && blob.len() > 0 {
            match self.inviters.get(id) {
                Some(s) => s.can_receive(blob.as_slice()),
                None => true,
            }
        } else {
            true
        }
    }

    /// Handle one decoded pairing request. `clustered` is whether this node
    /// already belongs to a cluster; a returned [`Paired`] is to be pinned.
    /// Requires that the session the message goes to can process it
    /// ([`PairingNode::can_handle`]).
    pub fn handle_request(&mut self, env: PairingEnvelope, clustered: bool) -> (r: (Reply, Option<Paired>))
        requires
            old(self).wf(),
            node_accepts(*old(self), env_view(env)),
        ensures
            final(self).wf(),
            node_step(*old(self), env_view(env), clustered, *final(self), r.0, r.1),
    {
        proof {
            reveal_strlit("initial");
            reveal_strlit("completion");
            reveal_strlit("cancel");
            reveal_strlit("decline");
            reveal_strlit("fail");
            reveal_strlit("expired");
            reveal_strlit("ack");
            reveal_strlit("missing inviteId");
            reveal_strlit("unknown phase");
            reveal_strlit("");
            assert(phase::INITIAL@ == "initial"@);
            assert(phase::COMPLETION@ == "completion"@);
            assert(phase::CANCEL@ == "cancel"@);
            assert(phase::DECLINE@ == "decline"@);
            assert(phase::FAIL@ == "fail"@);
            assert(phase::EXPIRED@ == "expired"@);
            assert(phase::ACK@ == "ack"@);
        }
        if env.invite_id.unicode_len() == 0 {
            let reply = Reply { status: 400, envelope: PairingEnvelope::signal("", env.phase.as_str(), "missing inviteId") };
            proof {
                assert(""@ =~= Seq::<char>::empty());
            }
            return (reply, None);
        }
        let ph = env.phase.as_str();
        if str_eq(ph, phase::INITIAL) {
            let reply = self.on_initial_request(&env, clustered);
            (reply, None)
        } else if str_eq(ph, phase::COMPLETION) {
            self.on_completion_request(&env)
        } else if str_eq(ph, phase::CANCEL) || str_eq(ph, phase::DECLINE) || str_eq(ph, phase::FAIL) || str_eq(
            ph,
            phase::EXPIRED,
        ) || str_eq(ph, phase::ACK) {
            self.on_signal(&env);
            let d = PairingEnvelope::default();
            proof {
                assert(d.invite_id@ =~= Seq::<char>::empty());
                assert(d.phase@ =~= Seq::<char>::empty());
                assert(d.msg@ =~= Seq::<char>::empty());
                assert(d.reason@ =~= Seq::<char>::empty());
            }
            (Reply::ok(d), None)
        } else {
            let reply = Reply {
                status: 400,
                envelope: PairingEnvelope::signal(env.invite_id.as_str(), ph, "unknown phase"),
            };
            (reply, None)
        }
    }

    fn on_initial_request(&mut self, env: &PairingEnvelope, clustered: bool) -> (reply: Reply)
        requires
            old(self).wf(),
            env_view(*env).invite_id.len() > 0,
            env_view(*env).phase == "initial"@,
            node_accepts(*old(self), env_view(*env)),
        ensures
            final(self).wf(),
            node_initial(*old(self), env_view(*env), clustered, *final(self), reply),
    {
        proof {
            reveal_strlit("initial");
            reveal_strlit("invalid EAP-NOOB message");
            reveal_strlit("already-clustered");
        }
        let ghost old_node = *self;
        let msg = env.blob();
        let id = env.invite_id.as_str();
        let ghost existed = self.joiners.view().dom().contains(id@);
        let mut session = match self.joiners.remove(id) {
            Some(s) => s,
            None => {
                let ok = match first_type(msg.as_slice()) {
                    Some(t) => t == 1,
                    None => false,
                };
                if !ok {
                    let reply = Reply {
                        status: 400,
                        envelope: PairingEnvelope::signal(id, phase::INITIAL, "invalid EAP-NOOB message"),
                    };
                    proof {
                        assert(self.joiners.view() =~= old_node.joiners.view());
                    }
                    return reply;
                }
                if clustered {
                    proof {
                        assert(self.joiners.view() =~= old_node.joiners.view());
                    }
                    return Reply::conflict(PairingEnvelope::rejected(reason::ALREADY_CLUSTERED));
                }
                let info = self.profile.pairing_info(None);
                let s = JoinerSession::new(&info);
                proof {
                    lemma_discovery_accepted(s, msg@);
                }
                s
            },
        };
        let ghost s0 = session;
        let res = session.on_initial(msg.as_slice());
        match res {
            Ok(bytes) => {
                if session.state() == State::Waiting {
                    match session.inviter() {
                        Some(inv) => {
                            let p = PendingInvite {
                                invite_id: copy_str(id),
                                from_node_uuid: copy_str(inv.info.node_uuid.as_str()),
                                from_name: copy_str(inv.info.name.as_str()),
                                cluster_id: copy_str(inv.info.cluster_id.as_str()),
                                cluster_friendly_name: copy_str(inv.info.cluster_friendly_name.as_str()),
                                inviter_addr: copy_str(inv.info.addr.as_str()),
                            };
                            let ghost pm0 = self.pending.view();
                            self.pending.insert(copy_str(id), p);
                            proof {
                                assert(pending_views(self.pending.view()) =~= pending_views(pm0).insert(id@, pending_view(p)));
                            }
                        },
                        None => {},
                    }
                }
                let reply = Reply::ok(PairingEnvelope::with_msg(id, phase::INITIAL, bytes.as_slice()));
                let ghost s1 = session;
                let ghost jm = self.joiners.view();
                self.joiners.insert(copy_str(id), session);
                proof {
                    assert(self.joiners.view() =~= old_node.joiners.view().insert(id@, s1));
                    assert(joiner_outcome(old_node, id@, s1, res, *self, reply));
                }
                reply
            },
            Err(e) => {
                let m = e.message();
                let reply = Reply { status: 400, envelope: PairingEnvelope::signal(id, phase::INITIAL, m.as_str()) };
                proof {
                    assert(self.joiners.view() =~= old_node.joiners.view().remove(id@));
                    assert(joiner_outcome(old_node, id@, session, res, *self, reply));
                }
                reply
            },
        }
    }

    fn on_completion_request(&mut self, env: &PairingEnvelope) -> (r: (Reply, Option<Paired>))
        requires
            old(self).wf(),
            env_view(*env).invite_id.len() > 0,
            env_view(*env).phase == "completion"@,
            node_accepts(*old(self), env_view(*env)),
        ensures
            final(self).wf(),
            node_completion(*old(self), env_view(*env), *final(self), r.0, r.1),
    {
        proof {
            reveal_strlit("completion");
            reveal_strlit("unknown or expired inviteId");
        }
        let ghost old_node = *self;
        let id = env.invite_id.as_str();
        let mut session = match self.inviters.remove(id) {
            Some(s) => s,
            None => {
                proof {
                    assert(self.inviters.view() =~= old_node.inviters.view());
                }
                let reply = Reply::conflict(PairingEnvelope::signal(id, phase::COMPLETION, "unknown or expired inviteId"));
                return (reply, None);
            },
        };
        let blob = env.blob();
        if blob.len() == 0 {
            let out = session.start();
            let reply = Reply::ok(PairingEnvelope::with_msg(id, phase::COMPLETION, out.as_slice()));
            self.inviters.insert(copy_str(id), session);
            proof {
                assert(self.inviters.view() =~= old_node.inviters.view());
            }
            return (reply, None);
        }
        let res = session.on_completion(blob.as_slice());
        let ghost s1 = session;
        let r = match &res {
            Ok(step) => {
                let mut paired: Option<Paired> = None;
                if step.done && step.success {
                    match (session.joiner(), session.association()) {
                        (Some(peer), Some(assoc)) => {
                            paired = Some(
                                Paired {
                                    peer: clone_info(&peer.info),
                                    peer_cert_der: vstd::slice::slice_to_vec(peer.cert_der.as_slice()),
                                    kz: assoc.kz,
                                    cryptosuitep: assoc.cryptosuitep,
                                },
                            );
                        },
                        _ => {},
                    }
                }
                let send = match &step.send {
                    Some(v) => vstd::slice::slice_to_vec(v.as_slice()),
                    None => Vec::new(),
                };
                (Reply::ok(PairingEnvelope::with_msg(id, phase::COMPLETION, send.as_slice())), paired)
            },
            Err(e) => {
                let m = e.message();
                (Reply { status: 400, envelope: PairingEnvelope::signal(id, phase::COMPLETION, m.as_str()) }, None)
            },
        };
        self.inviters.insert(copy_str(id), session);
        proof {
            assert(self.inviters.view() =~= old_node.inviters.view().insert(id@, s1));
            assert(completion_outcome(old_node, id@, s1, res, *self, r.0, r.1));
        }
        r
    }

    fn on_signal(&mut self, env: &PairingEnvelope)
        requires
            old(self).wf(),
        ensures
            final(self).wf(),
            node_signal(*old(self), env_view(*env), *final(self)),
    {
        proof {
            reveal_strlit("cancel");
            reveal_strlit("decline");
            reveal_strlit("fail");
            reveal_strlit("expired");
        }
        let ghost old_node = *self;
        let id = env.invite_id.as_str();
        let ph = env.phase.as_str();
        if str_eq(ph, phase::CANCEL) {
            let _ = self.joiners.remove(id);
            let _ = self.pending.remove(id);
            proof {
                assert(pending_views(self.pending.view()) =~= pending_views(old_node.pending.view()).remove(id@));
            }
        } else if str_eq(ph, phase::DECLINE) || str_eq(ph, phase::FAIL) || str_eq(ph, phase::EXPIRED) {
            let _ = self.inviters.remove(id);
        }
    }
}

// --- driving an invite (inviter side) ----------------------------------------------

/// An Initial Exchange this node drives to a joiner, until the server waits
/// for the out-of-band step.
pub struct InviteDrive {
    invite_id: String,
    session: InviterSession,
}

/// The description of a state, as its name.
pub open spec fn state_name(s: State) -> Seq<char> {
    match s {
        State::Unregistered => "Unregistered"@,
        State::Waiting => "Waiting"@,
        State::OobReceived => "OobReceived"@,
        State::Reconnecting => "Reconnecting"@,
        State::Registered => "Registered"@,
    }
}

fn state_name_exec(s: State) -> (r: String)
    ensures
        r@ == state_name(s),
{
    match s {
        State::Unregistered => String::from_str("Unregistered"),
        State::Waiting => String::from_str("Waiting"),
        State::OobReceived => String::from_str("OobReceived"),
        State::Reconnecting => String::from_str("Reconnecting"),
        State::Registered => String::from_str("Registered"),
    }
}

/// Why an invite could not be completed.
#[derive(Debug, Clone)]
pub enum InviteError {
    /// The joiner refused, with this reason.
    Rejected(String),
    /// The Initial Exchange failed with this error.
    Initial(String),
    /// The server had nothing to send before the exchange ended.
    Stalled,
    /// The Initial Exchange ended in this state instead of Waiting.
    NotWaiting(State),
    /// The PIN-derived Noob was refused.
    Oob(OobError),
}

/// The description of an invite failure.
pub open spec fn invite_error_text(e: InviteError) -> Seq<char> {
    match e {
        InviteError::Rejected(r) => "joiner rejected pairing: "@ + r@,
        InviteError::Initial(m) => "initial exchange failed: "@ + m@,
        InviteError::Stalled => "inviter stalled in Initial"@,
        InviteError::NotWaiting(s) => "Initial ended in state "@ + state_name(s) + ", want Waiting"@,
        InviteError::Oob(o) => crate::pairing::machine::oob_error_text(o),
    }
}

impl InviteError {
    /// A human-readable description.
    pub fn message(&self) -> (r: String)
        ensures
            r@ == invite_error_text(*self),
    {
        proof {
            reveal_strlit("joiner rejected pairing: ");
            reveal_strlit("initial exchange failed: ");
            reveal_strlit("Initial ended in state ");
            reveal_strlit(", want Waiting");
        }
        match self {
            InviteError::Rejected(r) => {
                let mut m = String::from_str("joiner rejected pairing: ");
                push_str(&mut m, r.as_str());
                m
            },
            InviteError::Initial(e) => {
                let mut m = String::from_str("initial exchange failed: ");
                push_str(&mut m, e.as_str());
                m
            },
            InviteError::Stalled => String::from_str("inviter stalled in Initial"),
            InviteError::NotWaiting(s) => {
                let mut m = String::from_str("Initial ended in state ");
                let n = state_name_exec(*s);
                push_str(&mut m, n.as_str());
                push_str(&mut m, ", want Waiting");
                m
            },
            InviteError::Oob(o) => o.message(),
        }
    }
}

/// What to do after a response of the joiner.
#[derive(Debug)]
pub enum InviteStep {
    /// Post this envelope to the joiner.
    Send(PairingEnvelope),
    /// The server waits for the out-of-band step: finish the invite.
    Ready,
    /// The invite failed.
    Failed(InviteError),
}

/// The inviter session `s0` processed the Initial-Exchange response `blob` into
/// `s1`, giving step `st`.
pub open spec fn inviter_initial_ran(s0: InviterSession, blob: Seq<u8>, s1: InviterSession, st: Step) -> bool {
    &&& s1.inv()
    &&& reads_back(blob)
    &&& s1.joiner_view() == s0.joiner_view()
    &&& exists|o: Outcome| server_step(s0.server(), blob, s1.server(), o) && #[trigger] step_of(st, o)
}

/// The action for step `st` of invite `id`: an error ends the invite, a
/// terminal step means the server waits, otherwise the next message is sent.
pub open spec fn invite_step_of(id: Seq<char>, st: Step, r: InviteStep) -> bool {
    match st.error {
        Some(e) => r matches InviteStep::Failed(InviteError::Initial(m)) && m@ == e@,
        None => if st.done {
            r is Ready
        } else {
            match st.send {
                None => r matches InviteStep::Failed(InviteError::Stalled),
                Some(m) => r matches InviteStep::Send(env) && env_view(env) == msg_view(id, "initial"@, m@),
            }
        },
    }
}

impl InviteDrive {
    /// The invite id.
    pub closed spec fn drive_id(&self) -> Seq<char> {
        self.invite_id@
    }

    /// The inviter session being driven.
    pub closed spec fn session(&self) -> InviterSession {
        self.session
    }

    /// The drive's invariant: that of its session.
    pub closed spec fn inv(&self) -> bool {
        self.session.inv()
    }

    /// The invite id.
    pub fn invite_id(&self) -> (r: &str)
        ensures
            r@ == self.drive_id(),
    {
        self.invite_id.as_str()
    }

    /// Whether [`InviteDrive::on_response`] can process `resp` without the
    /// server aborting.
    pub fn can_receive(&self, resp: &PairingEnvelope) -> (r: bool)
        ensures
            r == (resp.rejected || server_accepts(self.session().server(), blob_of(resp.msg@))),
    {
        if resp.rejected {
            return true;
        }
        let blob = resp.blob();
        self.session.can_receive(blob.as_slice())
    }

    /// Process the joiner's response to the last message sent.
    pub fn on_response(&mut self, resp: &PairingEnvelope) -> (r: InviteStep)
        requires
            old(self).inv(),
            resp.rejected || server_accepts(old(self).session().server(), blob_of(resp.msg@)),
        ensures
            final(self).inv(),
            final(self).drive_id() == old(self).drive_id(),
            if resp.rejected {
                *final(self) == *old(self) && (r matches InviteStep::Failed(InviteError::Rejected(m)) && m@ == resp.reason@)
            } else {
                exists|st: Step|
                    inviter_initial_ran(old(self).session(), blob_of(resp.msg@), final(self).session(), st)
                        && #[trigger] invite_step_of(old(self).drive_id(), st, r)
            },
    {
        if resp.rejected {
            return InviteStep::Failed(InviteError::Rejected(copy_str(resp.reason.as_str())));
        }
        let blob = resp.blob();
        let step = self.session.on_initial(blob.as_slice());
        let r = match &step.error {
            Some(e) => InviteStep::Failed(InviteError::Initial(copy_str(e.as_str()))),
            None => if step.done {
                InviteStep::Ready
            } else {
                match &step.send {
                    None => InviteStep::Failed(InviteError::Stalled),
                    Some(m) => InviteStep::Send(PairingEnvelope::with_msg(self.invite_id.as_str(), phase::INITIAL, m.as_slice())),
                }
            },
        };
        proof {
            reveal_strlit("initial");
            assert(invite_step_of(self.invite_id@, step, r));
        }
        r
    }
}

/// The inviter session `s0` with the Noob of `pin` set, as `s1`.
pub open spec fn pin_set(s0: InviterSession, pin: Seq<char>, s1: InviterSession) -> bool {
    &&& s1.inv()
    &&& s1.joiner_view() == s0.joiner_view()
    &&& crate::pairing::machine::noob_set(s0.server().method(), s1.server().method(), crate::pairing::pin::spec_noob_from_pin(pin))
    &&& s1.server().st() == s0.server().st()
    &&& crate::pairing::machine::server_config_same(s0.server(), s1.server())
}

impl PairingNode {
    /// Start an invite: a fresh invite id and an inviter session carrying this
    /// node's PairingInfo, and the Discovery request to post to the joiner.
    pub fn begin_invite(&self) -> (r: (InviteDrive, PairingEnvelope))
        ensures
            r.0.inv(),
            r.0.drive_id().len() == 36,
            fresh_inviter(r.0.session(), profile_info(self.profile(), None)),
            env_view(r.1) == msg_view(r.0.drive_id(), "initial"@, wire_bytes(discovery_request())),
    {
        let invite_id = crate::trust::identity::new_uuid_v4();
        let info = self.profile.pairing_info(None);
        let mut session = InviterSession::new(&info);
        let msg = session.start();
        proof {
            reveal_strlit("initial");
        }
        let env = PairingEnvelope::with_msg(invite_id.as_str(), phase::INITIAL, msg.as_slice());
        (InviteDrive { invite_id, session }, env)
    }

    /// Finish an invite whose server waits for the out-of-band step: mint a
    /// PIN, set the Noob it encodes, and keep the session for the
    /// joiner-driven Completion. Returns the invite id and the PIN to display.
    pub fn finish_invite(&mut self, drive: InviteDrive) -> (r: Result<(String, String), InviteError>)
        requires
            old(self).wf(),
            drive.inv(),
        ensures
            final(self).wf(),
            final(self).profile() == old(self).profile(),
            final(self).joiners() == old(self).joiners(),
            final(self).pending() == old(self).pending(),
            match r {
                Ok((id, pin)) => {
                    &&& crate::pairing::pin::valid_pin(pin@)
                    &&& id@ == drive.drive_id()
                    &&& drive.session().server().st() == State::Waiting
                    &&& exists|s1: InviterSession| pin_set(drive.session(), pin@, s1) && #[trigger] final(self).inviters() == old(self).inviters().insert(id@, s1)
                },
                Err(InviteError::NotWaiting(st)) => st == drive.session().server().st() && st != State::Waiting
                    && final(self).inviters() == old(self).inviters(),
                Err(InviteError::Oob(e)) => drive.session().server().st() == State::Waiting
                    && oob_check(State::Waiting, drive.session().server().spec_dirp(), 16) == Err::<(), OobError>(e)
                    && final(self).inviters() == old(self).inviters(),
                Err(_) => false,
            },
    {
        let InviteDrive { invite_id, mut session } = drive;
        let st = session.state();
        if st != State::Waiting {
            return Err(InviteError::NotWaiting(st));
        }
        let pin = mint_pin();
        let ghost s0 = session;
        match session.set_pin(pin.as_str()) {
            Ok(()) => {},
            Err(e) => {
                return Err(InviteError::Oob(e));
            },
        }
        let ghost s1 = session;
        let id = copy_str(invite_id.as_str());
        self.inviters.insert(invite_id, session);
        proof {
            assert(pin_set(s0, pin@, s1));
        }
        Ok((id, pin))
    }
}

// --- driving the Completion (joiner side) -------------------------------------------

/// Why the joiner could not drive the Completion Exchange.
#[derive(Debug, Clone)]
pub enum SubmitError {
    /// The PIN is not six digits.
    InvalidPin,
    /// No joiner session for the invite id.
    UnknownInvite,
    /// The inviter's address is not known.
    NoInviterAddr,
    /// The PIN-derived Noob was refused.
    Oob(OobError),
    /// The joiner had nothing to send before the exchange ended.
    Stalled,
    /// The exchange succeeded without an inviter identity.
    NoInviterIdentity,
    /// The exchange succeeded without an association.
    NoAssociation,
}

/// The description of a submission failure.
pub open spec fn submit_error_text(e: SubmitError) -> Seq<char> {
    match e {
        SubmitError::InvalidPin => "pin must be six digits"@,
        SubmitError::UnknownInvite => "unknown or evicted inviteId"@,
        SubmitError::NoInviterAddr => "inviter address unknown"@,
        SubmitError::Oob(o) => crate::pairing::machine::oob_error_text(o),
        SubmitError::Stalled => "joiner stalled in Completion"@,
        SubmitError::NoInviterIdentity => "no inviter identity captured"@,
        SubmitError::NoAssociation => "no association after success"@,
    }
}

impl SubmitError {
    /// A human-readable description.
    pub fn message(&self) -> (r: String)
        ensures
            r@ == submit_error_text(*self),
    {
        match self {
            SubmitError::InvalidPin => String::from_str("pin must be six digits"),
            SubmitError::UnknownInvite => String::from_str("unknown or evicted inviteId"),
            SubmitError::NoInviterAddr => String::from_str("inviter address unknown"),
            SubmitError::Oob(o) => o.message(),
            SubmitError::Stalled => String::from_str("joiner stalled in Completion"),
            SubmitError::NoInviterIdentity => String::from_str("no inviter identity captured"),
            SubmitError::NoAssociation => String::from_str("no association after success"),
        }
    }
}

/// The description of a failed Completion: whether it was a wrong PIN, and the
/// protocol error.
pub open spec fn completion_failure_text(auth_failed: bool, error: Seq<char>) -> Seq<char> {
    "completion failed"@ + (if auth_failed { " (incorrect pin)"@ } else { seq![] }) + ": "@ + error
}

/// What to do after a response of the inviter.
#[derive(Debug)]
pub enum CompletionAction {
    /// Post this envelope to the inviter.
    Send(PairingEnvelope),
    /// Paired: pin the peer, then post the acknowledgement.
    Paired(Paired, PairingEnvelope),
    /// The Completion failed: post the failure signal; the joiner session is
    /// gone.
    Failed { notify: PairingEnvelope, auth_failed: bool, error: String },
    /// The Completion cannot go on.
    Error(SubmitError),
}

/// The joiner session `s0` processed the Completion response `blob` into `s1`,
/// giving step `st`.
pub open spec fn joiner_completed(s0: JoinerSession, blob: Seq<u8>, s1: JoinerSession, st: Step) -> bool {
    &&& s1.inv()
    &&& reads_back(blob)
    &&& s1.inviter_view() == s0.inviter_view()
    &&& exists|o: Outcome| peer_step(s0.peer(), blob, s1.peer(), o) && #[trigger] step_of(st, o)
}

/// The node and action after the joiner session for `id` became `s1` with
/// step `st`: success pins the inviter and ends the invite, failure notifies
/// the inviter (with `incorrect-pin` for a wrong PIN) and ends it, otherwise
/// the next message is sent.
pub open spec fn completion_action(
    old: PairingNode,
    id: Seq<char>,
    s1: JoinerSession,
    st: Step,
    new: PairingNode,
    r: CompletionAction,
) -> bool {
    let kept = new.joiners() == old.joiners().insert(id, s1) && new.pending() == old.pending();
    let ended = new.joiners() == old.joiners().remove(id) && new.pending() == old.pending().remove(id);
    if st.done {
        if st.success {
            if s1.inviter_view() is None {
                kept && (r matches CompletionAction::Error(SubmitError::NoInviterIdentity))
            } else if s1.peer().spec_assoc() is None {
                kept && (r matches CompletionAction::Error(SubmitError::NoAssociation))
            } else {
                &&& ended
                &&& r matches CompletionAction::Paired(p, ack)
                &&& paired_view(p) == paired_of(s1.inviter_view().unwrap(), s1.peer().spec_assoc().unwrap())
                &&& env_view(ack) == signal_view(id, "ack"@, seq![])
            }
        } else {
            &&& ended
            &&& r matches CompletionAction::Failed { notify, auth_failed, error }
            &&& auth_failed == st.auth_failed
            &&& env_view(notify) == signal_view(id, "fail"@, if st.auth_failed { "incorrect-pin"@ } else { seq![] })
            &&& error@ == completion_failure_text(
                st.auth_failed,
                match otext(st.error) {
                    Some(e) => e,
                    None => seq![],
                },
            )
        }
    } else {
        &&& kept
        &&& match obytes(st.send) {
            None => r matches CompletionAction::Error(SubmitError::Stalled),
            Some(m) => r matches CompletionAction::Send(env) && env_view(env) == msg_view(id, "completion"@, m),
        }
    }
}

/// The joiner session `s0` with the Noob of `pin` fed, as `s1`.
pub open spec fn pin_fed(s0: JoinerSession, pin: Seq<char>, s1: JoinerSession) -> bool {
    &&& s1.inv() && s1.inviter_view() == s0.inviter_view()
    &&& crate::pairing::machine::noob_set(s0.peer().method(), s1.peer().method(), crate::pairing::pin::spec_noob_from_pin(pin))
    &&& s1.peer().st() == State::OobReceived
}

impl PairingNode {
    /// Joiner: check the PIN, feed its Noob to the joiner session for
    /// `invite_id`, and return the inviter's address and the Completion
    /// kickoff envelope to post there.
    pub fn begin_completion(&mut self, invite_id: &str, pin: &str) -> (r: Result<(String, PairingEnvelope), SubmitError>)
        requires
            old(self).wf(),
        ensures
            final(self).wf(),
            final(self).profile() == old(self).profile(),
            final(self).inviters() == old(self).inviters(),
            final(self).pending() == old(self).pending(),
            if !crate::pairing::pin::valid_pin(pin@) {
                r matches Err(SubmitError::InvalidPin) && final(self).joiners() == old(self).joiners()
            } else if !old(self).joiners().dom().contains(invite_id@) {
                r matches Err(SubmitError::UnknownInvite) && final(self).joiners() == old(self).joiners()
            } else {
                let s0 = old(self).joiners()[invite_id@];
                if s0.inviter_view() is None || s0.inviter_view().unwrap().0.addr.len() == 0 {
                    r matches Err(SubmitError::NoInviterAddr) && final(self).joiners() == old(self).joiners()
                } else {
                    match oob_check(s0.peer().st(), s0.peer().spec_dirp(), 16) {
                        Err(e) => r matches Err(SubmitError::Oob(e2)) && e2 == e && final(self).joiners() == old(self).joiners(),
                        Ok(_) => {
                            &&& r matches Ok((addr, kickoff))
                            &&& addr@ == s0.inviter_view().unwrap().0.addr
                            &&& env_view(kickoff) == signal_view(invite_id@, "completion"@, seq![])
                            &&& exists|s1: JoinerSession|
                                pin_fed(s0, pin@, s1) && #[trigger] final(self).joiners() == old(self).joiners().insert(invite_id@, s1)
                        },
                    }
                }
            },
    {
        if !crate::pairing::pin::is_valid_pin(pin) {
            return Err(SubmitError::InvalidPin);
        }
        let ghost old_node = *self;
        let mut session = match self.joiners.remove(invite_id) {
            Some(s) => s,
            None => {
                proof {
                    assert(self.joiners.view() =~= old_node.joiners.view());
                }
                return Err(SubmitError::UnknownInvite);
            },
        };
        let ghost s0 = session;
        let addr = match session.inviter_addr() {
            Some(a) => if a.unicode_len() > 0 {
                copy_str(a)
            } else {
                self.joiners.insert(copy_str(invite_id), session);
                proof {
                    assert(self.joiners.view() =~= old_node.joiners.view());
                }
                return Err(SubmitError::NoInviterAddr);
            },
            None => {
                self.joiners.insert(copy_str(invite_id), session);
                proof {
                    assert(self.joiners.view() =~= old_node.joiners.view());
                }
                return Err(SubmitError::NoInviterAddr);
            },
        };
        match session.feed_pin(pin) {
            Ok(()) => {},
            Err(e) => {
                self.joiners.insert(copy_str(invite_id), session);
                proof {
                    assert(self.joiners.view() =~= old_node.joiners.view());
                }
                return Err(SubmitError::Oob(e));
            },
        }
        let ghost s1 = session;
        self.joiners.insert(copy_str(invite_id), session);
        proof {
            reveal_strlit("completion");
            reveal_strlit("");
            assert(""@ =~= Seq::<char>::empty());
            assert(self.joiners.view() =~= old_node.joiners.view().insert(invite_id@, s1));
            assert(pin_fed(s0, pin@, s1));
        }
        Ok((addr, PairingEnvelope::signal(invite_id, phase::COMPLETION, "")))
    }

    /// Whether [`PairingNode::completion_step`] can process `resp` without the
    /// joiner's peer aborting.
    pub fn can_complete_step(&self, invite_id: &str, resp: &PairingEnvelope) -> (r: bool)
        requires
            self.wf(),
        ensures
            r == (self.joiners().dom().contains(invite_id@) ==> peer_accepts(
                self.joiners()[invite_id@].peer(),
                blob_of(resp.msg@),
            )),
    {
        match self.joiners.get(invite_id) {
            Some(s) => {
                let blob = resp.blob();
                s.can_receive(blob.as_slice())
            },
            None => true,
        }
    }

    /// Joiner: process the inviter's response in the Completion Exchange for
    /// `invite_id`. Requires that the joiner's peer can process it
    /// ([`PairingNode::can_complete_step`]).
    pub fn completion_step(&mut self, invite_id: &str, resp: &PairingEnvelope) -> (r: CompletionAction)
        requires
            old(self).wf(),
            old(self).joiners().dom().contains(invite_id@) ==> peer_accepts(
                old(self).joiners()[invite_id@].peer(),
                blob_of(resp.msg@),
            ),
        ensures
            final(self).wf(),
            final(self).profile() == old(self).profile(),
            final(self).inviters() == old(self).inviters(),
            if !old(self).joiners().dom().contains(invite_id@) {
                unchanged(*old(self), *final(self)) && (r matches CompletionAction::Error(SubmitError::UnknownInvite))
            } else {
                exists|s1: JoinerSession, st: Step|
                    joiner_completed(old(self).joiners()[invite_id@], blob_of(resp.msg@), s1, st)
                        && #[trigger] completion_action(*old(self), invite_id@, s1, st, *final(self), r)
            },
    {
        proof {
            reveal_strlit("ack");
            reveal_strlit("fail");
            reveal_strlit("completion");
            reveal_strlit("incorrect-pin");
            reveal_strlit("");
            reveal_strlit("completion failed");
            reveal_strlit(" (incorrect pin)");
            reveal_strlit(": ");
            assert(""@ =~= Seq::<char>::empty());
        }
        let ghost old_node = *self;
        let mut session = match self.joiners.remove(invite_id) {
            Some(s) => s,
            None => {
                proof {
                    assert(self.joiners.view() =~= old_node.joiners.view());
                }
                return CompletionAction::Error(SubmitError::UnknownInvite);
            },
        };
        let blob = resp.blob();
        let step = session.on_completion(blob.as_slice());
        let ghost s1 = session;
        if step.done {
            if step.success {
                let paired = match (session.inviter(), session.association()) {
                    (Some(inv), Some(assoc)) => Paired {
                        peer: clone_info(&inv.info),
                        peer_cert_der: vstd::slice::slice_to_vec(inv.cert_der.as_slice()),
                        kz: assoc.kz,
                        cryptosuitep: assoc.cryptosuitep,
                    },
                    (None, _) => {
                        self.joiners.insert(copy_str(invite_id), session);
                        let r = CompletionAction::Error(SubmitError::NoInviterIdentity);
                        proof {
                            assert(self.joiners.view() =~= old_node.joiners.view().insert(invite_id@, s1));
                            assert(completion_action(old_node, invite_id@, s1, step, *self, r));
                        }
                        return r;
                    },
                    (Some(_), None) => {
                        self.joiners.insert(copy_str(invite_id), session);
                        let r = CompletionAction::Error(SubmitError::NoAssociation);
                        proof {
                            assert(self.joiners.view() =~= old_node.joiners.view().insert(invite_id@, s1));
                            assert(completion_action(old_node, invite_id@, s1, step, *self, r));
                        }
                        return r;
                    },
                };
                let ghost pm0 = self.pending.view();
                let _ = self.pending.remove(invite_id);
                let r = CompletionAction::Paired(paired, PairingEnvelope::signal(invite_id, phase::ACK, ""));
                proof {
                    assert(pending_views(self.pending.view()) =~= pending_views(pm0).remove(invite_id@));
                    assert(completion_action(old_node, invite_id@, s1, step, *self, r));
                }
                return r;
            }
            let reason_out = if step.auth_failed { reason::INCORRECT_PIN } else { "" };
            let notify = PairingEnvelope::signal(invite_id, phase::FAIL, reason_out);
            let mut error = String::from_str("completion failed");
            if step.auth_failed {
                push_str(&mut error, " (incorrect pin)");
            }
            push_str(&mut error, ": ");
            match &step.error {
                Some(e) => push_str(&mut error, e.as_str()),
                None => {},
            }
            let ghost pm0 = self.pending.view();
            let _ = self.pending.remove(invite_id);
            let r = CompletionAction::Failed { notify, auth_failed: step.auth_failed, error };
            proof {
                assert(pending_views(self.pending.view()) =~= pending_views(pm0).remove(invite_id@));
                assert(r->error@ =~= completion_failure_text(step.auth_failed, match otext(step.error) {
                    Some(e) => e,
                    None => seq![],
                }));
                assert(completion_action(old_node, invite_id@, s1, step, *self, r));
            }
            return r;
        }
        let r = match &step.send {
            None => CompletionAction::Error(SubmitError::Stalled),
            Some(m) => CompletionAction::Send(PairingEnvelope::with_msg(invite_id, phase::COMPLETION, m.as_slice())),
        };
        self.joiners.insert(copy_str(invite_id), session);
        proof {
            assert(self.joiners.view() =~= old_node.joiners.view().insert(invite_id@, s1));
            assert(completion_action(old_node, invite_id@, s1, step, *self, r));
        }
        r
    }
}

} // verus!
