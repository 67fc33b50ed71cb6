//! EAP-NOOB Server and Peer state machines (RFC 9140, Types 1-6).
//!
//! Both roles consume and produce EAP-NOOB message bytes (compact JSON) and are
//! driven by relaying each side's outbound bytes to the other. MAC-relevant
//! fields are captured verbatim so the confirmation MACs match a real peer
//! byte for byte. The reconnect exchange (Types 7-9) is not modelled.

use vstd::prelude::*;
use vstd::string::*;
use vstd::utf8::encode_utf8;
use crate::codec::{b64url, b64url_decode, b64url_decoded, b64url_encode, json_i64, json_i64_list, json_int_list, json_int_list_text, json_quote, json_string_literal, json_string_value, lemma_b64_plain, parse_json_i64, parse_json_i64_list, parse_json_string};
use crate::pairing::eap_wire::{blank, from_bytes, parsed, parses, reads_back, to_bytes, wire_bytes, wire_flat, wire_view, Wire, WireView};
use crate::pairing::error_code;
use crate::pairing::kdf::{completion_keys, derive_completion, DerivedKeys};
use crate::pairing::mac::{compute_mac, compute_noob_id, mac_equal, spec_compute_mac, spec_compute_noob_id, MacInputs};
use crate::pairing::suite::{jwk_json, jwk_text, jwk_from_text, parse_jwk, random_16, random_nonce_32, spec_compute_z, KeyPair, Suite};
use crate::text::{int_str, i64_to_string, push_str, str_eq};

verus! {

/// Whether an error code is the signature of a wrong PIN: a different Noob
/// yields a NoobId the other side does not recognize or a MAC that does not
/// verify.
pub fn is_wrong_pin_code(code: i64) -> (r: bool)
    ensures
        r == (code == error_code::UNRECOGNIZED_OOB_MSG_ID || code == error_code::HMAC_VERIFICATION_FAILED),
{
    code == error_code::UNRECOGNIZED_OOB_MSG_ID || code == error_code::HMAC_VERIFICATION_FAILED
}

/// EAP-NOOB association state (RFC 9140, Figure 1).
#[derive(Debug, Clone, Copy, PartialEq, Eq, Structural)]
pub enum State {
    Unregistered,
    Waiting,
    OobReceived,
    Reconnecting,
    Registered,
}

/// The wire number of a state.
pub open spec fn state_num(s: State) -> i64 {
    match s {
        State::Unregistered => 0,
        State::Waiting => 1,
        State::OobReceived => 2,
        State::Reconnecting => 3,
        State::Registered => 4,
    }
}

fn state_i64(s: State) -> (r: i64)
    ensures
        r == state_num(s),
{
    match s {
        State::Unregistered => 0,
        State::Waiting => 1,
        State::OobReceived => 2,
        State::Reconnecting => 3,
        State::Registered => 4,
    }
}

/// Result of processing one inbound message.
#[derive(Debug, Clone)]
pub struct Outcome {
    pub send: Option<Vec<u8>>,
    pub done: bool,
    pub success: bool,
    pub error: Option<String>,
    /// EAP-NOOB error code when this outcome is a protocol failure -- set both
    /// when this side fails and when it receives the other side's error
    /// notification.
    pub error_code: Option<i64>,
}

impl Default for Outcome {
    fn default() -> (o: Self)
        ensures
            o.send is None && !o.done && !o.success && o.error is None && o.error_code is None,
    {
        Outcome { send: None, done: false, success: false, error: None, error_code: None }
    }
}

/// The bytes of an optional message.
pub open spec fn obytes(o: Option<Vec<u8>>) -> Option<Seq<u8>> {
    match o {
        Some(v) => Some(v@),
        None => None,
    }
}

/// The text of an optional string.
pub open spec fn otext(o: Option<String>) -> Option<Seq<char>> {
    match o {
        Some(v) => Some(v@),
        None => None,
    }
}

/// `o` is exactly the outcome with these parts.
pub open spec fn outcome_is(
    o: Outcome,
    send: Option<Seq<u8>>,
    done: bool,
    success: bool,
    error: Option<Seq<char>>,
    code: Option<i64>,
) -> bool {
    obytes(o.send) == send && o.done == done && o.success == success && otext(o.error) == error
        && o.error_code == code
}

/// The error notification message: Type 0, ErrorCode, ErrorInfo.
pub open spec fn err_view(code: i64, info: Seq<char>) -> WireView {
    WireView { type_: Some(0), error_code: Some(code), error_info: Some(info), ..blank() }
}

/// The terminating EAP result message (`"success"` or `"failure"`).
pub open spec fn result_view(kind: Seq<char>) -> WireView {
    WireView { eap: Some(kind), ..blank() }
}

/// A failure of this side: the error notification is sent and the exchange ends.
pub open spec fn fail_outcome(o: Outcome, code: i64, info: Seq<char>) -> bool {
    outcome_is(o, Some(wire_bytes(err_view(code, info))), true, false, Some(info), Some(code))
}

/// A message is sent and the exchange continues.
pub open spec fn send_outcome(o: Outcome, w: WireView) -> bool {
    outcome_is(o, Some(wire_bytes(w)), false, false, None, None)
}

/// The message describing an error notification received from the other side.
pub open spec fn peer_error_text(code: i64, info: Option<Seq<char>>) -> Seq<char> {
    match info {
        Some(s) => if s.len() > 0 {
            "peer error "@ + int_str(code as int) + ": "@ + s
        } else {
            "peer error "@ + int_str(code as int)
        },
        None => "peer error "@ + int_str(code as int),
    }
}

/// A completed association: the shared key Kz plus identifying metadata.
#[derive(Debug, Clone)]
pub struct Association {
    pub peer_id: String,
    pub nai: String,
    pub cryptosuitep: u8,
    pub kz: [u8; 32],
}

/// The NAI used when the peer announces none.
pub open spec fn default_nai() -> Seq<char> {
    "noob@eap-noob.arpa"@
}

fn default_nai_string() -> (s: String)
    ensures
        s@ == default_nai(),
{
    String::from_str("noob@eap-noob.arpa")
}

// --- small helpers ------------------------------------------------------------

fn err_bytes(code: i64, info: &str) -> (out: Vec<u8>)
    ensures
        out@ == wire_bytes(err_view(code, info@)),
{
    let mut w = Wire::empty();
    w.type_ = Some(0);
    w.error_code = Some(code);
    w.error_info = Some(String::from_str(info));
    proof {
        assert(wire_view(w) =~= err_view(code, info@));
    }
    to_bytes(&w)
}

fn result_bytes(kind: &str) -> (out: Vec<u8>)
    ensures
        out@ == wire_bytes(result_view(kind@)),
{
    let mut w = Wire::empty();
    w.eap = Some(String::from_str(kind));
    proof {
        assert(wire_view(w) =~= result_view(kind@));
    }
    to_bytes(&w)
}

fn fail_code(code: i64, info: &str) -> (o: Outcome)
    ensures
        fail_outcome(o, code, info@),
{
    Outcome {
        send: Some(err_bytes(code, info)),
        done: true,
        success: false,
        error: Some(String::from_str(info)),
        error_code: Some(code),
    }
}

fn fail(info: &str) -> (o: Outcome)
    ensures
        fail_outcome(o, error_code::INVALID_DATA, info@),
{
    fail_code(error_code::INVALID_DATA, info)
}

fn send(w: &Wire) -> (o: Outcome)
    ensures
        send_outcome(o, wire_view(*w)),
{
    Outcome { send: Some(to_bytes(w)), done: false, success: false, error: None, error_code: None }
}

/// Render a received error notification into a message, preferring the other
/// side's ErrorInfo when present.
fn peer_error_msg(code: i64, info: &Option<String>) -> (s: String)
    ensures
        s@ == peer_error_text(code, otext(*info)),
{
    let mut s = String::from_str("peer error ");
    push_str(&mut s, i64_to_string(code).as_str());
    match info {
        Some(t) => {
            if t.as_str().unicode_len() > 0 {
                push_str(&mut s, ": ");
                push_str(&mut s, t.as_str());
            }
        },
        None => {},
    }
    s
}

fn error_notification(code: i64, info: &Option<String>) -> (o: Outcome)
    ensures
        outcome_is(o, None, true, false, Some(peer_error_text(code, otext(*info))), Some(code)),
{
    Outcome { send: None, done: true, success: false, error: Some(peer_error_msg(code, info)), error_code: Some(code) }
}

/// The verbatim text of an optional member, or `""` when absent.
pub open spec fn get_text(r: Option<Seq<char>>) -> Seq<char> {
    match r {
        Some(t) => t,
        None => seq![],
    }
}

fn get(r: &Option<String>) -> (s: String)
    ensures
        s@ == get_text(otext(*r)),
{
    match r {
        Some(t) => t.clone(),
        None => String::new(),
    }
}

/// A member that holds a JSON string literal decodes as the text it quotes
/// (what the receiving side learned by decoding it).
pub open spec fn quote_read(o: Option<Seq<char>>) -> bool {
    forall|t: Seq<char>| o == Some(#[trigger] json_quote(t)) ==> json_string_value(json_quote(t)) == Some(t)
}

/// A member that holds the decimal text of an `i64` decodes as it.
pub open spec fn int_read(o: Option<Seq<char>>) -> bool {
    forall|k: i64| o == Some(#[trigger] int_str(k as int)) ==> json_i64(int_str(k as int)) == Some(k)
}

/// A member that holds a compact integer array decodes as its list.
pub open spec fn ints_read(o: Option<Seq<char>>) -> bool {
    forall|k: Seq<i64>| o == Some(#[trigger] json_int_list_text(k)) ==> json_i64_list(json_int_list_text(k)) == Some(k)
}

/// The compact JSON of a JWK decodes as that JWK.
pub open spec fn jwk_read(text: Seq<char>) -> bool {
    forall|j: crate::pairing::suite::Jwk| text == #[trigger] jwk_text(j) ==> jwk_from_text(encode_utf8(text)) == Some(
        crate::pairing::suite::jwk_view(j),
    )
}

/// The base64url text of `x` decodes back to `x` (what the sending side
/// learned by encoding it).
pub open spec fn b64_read(x: Seq<u8>) -> bool {
    b64url_decoded(b64url(x)) == Some(x)
}

/// A member decoded as a JSON string.
pub open spec fn str_of(r: Option<Seq<char>>) -> Option<Seq<char>> {
    match r {
        Some(t) => json_string_value(t),
        None => None,
    }
}

fn parse_str(r: &Option<String>) -> (out: Option<String>)
    ensures
        otext(out) == str_of(otext(*r)),
        quote_read(otext(*r)),
{
    match r {
        Some(t) => parse_json_string(t.as_str()),
        None => None,
    }
}

/// A member decoded as a JSON integer.
pub open spec fn int_of(r: Option<Seq<char>>) -> Option<i64> {
    match r {
        Some(t) => json_i64(t),
        None => None,
    }
}

fn parse_int(r: &Option<String>) -> (out: Option<i64>)
    ensures
        out == int_of(otext(*r)),
        int_read(otext(*r)),
{
    match r {
        Some(t) => parse_json_i64(t.as_str()),
        None => None,
    }
}

/// A member decoded as a JSON list of integers.
pub open spec fn ints_of(r: Option<Seq<char>>) -> Option<Seq<i64>> {
    match r {
        Some(t) => json_i64_list(t),
        None => None,
    }
}

fn parse_ints(r: &Option<String>) -> (out: Option<Vec<i64>>)
    ensures
        match out {
            Some(v) => ints_of(otext(*r)) == Some(v@),
            None => ints_of(otext(*r)) is None,
        },
        ints_read(otext(*r)),
{
    match r {
        Some(t) => parse_json_i64_list(t.as_str()),
        None => None,
    }
}

/// The JSON string literal of the base64url text of `bytes`.
pub open spec fn b64_json(bytes: Seq<u8>) -> Seq<char> {
    json_quote(b64url(bytes))
}

fn jstr(s: &str) -> (out: String)
    ensures
        out@ == json_quote(s@),
{
    json_string_literal(s)
}

fn b64_json_exec(bytes: &[u8]) -> (out: String)
    ensures
        out@ == b64_json(bytes@),
        b64_read(bytes@),
        out@ == seq!['"'] + b64url(bytes@) + seq!['"'],
{
    let b = b64url_encode(bytes);
    proof {
        lemma_b64_plain(b@);
    }
    jstr(b.as_str())
}

/// The text `"{}"` for an absent object.
pub open spec fn ensure_obj_text(s: Seq<char>) -> Seq<char> {
    if s.len() == 0 {
        "{}"@
    } else {
        s
    }
}

fn ensure_obj(s: String) -> (out: String)
    ensures
        out@ == ensure_obj_text(s@),
{
    if s.as_str().unicode_len() == 0 {
        String::from_str("{}")
    } else {
        s
    }
}

/// Whether `v` occurs in `s`.
pub open spec fn occurs(s: Seq<i64>, v: i64) -> bool {
    exists|i: int| 0 <= i < s.len() && s[i] == v
}

fn contains(s: &Vec<i64>, v: i64) -> (r: bool)
    ensures
        r == occurs(s@, v),
{
    let mut i: usize = 0;
    while i < s.len()
        invariant
            i <= s@.len(),
            forall|j: int| 0 <= j < i ==> s@[j] != v,
        decreases s@.len() - i,
    {
        if s[i] == v {
            return true;
        }
        i = i + 1;
    }
    false
}

// --- accumulated association values ------------------------------------------------

/// The values an association accumulates: the negotiated suite, the ephemeral
/// key pair, identities, the ECDH secret, nonces, the out-of-band Noob, the
/// derived keys, and the verbatim MAC inputs.
pub struct Method {
    pub suite: Option<Suite>,
    pub keypair: Option<KeyPair>,
    pub peer_id: String,
    pub nai: String,
    pub z: Vec<u8>,
    pub ns: Vec<u8>,
    pub np: Vec<u8>,
    pub noob: Vec<u8>,
    pub noob_b64_json: String,
    pub noob_id: [u8; 16],
    pub keym: Option<DerivedKeys>,
    pub inp: MacInputs,
}

impl Method {
    fn new(nai: String) -> (m: Method)
        ensures
            m.suite is None && m.keypair is None && m.peer_id@.len() == 0 && m.nai@ == nai@
                && m.z@.len() == 0 && m.ns@.len() == 0 && m.np@.len() == 0 && m.noob@.len() == 0
                && m.noob_b64_json@.len() == 0 && m.keym is None,
    {
        Method {
            suite: None,
            keypair: None,
            peer_id: String::new(),
            nai,
            z: Vec::new(),
            ns: Vec::new(),
            np: Vec::new(),
            noob: Vec::new(),
            noob_b64_json: String::new(),
            noob_id: [0u8; 16],
            keym: None,
            inp: MacInputs::default(),
        }
    }

    /// The key pair, when present, matches its secret.
    pub open spec fn wf(&self) -> bool {
        self.keypair matches Some(kp) ==> kp.wf()
    }

    /// Record the out-of-band Noob: its base64url JSON string becomes the
    /// `Noob` MAC input and determines NoobId.
    fn set_noob(&mut self, noob: &[u8])
        ensures
            noob_set(*old(self), *final(self), noob@),
    {
        let mut v: Vec<u8> = Vec::new();
        v.extend_from_slice(noob);
        self.noob = v;
        self.noob_b64_json = b64_json_exec(noob);
        self.inp.noob = self.noob_b64_json.clone();
        self.noob_id = compute_noob_id(self.noob_b64_json.as_str());
        proof {
            assert(self.noob@ =~= noob@);
        }
    }

    /// Derive the Completion-Exchange keys from Z, Np, Ns and Noob.
    fn derive(&mut self)
        ensures
            final(self).keym is Some,
            completion_keys(old(self).z@, old(self).np@, old(self).ns@, old(self).noob@, final(self).keym.unwrap()),
            same_but_keys(*old(self), *final(self)),
    {
        self.keym = Some(derive_completion(self.z.as_slice(), self.np.as_slice(), self.ns.as_slice(), self.noob.as_slice()));
    }
}

/// `new` is `old` with the Noob recorded.
pub open spec fn noob_set(old: Method, new: Method, noob: Seq<u8>) -> bool {
    &&& new.noob@ == noob
    &&& new.noob_b64_json@ == b64_json(noob)
    &&& new.noob_id@ == spec_compute_noob_id(b64_json(noob))
    &&& same_inp_but_noob(old.inp, new.inp)
    &&& new.inp.noob@ == b64_json(noob)
    &&& new.suite == old.suite && new.keypair == old.keypair && new.peer_id == old.peer_id
    &&& new.nai == old.nai && new.z == old.z && new.ns == old.ns && new.np == old.np
    &&& new.keym == old.keym
}

/// The MAC inputs agree on every field but `noob`.
pub open spec fn same_inp_but_noob(a: MacInputs, b: MacInputs) -> bool {
    &&& a.vers == b.vers && a.verp == b.verp && a.peer_id == b.peer_id && a.cryptosuites == b.cryptosuites
    &&& a.dirs == b.dirs && a.server_info == b.server_info && a.cryptosuitep == b.cryptosuitep
    &&& a.dirp == b.dirp && a.nai == b.nai && a.peer_info == b.peer_info && a.pks == b.pks
    &&& a.ns == b.ns && a.pkp == b.pkp && a.np == b.np
}

/// `new` is `old` with only the derived keys replaced.
pub open spec fn same_but_keys(old: Method, new: Method) -> bool {
    &&& new.suite == old.suite && new.keypair == old.keypair && new.peer_id == old.peer_id
    &&& new.nai == old.nai && new.z == old.z && new.ns == old.ns && new.np == old.np
    &&& new.noob == old.noob && new.noob_b64_json == old.noob_b64_json && new.noob_id == old.noob_id
    &&& new.inp == old.inp
}

/// The bytes carried base64url-encoded in a string member (empty when absent
/// or undecodable).
pub open spec fn b64_member(r: Option<Seq<char>>) -> Seq<u8> {
    match str_of(r) {
        Some(t) => match b64url_decoded(t) {
            Some(b) => b,
            None => seq![],
        },
        None => seq![],
    }
}

fn b64_field(r: &Option<String>) -> (out: Vec<u8>)
    ensures
        out@ == b64_member(otext(*r)),
        quote_read(otext(*r)),
{
    match parse_str(r) {
        Some(t) => match b64url_decode(t.as_str()) {
            Some(b) => b,
            None => Vec::new(),
        },
        None => Vec::new(),
    }
}

fn bytes_eq16(a: &Vec<u8>, b: &[u8; 16]) -> (r: bool)
    ensures
        r == (a@ == b@),
{
    mac_equal(a.as_slice(), b)
}

// --- Server ----------------------------------------------------------------

/// The EAP-NOOB server (the inviting side).
pub struct Server {
    versions: Vec<i64>,
    cryptosuites: Vec<i64>,
    dirs: i64,
    state: State,
    m: Method,
    peer_state: i64,
    csp: i64,
    dirp: i64,
    server_info: String,
    assoc: Option<Association>,
}

impl Server {
    /// The association state.
    pub closed spec fn st(&self) -> State {
        self.state
    }

    /// The accumulated association values.
    pub closed spec fn method(&self) -> Method {
        self.m
    }

    /// Supported versions.
    pub closed spec fn spec_versions(&self) -> Seq<i64> {
        self.versions@
    }

    /// Supported cryptosuites, in priority order.
    pub closed spec fn spec_suites(&self) -> Seq<i64> {
        self.cryptosuites@
    }

    /// Supported OOB directions (bit mask).
    pub closed spec fn spec_dirs(&self) -> i64 {
        self.dirs
    }

    /// The peer state announced in the last Discovery response.
    pub closed spec fn spec_peer_state(&self) -> i64 {
        self.peer_state
    }

    /// The negotiated cryptosuite.
    pub closed spec fn spec_csp(&self) -> i64 {
        self.csp
    }

    /// The negotiated OOB direction.
    pub closed spec fn spec_dirp(&self) -> i64 {
        self.dirp
    }

    /// The ServerInfo JSON sent to the peer.
    pub closed spec fn spec_server_info(&self) -> Seq<char> {
        self.server_info@
    }

    /// The completed association.
    pub closed spec fn spec_assoc(&self) -> Option<Association> {
        self.assoc
    }

    /// The key pair, when present, matches its secret.
    pub closed spec fn inv(&self) -> bool {
        self.m.wf()
    }
}

/// Everything but the association values and the state is unchanged.
pub open spec fn server_config_same(a: Server, b: Server) -> bool {
    &&& a.spec_versions() == b.spec_versions() && a.spec_suites() == b.spec_suites()
    &&& a.spec_dirs() == b.spec_dirs() && a.spec_server_info() == b.spec_server_info()
}

/// The PeerId of an incoming message is acceptable: none is assigned yet, or
/// it equals the assigned one.
pub open spec fn server_peer_id_ok(s: Server, w: WireView) -> bool {
    s.method().peer_id@.len() == 0 || str_of(w.peer_id) == Some(s.method().peer_id@)
}

/// The MAC input fields that the Negotiation step records.
pub open spec fn inp_same_but_negotiation(a: MacInputs, b: MacInputs) -> bool {
    &&& a.pks == b.pks && a.ns == b.ns && a.pkp == b.pkp && a.np == b.np && a.noob == b.noob
}

/// The Negotiation request that `new` sends after assigning a fresh PeerId.
pub open spec fn server_negotiation(old: Server, new: Server, out: Outcome) -> bool {
    let pid = new.method().peer_id@;
    let inp = new.method().inp;
    &&& exists|r: Seq<u8>| r.len() == 16 && pid == b64url(r)
    &&& inp.vers@ == json_int_list_text(old.spec_versions())
    &&& inp.peer_id@ == json_quote(pid)
    &&& inp.cryptosuites@ == json_int_list_text(old.spec_suites())
    &&& inp.dirs@ == int_str(old.spec_dirs() as int)
    &&& inp.server_info@ == old.spec_server_info()
    &&& inp.verp == old.method().inp.verp && inp.cryptosuitep == old.method().inp.cryptosuitep
    &&& inp.dirp == old.method().inp.dirp && inp.nai == old.method().inp.nai
    &&& inp.peer_info == old.method().inp.peer_info
    &&& inp_same_but_negotiation(old.method().inp, inp)
    &&& server_config_same(old, new) && new.st() == old.st()
    &&& new.spec_peer_state() == old.spec_peer_state() && new.spec_csp() == old.spec_csp()
    &&& new.spec_dirp() == old.spec_dirp() && new.spec_assoc() == old.spec_assoc()
    &&& new.method().suite == old.method().suite && new.method().keypair == old.method().keypair
    &&& new.method().nai == old.method().nai && new.method().z == old.method().z
    &&& new.method().ns == old.method().ns && new.method().np == old.method().np
    &&& new.method().noob == old.method().noob && new.method().noob_id == old.method().noob_id
    &&& new.method().noob_b64_json == old.method().noob_b64_json && new.method().keym == old.method().keym
    &&& send_outcome(
        out,
        WireView {
            type_: Some(2),
            vers: Some(inp.vers@),
            peer_id: Some(json_quote(pid)),
            cryptosuites: Some(inp.cryptosuites@),
            dirs: Some(inp.dirs@),
            server_info: Some(old.spec_server_info()),
            ..blank()
        },
    )
}

/// The Completion request `new` sends: keys derived from Z, Np, Ns and Noob,
/// and MACs over the association array under Kms.
pub open spec fn server_completion(old: Server, new: Server, out: Outcome) -> bool {
    let m = old.method();
    &&& new.method().keym is Some
    &&& completion_keys(m.z@, m.np@, m.ns@, m.noob@, new.method().keym.unwrap())
    &&& same_but_keys(m, new.method())
    &&& b64_read(m.noob_id@) && b64_read(spec_compute_mac(new.method().keym.unwrap().kms@, 2, m.inp))
    &&& server_config_same(old, new) && new.st() == old.st()
    &&& new.spec_peer_state() == old.spec_peer_state() && new.spec_csp() == old.spec_csp()
    &&& new.spec_dirp() == old.spec_dirp() && new.spec_assoc() == old.spec_assoc()
    &&& send_outcome(
        out,
        WireView {
            type_: Some(6),
            peer_id: Some(json_quote(m.peer_id@)),
            noob_id: Some(b64_json(m.noob_id@)),
            macs: Some(b64_json(spec_compute_mac(new.method().keym.unwrap().kms@, 2, m.inp))),
            ..blank()
        },
    )
}

/// What the server does once Discovery shows both sides hold the Noob.
pub open spec fn server_start_completion(old: Server, new: Server, out: Outcome) -> bool {
    if old.method().noob@.len() == 0 {
        new == old && fail_outcome(out, error_code::INVALID_DATA, "no OOB processed"@)
    } else if old.spec_peer_state() == 2 {
        new == old && send_outcome(
            out,
            WireView { type_: Some(5), peer_id: Some(json_quote(old.method().peer_id@)), ..blank() },
        )
    } else {
        server_completion(old, new, out)
    }
}

/// The Discovery response handling, after recording the announced peer state
/// and NAI in `mid`.
pub open spec fn server_discovery(old: Server, w: WireView, mid: Server, new: Server, out: Outcome) -> bool {
    let ps = match w.peer_state {
        Some(p) => p,
        None => 0,
    };
    let nai1 = match str_of(w.nai) {
        Some(n) => n,
        None => old.method().nai@,
    };
    let ss = state_num(old.st());
    &&& quote_read(w.nai)
    &&& mid.spec_peer_state() == ps
    &&& mid.method().nai@ == (if nai1.len() == 0 { default_nai() } else { nai1 })
    &&& server_config_same(old, mid) && mid.st() == old.st() && mid.spec_csp() == old.spec_csp()
    &&& mid.spec_dirp() == old.spec_dirp() && mid.spec_assoc() == old.spec_assoc()
    &&& mid.method().suite == old.method().suite && mid.method().keypair == old.method().keypair
    &&& mid.method().peer_id == old.method().peer_id && mid.method().z == old.method().z
    &&& mid.method().ns == old.method().ns && mid.method().np == old.method().np
    &&& mid.method().noob == old.method().noob && mid.method().noob_id == old.method().noob_id
    &&& mid.method().noob_b64_json == old.method().noob_b64_json && mid.method().keym == old.method().keym
    &&& mid.method().inp == old.method().inp
    &&& if (ss == 2 && (ps == 1 || ps == 2)) || (ps == 2 && (ss == 1 || ss == 2)) {
        server_start_completion(mid, new, out)
    } else if ss == 1 && ps == 1 {
        new == mid && send_outcome(
            out,
            WireView { type_: Some(4), peer_id: Some(json_quote(mid.method().peer_id@)), ..blank() },
        )
    } else if ss == 0 || ps == 0 {
        server_negotiation(mid, new, out)
    } else {
        new == mid && fail_outcome(out, error_code::INVALID_DATA, "state mismatch"@)
    }
}

/// The suite with a wire id.
pub open spec fn suite_of(id: u8) -> Option<Suite> {
    if id == 1 {
        Some(Suite::X25519)
    } else if id == 2 {
        Some(Suite::P256)
    } else {
        None
    }
}

/// The Negotiation response handling: version, cryptosuite and direction must
/// be acceptable; then a key pair and Ns are generated and KeyExchange is sent.
pub open spec fn server_negotiation_response(old: Server, w: WireView, new: Server, out: Outcome) -> bool {
    let verp = match int_of(w.verp) {
        Some(v) => v,
        None => -1i64,
    };
    let csp = match int_of(w.cryptosuitep) {
        Some(v) => v,
        None => -1i64,
    };
    let dirp = match int_of(w.dirp) {
        Some(v) => v,
        None => -1i64,
    };
    &&& quote_read(w.peer_id) && int_read(w.verp) && int_read(w.cryptosuitep) && int_read(w.dirp)
    &&& if !server_peer_id_ok(old, w) {
        new == old && fail_outcome(out, error_code::INVALID_DATA, "PeerId mismatch"@)
    } else if !occurs(old.spec_versions(), verp) {
        new == old && fail_outcome(out, error_code::INVALID_DATA, "unsupported version"@)
    } else if !occurs(old.spec_suites(), csp) || suite_of(csp as u8) is None {
        new == old && fail_outcome(out, error_code::INVALID_DATA, "unsupported cryptosuite"@)
    } else if dirp & old.spec_dirs() == 0 || !(1 <= dirp <= 3) {
        new == old && fail_outcome(out, error_code::INVALID_DATA, "no mutual OOB direction"@)
    } else {
        let m = new.method();
        let suite = suite_of(csp as u8).unwrap();
        &&& m.suite == Some(suite)
        &&& new.spec_csp() == csp && new.spec_dirp() == dirp
        &&& m.inp.verp@ == get_text(w.verp) && m.inp.cryptosuitep@ == get_text(w.cryptosuitep)
        &&& m.inp.dirp@ == get_text(w.dirp)
        &&& m.inp.peer_info@ == ensure_obj_text(get_text(w.peer_info))
        &&& m.inp.nai@ == json_quote(old.method().nai@)
        &&& m.keypair is Some && m.keypair.unwrap().spec_suite() == suite && m.keypair.unwrap().wf()
        &&& m.ns@.len() == 32 && b64_read(m.ns@)
        &&& m.inp.pks@ == jwk_text(m.keypair.unwrap().spec_jwk())
        &&& m.inp.ns@ == b64_json(m.ns@)
        &&& m.inp.vers == old.method().inp.vers && m.inp.peer_id == old.method().inp.peer_id
        &&& m.inp.cryptosuites == old.method().inp.cryptosuites && m.inp.dirs == old.method().inp.dirs
        &&& m.inp.server_info == old.method().inp.server_info && m.inp.pkp == old.method().inp.pkp
        &&& m.inp.np == old.method().inp.np && m.inp.noob == old.method().inp.noob
        &&& m.peer_id == old.method().peer_id && m.nai == old.method().nai && m.z == old.method().z
        &&& m.np == old.method().np && m.noob == old.method().noob && m.noob_id == old.method().noob_id
        &&& m.noob_b64_json == old.method().noob_b64_json && m.keym == old.method().keym
        &&& server_config_same(old, new) && new.st() == old.st()
        &&& new.spec_peer_state() == old.spec_peer_state() && new.spec_assoc() == old.spec_assoc()
        &&& send_outcome(
            out,
            WireView {
                type_: Some(3),
                peer_id: Some(json_quote(m.peer_id@)),
                pks: Some(m.inp.pks@),
                ns: Some(m.inp.ns@),
                ..blank()
            },
        )
    }
}

/// The KeyExchange response handling: the peer's key and Np are recorded with
/// the ECDH secret, the server waits for the out-of-band step, and the
/// exchange ends with an EAP-Failure.
pub open spec fn server_key_exchange(old: Server, w: WireView, new: Server, out: Outcome) -> bool {
    let pkp_text = get_text(w.pkp);
    let jwk = jwk_from_text(encode_utf8(pkp_text));
    let m = old.method();
    &&& quote_read(w.peer_id) && jwk_read(pkp_text) && quote_read(w.np)
    &&& if !server_peer_id_ok(old, w) {
        new == old && fail_outcome(out, error_code::INVALID_DATA, "PeerId mismatch"@)
    } else if jwk is None {
        new == old && fail_outcome(out, error_code::INVALID_DATA, "bad PKp"@)
    } else if spec_compute_z(m.keypair.unwrap().spec_suite(), m.keypair.unwrap().spec_secret(), jwk.unwrap()) is Err {
        &&& new == old && fail_outcome(out, error_code::INVALID_DATA, "ECDHE failure"@)
        &&& forall|other: KeyPair|
            other.wf() && other.spec_suite() == m.keypair.unwrap().spec_suite() ==> jwk.unwrap() != crate::pairing::suite::jwk_view(
                #[trigger] other.spec_jwk(),
            )
    } else if str_of(w.np) is None {
        new == old && fail_outcome(out, error_code::INVALID_DATA, "bad Np"@)
    } else if b64url_decoded(str_of(w.np).unwrap()) is None {
        new == old && fail_outcome(out, error_code::INVALID_DATA, "bad Np encoding"@)
    } else {
        let nm = new.method();
        &&& Ok::<Seq<u8>, crate::pairing::suite::EcdhError>(nm.z@) == spec_compute_z(
            m.keypair.unwrap().spec_suite(),
            m.keypair.unwrap().spec_secret(),
            jwk.unwrap(),
        )
        &&& forall|other: KeyPair|
            other.wf() && other.spec_suite() == m.keypair.unwrap().spec_suite() && jwk.unwrap()
                == crate::pairing::suite::jwk_view(#[trigger] other.spec_jwk()) ==> spec_compute_z(
                other.spec_suite(),
                other.spec_secret(),
                crate::pairing::suite::jwk_view(m.keypair.unwrap().spec_jwk()),
            ) == Ok::<Seq<u8>, crate::pairing::suite::EcdhError>(nm.z@)
        &&& nm.np@ == b64url_decoded(str_of(w.np).unwrap()).unwrap()
        &&& nm.inp.pkp@ == pkp_text && nm.inp.np@ == get_text(w.np)
        &&& new.st() == State::Waiting
        &&& nm.suite == m.suite && nm.keypair == m.keypair && nm.peer_id == m.peer_id && nm.nai == m.nai
        &&& nm.ns == m.ns && nm.noob == m.noob && nm.noob_id == m.noob_id
        &&& nm.noob_b64_json == m.noob_b64_json && nm.keym == m.keym
        &&& nm.inp.vers == m.inp.vers && nm.inp.verp == m.inp.verp && nm.inp.peer_id == m.inp.peer_id
        &&& nm.inp.cryptosuites == m.inp.cryptosuites && nm.inp.dirs == m.inp.dirs
        &&& nm.inp.server_info == m.inp.server_info && nm.inp.cryptosuitep == m.inp.cryptosuitep
        &&& nm.inp.dirp == m.inp.dirp && nm.inp.nai == m.inp.nai && nm.inp.peer_info == m.inp.peer_info
        &&& nm.inp.pks == m.inp.pks && nm.inp.ns == m.inp.ns && nm.inp.noob == m.inp.noob
        &&& server_config_same(old, new) && new.spec_peer_state() == old.spec_peer_state()
        &&& new.spec_csp() == old.spec_csp() && new.spec_dirp() == old.spec_dirp()
        &&& new.spec_assoc() == old.spec_assoc()
        &&& outcome_is(out, Some(wire_bytes(result_view("failure"@))), true, false, None, None)
    }
}

/// The NoobId response handling: the NoobId must be the one of the server's
/// Noob (else a wrong-PIN failure); then Completion is sent.
pub open spec fn server_noob_id(old: Server, w: WireView, new: Server, out: Outcome) -> bool {
    &&& quote_read(w.peer_id) && quote_read(w.noob_id)
    &&& if !server_peer_id_ok(old, w) {
        new == old && fail_outcome(out, error_code::INVALID_DATA, "PeerId mismatch"@)
    } else if b64_member(w.noob_id) != old.method().noob_id@ {
        new == old && fail_outcome(out, error_code::UNRECOGNIZED_OOB_MSG_ID, "unrecognized NoobId"@)
    } else {
        server_completion(old, new, out)
    }
}

/// The Completion response handling: MACp must verify under Kmp (else a
/// wrong-PIN failure); then the association is registered and EAP-Success sent.
pub open spec fn server_completion_response(old: Server, w: WireView, new: Server, out: Outcome) -> bool {
    let m = old.method();
    &&& quote_read(w.peer_id) && quote_read(w.macp)
    &&& if !server_peer_id_ok(old, w) {
        new == old && fail_outcome(out, error_code::INVALID_DATA, "PeerId mismatch"@)
    } else if b64_member(w.macp) != spec_compute_mac(m.keym.unwrap().kmp@, 1, m.inp) {
        new == old && fail_outcome(out, error_code::HMAC_VERIFICATION_FAILED, "MACp verification failed"@)
    } else {
        &&& new.st() == State::Registered
        &&& new.spec_assoc() is Some
        &&& new.spec_assoc().unwrap().peer_id@ == m.peer_id@
        &&& new.spec_assoc().unwrap().nai@ == m.nai@
        &&& new.spec_assoc().unwrap().cryptosuitep == old.spec_csp() as u8
        &&& new.spec_assoc().unwrap().kz == m.keym.unwrap().kz
        &&& new.method() == m && server_config_same(old, new)
        &&& new.spec_peer_state() == old.spec_peer_state() && new.spec_csp() == old.spec_csp()
        &&& new.spec_dirp() == old.spec_dirp()
        &&& outcome_is(out, Some(wire_bytes(result_view("success"@))), true, true, None, None)
    }
}

/// The server would abort on this message: a KeyExchange before any key pair
/// exists, or a Completion before any keys are derived.
pub open spec fn server_would_abort(s: Server, w: WireView) -> bool {
    &&& w.error_code is None
    &&& server_peer_id_ok(s, w)
    &&& ((w.type_ == Some(3i64) && jwk_from_text(encode_utf8(get_text(w.pkp))) is Some && s.method().keypair is None)
        || (w.type_ == Some(6i64) && s.method().keym is None))
}

/// The server can process `input` without aborting.
pub open spec fn server_accepts(s: Server, input: Seq<u8>) -> bool {
    forall|w: Wire| parsed(input, w) ==> !server_would_abort(s, wire_view(w))
}

/// One step of the server on the message `w`.
pub open spec fn server_step_on(old: Server, w: WireView, new: Server, out: Outcome) -> bool {
    if w.error_code is Some {
        new == old && outcome_is(
            out,
            None,
            true,
            false,
            Some(peer_error_text(w.error_code.unwrap(), w.error_info)),
            w.error_code,
        )
    } else if w.type_ == Some(1i64) {
        exists|mid: Server| server_discovery(old, w, mid, new, out)
    } else if w.type_ == Some(2i64) {
        server_negotiation_response(old, w, new, out)
    } else if w.type_ == Some(3i64) {
        server_key_exchange(old, w, new, out)
    } else if w.type_ == Some(4i64) {
        new == old && outcome_is(out, Some(wire_bytes(result_view("failure"@))), true, false, None, None)
    } else if w.type_ == Some(5i64) {
        server_noob_id(old, w, new, out)
    } else if w.type_ == Some(6i64) {
        server_completion_response(old, w, new, out)
    } else {
        new == old && fail_outcome(out, error_code::INVALID_DATA, "unexpected type"@)
    }
}

/// One step of the server on `input`.
pub open spec fn server_step(old: Server, input: Seq<u8>, new: Server, out: Outcome) -> bool {
    if !parses(input) {
        new == old && fail_outcome(out, error_code::INVALID_DATA, "malformed JSON"@)
    } else {
        forall|wm: Wire| #[trigger] parsed(input, wm) ==> server_step_on(old, wire_view(wm), new, out)
    }
}

/// Two readings of the same bytes agree.
pub proof fn lemma_parsed_unique(input: Seq<u8>, a: Wire, b: Wire)
    requires
        parsed(input, a),
        parsed(input, b),
    ensures
        wire_view(a) == wire_view(b),
{
}

/// Why an out-of-band Noob was refused.
#[derive(Debug, Clone, Copy, PartialEq, Eq, Structural)]
pub enum OobError {
    /// The association is not waiting for the out-of-band step.
    NotWaiting,
    /// Server-to-peer OOB was not negotiated.
    DirectionNotNegotiated,
    /// The Noob is not 16 bytes.
    BadNoobLength,
}

/// The description of an out-of-band refusal.
pub open spec fn oob_error_text(e: OobError) -> Seq<char> {
    match e {
        OobError::NotWaiting => "OOB requires Waiting state"@,
        OobError::DirectionNotNegotiated => "server-to-peer OOB not negotiated"@,
        OobError::BadNoobLength => "Noob must be 16 bytes"@,
    }
}

impl OobError {
    /// A human-readable description.
    pub fn message(&self) -> (r: String)
        ensures
            r@ == oob_error_text(*self),
    {
        match self {
            OobError::NotWaiting => String::from_str("OOB requires Waiting state"),
            OobError::DirectionNotNegotiated => String::from_str("server-to-peer OOB not negotiated"),
            OobError::BadNoobLength => String::from_str("Noob must be 16 bytes"),
        }
    }
}

/// The outcome of supplying an out-of-band Noob of `len` bytes at `state`
/// with negotiated direction `dirp`.
pub open spec fn oob_check(state: State, dirp: i64, len: nat) -> Result<(), OobError> {
    if state != State::Waiting {
        Err(OobError::NotWaiting)
    } else if !(dirp == 2 || dirp == 3) {
        Err(OobError::DirectionNotNegotiated)
    } else if len != 16 {
        Err(OobError::BadNoobLength)
    } else {
        Ok(())
    }
}

/// The Type 1 Discovery request.
pub open spec fn discovery_request() -> WireView {
    WireView { type_: Some(1), ..blank() }
}

impl Server {
    /// A server offering version 1, cryptosuites `[2, 1]` and both OOB
    /// directions, with an empty ServerInfo object.
    pub fn new() -> (s: Server)
        ensures
            s.inv(),
            s.st() == State::Unregistered,
            s.spec_versions() == seq![1i64],
            s.spec_suites() == seq![2i64, 1i64],
            s.spec_dirs() == 3,
            s.spec_server_info() == "{}"@,
            s.spec_assoc() is None,
            s.spec_peer_state() == 0 && s.spec_csp() == 0 && s.spec_dirp() == 0,
            s.method().peer_id@.len() == 0 && s.method().nai@.len() == 0 && s.method().noob@.len() == 0,
            s.method().keypair is None && s.method().keym is None && s.method().suite is None,
    {
        let versions: Vec<i64> = vec![1i64];
        let cryptosuites: Vec<i64> = vec![2i64, 1i64];
        proof {
            assert(versions@ =~= seq![1i64]);
            assert(cryptosuites@ =~= seq![2i64, 1i64]);
        }
        Server {
            versions,
            cryptosuites,
            dirs: 3,
            state: State::Unregistered,
            m: Method::new(String::new()),
            peer_state: 0,
            csp: 0,
            dirp: 0,
            server_info: String::from_str("{}"),
            assoc: None,
        }
    }

    /// Carry a JSON ServerInfo object (e.g. this node's PairingInfo) that the
    /// peer authenticates via the Completion MAC. Dirs become server-to-peer.
    pub fn with_server_info(self, info_json: String) -> (s: Server)
        ensures
            s.spec_server_info() == info_json@,
            s.spec_dirs() == 2,
            s.st() == self.st() && s.method() == self.method() && s.spec_versions() == self.spec_versions()
                && s.spec_suites() == self.spec_suites() && s.spec_assoc() == self.spec_assoc()
                && s.spec_peer_state() == self.spec_peer_state() && s.spec_csp() == self.spec_csp()
                && s.spec_dirp() == self.spec_dirp(),
            self.inv() ==> s.inv(),
    {
        let mut s = self;
        s.server_info = info_json;
        s.dirs = 2;
        s
    }

    /// The association state.
    pub fn state(&self) -> (r: State)
        ensures
            r == self.st(),
    {
        self.state
    }

    /// The completed association, once Registered.
    pub fn association(&self) -> (r: Option<&Association>)
        ensures
            match r {
                Some(a) => self.spec_assoc() == Some(*a),
                None => self.spec_assoc() is None,
            },
    {
        self.assoc.as_ref()
    }

    /// The peer's authenticated PeerInfo (verbatim JSON), valid once Registered.
    pub fn peer_info(&self) -> (r: &str)
        ensures
            r@ == self.method().inp.peer_info@,
    {
        self.m.inp.peer_info.as_str()
    }

    /// Start a new EAP conversation: the Type 1 Discovery request.
    pub fn start(&mut self) -> (out: Vec<u8>)
        ensures
            out@ == wire_bytes(discovery_request()),
            *final(self) == *old(self),
    {
        let mut w = Wire::empty();
        w.type_ = Some(1);
        proof {
            assert(wire_view(w) =~= discovery_request());
        }
        to_bytes(&w)
    }

    /// Whether the server can process `input` without aborting (see
    /// [`Server::receive`]).
    pub fn can_receive(&self, input: &[u8]) -> (r: bool)
        ensures
            r == server_accepts(*self, input@),
    {
        let wm = match from_bytes(input) {
            Some(w) => w,
            None => return true,
        };
        let aborts = wm.error_code.is_none() && self.check_peer_id(&wm) && ((wm.type_ == Some(3i64)
            && parse_jwk(get(&wm.pkp).as_str().as_bytes()).is_some() && self.m.keypair.is_none()) || (
        wm.type_ == Some(6i64) && self.m.keym.is_none()));
        proof {
            assert forall|w2: Wire| parsed(input@, w2) implies wire_view(w2) == wire_view(wm) by {
                lemma_parsed_unique(input@, w2, wm);
            }
            assert(aborts == server_would_abort(*self, wire_view(wm)));
        }
        !aborts
    }

    fn check_peer_id(&self, w: &Wire) -> (r: bool)
        ensures
            r == server_peer_id_ok(*self, wire_view(*w)),
            quote_read(wire_view(*w).peer_id),
    {
        let got = parse_str(&w.peer_id);
        if self.m.peer_id.as_str().unicode_len() == 0 {
            return true;
        }
        match got {
            Some(got) => str_eq(got.as_str(), self.m.peer_id.as_str()),
            None => false,
        }
    }

    /// Process one message from the peer. Requires that the message does not
    /// make the server abort ([`Server::can_receive`]): a KeyExchange response
    /// before any key pair exists, or a Completion response before any keys
    /// are derived.
    pub fn receive(&mut self, input: &[u8]) -> (o: Outcome)
        requires
            old(self).inv(),
            server_accepts(*old(self), input@),
        ensures
            final(self).inv(),
            server_step(*old(self), input@, *final(self), o),
            reads_back(input@),
    {
        let wm = match from_bytes(input) {
            Some(w) => w,
            None => return fail("malformed JSON"),
        };
        proof {
            assert forall|w: WireView| wire_flat(w) && input@ == #[trigger] wire_bytes(w) implies parses(input@) && (exists|wm2: Wire| parsed(input@, wm2)) && forall|wm2: Wire|
                parsed(input@, wm2) ==> wire_view(wm2) == w by {
                assert(parsed(input@, wm));
                assert forall|wm2: Wire| parsed(input@, wm2) implies wire_view(wm2) == w by {
                    lemma_parsed_unique(input@, wm2, wm);
                }
            }
            assert forall|w2: Wire| parsed(input@, w2) implies wire_view(w2) == wire_view(wm) by {
                lemma_parsed_unique(input@, w2, wm);
            }
            assert(!server_would_abort(*old(self), wire_view(wm)));
        }
        if let Some(code) = wm.error_code {
            return error_notification(code, &wm.error_info);
        }
        if wm.type_ == Some(1i64) {
            self.on_discovery(&wm)
        } else if wm.type_ == Some(2i64) {
            self.on_negotiation(&wm)
        } else if wm.type_ == Some(3i64) {
            self.on_key_exchange(&wm)
        } else if wm.type_ == Some(4i64) {
            self.done_failure()
        } else if wm.type_ == Some(5i64) {
            self.on_noob_id(&wm)
        } else if wm.type_ == Some(6i64) {
            self.on_completion(&wm)
        } else {
            fail("unexpected type")
        }
    }

    fn on_discovery(&mut self, w: &Wire) -> (o: Outcome)
        requires
            old(self).inv(),
        ensures
            final(self).inv(),
            exists|mid: Server| server_discovery(*old(self), wire_view(*w), mid, *final(self), o),
    {
        self.peer_state = match w.peer_state {
            Some(p) => p,
            None => 0,
        };
        match parse_str(&w.nai) {
            Some(n) => {
                self.m.nai = n;
            },
            None => {},
        }
        if self.m.nai.as_str().unicode_len() == 0 {
            self.m.nai = default_nai_string();
        }
        let ghost mid = *self;
        let ss = state_i64(self.state);
        let ps = self.peer_state;
        let o = if (ss == 2 && (ps == 1 || ps == 2)) || (ps == 2 && (ss == 1 || ss == 2)) {
            self.start_completion()
        } else if ss == 1 && ps == 1 {
            self.build_waiting()
        } else if ss == 0 || ps == 0 {
            self.build_negotiation()
        } else {
            fail("state mismatch")
        };
        proof {
            assert(server_discovery(*old(self), wire_view(*w), mid, *self, o));
        }
        o
    }

    fn build_negotiation(&mut self) -> (o: Outcome)
        requires
            old(self).inv(),
        ensures
            final(self).inv(),
            server_negotiation(*old(self), *final(self), o),
    {
        let r = random_16();
        let peer_id = b64url_encode(&r);
        self.m.peer_id = peer_id.clone();
        let vers = json_int_list(&self.versions);
        let cs = json_int_list(&self.cryptosuites);
        let dirs = i64_to_string(self.dirs);
        let server_info = self.server_info.clone();
        let pid_json = jstr(peer_id.as_str());
        self.m.inp.vers = vers.clone();
        self.m.inp.peer_id = pid_json.clone();
        self.m.inp.cryptosuites = cs.clone();
        self.m.inp.dirs = dirs.clone();
        self.m.inp.server_info = server_info.clone();
        let mut w = Wire::empty();
        w.type_ = Some(2);
        w.vers = Some(vers);
        w.peer_id = Some(pid_json);
        w.cryptosuites = Some(cs);
        w.dirs = Some(dirs);
        w.server_info = Some(server_info);
        let o = send(&w);
        proof {
            assert(r@.len() == 16);
        }
        o
    }

    fn build_waiting(&mut self) -> (o: Outcome)
        ensures
            *final(self) == *old(self),
            send_outcome(
                o,
                WireView { type_: Some(4), peer_id: Some(json_quote(old(self).method().peer_id@)), ..blank() },
            ),
    {
        let mut w = Wire::empty();
        w.type_ = Some(4);
        w.peer_id = Some(jstr(self.m.peer_id.as_str()));
        send(&w)
    }

    fn start_completion(&mut self) -> (o: Outcome)
        requires
            old(self).inv(),
        ensures
            final(self).inv(),
            server_start_completion(*old(self), *final(self), o),
    {
        if self.m.noob.len() == 0 {
            return fail("no OOB processed");
        }
        if self.peer_state == 2 {
            let mut w = Wire::empty();
            w.type_ = Some(5);
            w.peer_id = Some(jstr(self.m.peer_id.as_str()));
            send(&w)
        } else {
            self.build_completion()
        }
    }

    fn build_completion(&mut self) -> (o: Outcome)
        requires
            old(self).inv(),
        ensures
            final(self).inv(),
            server_completion(*old(self), *final(self), o),
    {
        self.m.derive();
        let kms = match &self.m.keym {
            Some(k) => k.kms,
            None => [0u8; 32],
        };
        let macs = compute_mac(&kms, 2, &self.m.inp);
        let mut w = Wire::empty();
        w.type_ = Some(6);
        w.peer_id = Some(jstr(self.m.peer_id.as_str()));
        w.noob_id = Some(b64_json_exec(&self.m.noob_id));
        w.macs = Some(b64_json_exec(&macs));
        send(&w)
    }

    fn on_negotiation(&mut self, w: &Wire) -> (o: Outcome)
        requires
            old(self).inv(),
        ensures
            final(self).inv(),
            server_negotiation_response(*old(self), wire_view(*w), *final(self), o),
    {
        let verp_r = parse_int(&w.verp);
        let csp_r = parse_int(&w.cryptosuitep);
        let dirp_r = parse_int(&w.dirp);
        if !self.check_peer_id(w) {
            return fail("PeerId mismatch");
        }
        let verp = match verp_r {
            Some(v) => v,
            None => -1i64,
        };
        if !contains(&self.versions, verp) {
            return fail("unsupported version");
        }
        let csp = match csp_r {
            Some(v) => v,
            None => -1i64,
        };
        let suite = match Suite::from_id(csp as u8) {
            Some(st) => st,
            None => return fail("unsupported cryptosuite"),
        };
        if !contains(&self.cryptosuites, csp) {
            return fail("unsupported cryptosuite");
        }
        let dirp = match dirp_r {
            Some(v) => v,
            None => -1i64,
        };
        if dirp & self.dirs == 0 || !(1 <= dirp && dirp <= 3) {
            return fail("no mutual OOB direction");
        }
        self.m.suite = Some(suite);
        self.csp = csp;
        self.dirp = dirp;
        self.m.inp.verp = get(&w.verp);
        self.m.inp.cryptosuitep = get(&w.cryptosuitep);
        self.m.inp.dirp = get(&w.dirp);
        self.m.inp.peer_info = ensure_obj(get(&w.peer_info));
        self.m.inp.nai = jstr(self.m.nai.as_str());
        self.build_key_exchange(suite)
    }

    fn build_key_exchange(&mut self, suite: Suite) -> (o: Outcome)
        requires
            old(self).inv(),
        ensures
            final(self).inv(),
            final(self).method().keypair is Some,
            final(self).method().keypair.unwrap().spec_suite() == suite,
            final(self).method().keypair.unwrap().wf(),
            final(self).method().ns@.len() == 32,
            b64_read(final(self).method().ns@),
            final(self).method().inp.pks@ == jwk_text(final(self).method().keypair.unwrap().spec_jwk()),
            final(self).method().inp.ns@ == b64_json(final(self).method().ns@),
            ({
                let (a, b) = (old(self).method(), final(self).method());
                &&& b.inp.vers == a.inp.vers && b.inp.peer_id == a.inp.peer_id && b.inp.verp == a.inp.verp
                &&& b.inp.cryptosuites == a.inp.cryptosuites && b.inp.dirs == a.inp.dirs
                &&& b.inp.server_info == a.inp.server_info && b.inp.cryptosuitep == a.inp.cryptosuitep
                &&& b.inp.dirp == a.inp.dirp && b.inp.nai == a.inp.nai && b.inp.peer_info == a.inp.peer_info
                &&& b.inp.pkp == a.inp.pkp && b.inp.np == a.inp.np && b.inp.noob == a.inp.noob
                &&& b.suite == a.suite && b.peer_id == a.peer_id && b.nai == a.nai && b.z == a.z
                &&& b.np == a.np && b.noob == a.noob && b.noob_id == a.noob_id
                &&& b.noob_b64_json == a.noob_b64_json && b.keym == a.keym
            }),
            server_config_same(*old(self), *final(self)),
            final(self).st() == old(self).st(),
            final(self).spec_peer_state() == old(self).spec_peer_state(),
            final(self).spec_csp() == old(self).spec_csp(),
            final(self).spec_dirp() == old(self).spec_dirp(),
            final(self).spec_assoc() == old(self).spec_assoc(),
            send_outcome(
                o,
                WireView {
                    type_: Some(3),
                    peer_id: Some(json_quote(old(self).method().peer_id@)),
                    pks: Some(final(self).method().inp.pks@),
                    ns: Some(final(self).method().inp.ns@),
                    ..blank()
                },
            ),
    {
        let kp = suite.generate();
        let pks = jwk_json(kp.jwk());
        let ns = random_nonce_32();
        let mut nsv: Vec<u8> = Vec::new();
        nsv.extend_from_slice(&ns);
        let ns_json = b64_json_exec(&ns);
        proof {
            assert(nsv@ =~= ns@);
        }
        self.m.ns = nsv;
        self.m.inp.pks = pks.clone();
        self.m.inp.ns = ns_json.clone();
        self.m.keypair = Some(kp);
        let mut w = Wire::empty();
        w.type_ = Some(3);
        w.peer_id = Some(jstr(self.m.peer_id.as_str()));
        w.pks = Some(pks);
        w.ns = Some(ns_json);
        send(&w)
    }

    fn on_key_exchange(&mut self, w: &Wire) -> (o: Outcome)
        requires
            old(self).inv(),
            !server_would_abort(*old(self), wire_view(*w)),
            w.error_code is None,
            w.type_ == Some(3i64),
        ensures
            final(self).inv(),
            server_key_exchange(*old(self), wire_view(*w), *final(self), o),
    {
        let pkp_text = get(&w.pkp);
        let jwk_r = parse_jwk(pkp_text.as_str().as_bytes());
        let np_r = parse_str(&w.np);
        if !self.check_peer_id(w) {
            return fail("PeerId mismatch");
        }
        let jwk = match jwk_r {
            Some(j) => j,
            None => return fail("bad PKp"),
        };
        let z = match &self.m.keypair {
            Some(kp) => match kp.compute_z(&jwk) {
                Ok(z) => z,
                Err(_) => return fail("ECDHE failure"),
            },
            None => {
                proof {
                    assert(false);
                }
                return fail("ECDHE failure");
            },
        };
        let np_b64 = match np_r {
            Some(t) => t,
            None => return fail("bad Np"),
        };
        let np = match b64url_decode(np_b64.as_str()) {
            Some(n) => n,
            None => return fail("bad Np encoding"),
        };
        self.m.np = np;
        self.m.z = z;
        self.m.inp.pkp = pkp_text;
        self.m.inp.np = get(&w.np);
        self.state = State::Waiting;
        Outcome { send: Some(result_bytes("failure")), done: true, success: false, error: None, error_code: None }
    }

    fn on_noob_id(&mut self, w: &Wire) -> (o: Outcome)
        requires
            old(self).inv(),
        ensures
            final(self).inv(),
            server_noob_id(*old(self), wire_view(*w), *final(self), o),
    {
        let got = b64_field(&w.noob_id);
        if !self.check_peer_id(w) {
            return fail("PeerId mismatch");
        }
        if !bytes_eq16(&got, &self.m.noob_id) {
            return fail_code(error_code::UNRECOGNIZED_OOB_MSG_ID, "unrecognized NoobId");
        }
        self.build_completion()
    }

    fn on_completion(&mut self, w: &Wire) -> (o: Outcome)
        requires
            old(self).inv(),
            !server_would_abort(*old(self), wire_view(*w)),
            w.error_code is None,
            w.type_ == Some(6i64),
        ensures
            final(self).inv(),
            server_completion_response(*old(self), wire_view(*w), *final(self), o),
    {
        let macp = b64_field(&w.macp);
        if !self.check_peer_id(w) {
            return fail("PeerId mismatch");
        }
        let (kmp, kz) = match &self.m.keym {
            Some(k) => (k.kmp, k.kz),
            None => {
                proof {
                    assert(false);
                }
                return fail("MACp verification failed");
            },
        };
        let expected = compute_mac(&kmp, 1, &self.m.inp);
        if !mac_equal(macp.as_slice(), &expected) {
            return fail_code(error_code::HMAC_VERIFICATION_FAILED, "MACp verification failed");
        }
        self.assoc = Some(
            Association { peer_id: self.m.peer_id.clone(), nai: self.m.nai.clone(), cryptosuitep: self.csp as u8, kz },
        );
        self.state = State::Registered;
        Outcome { send: Some(result_bytes("success")), done: true, success: true, error: None, error_code: None }
    }

    fn done_failure(&self) -> (o: Outcome)
        ensures
            outcome_is(o, Some(wire_bytes(result_view("failure"@))), true, false, None, None),
    {
        Outcome { send: Some(result_bytes("failure")), done: true, success: false, error: None, error_code: None }
    }

    /// Server-to-peer OOB using a caller-supplied 16-byte Noob (PIN-derived).
    /// Requires Waiting state and a negotiated direction including
    /// server-to-peer.
    pub fn oob_output_with(&mut self, noob: &[u8]) -> (r: Result<(), OobError>)
        requires
            old(self).inv(),
        ensures
            final(self).inv(),
            r == oob_check(old(self).st(), old(self).spec_dirp(), noob@.len()),
            r is Ok ==> noob_set(old(self).method(), final(self).method(), noob@),
            r is Err ==> *final(self) == *old(self),
            final(self).st() == old(self).st() && server_config_same(*old(self), *final(self))
                && final(self).spec_peer_state() == old(self).spec_peer_state()
                && final(self).spec_csp() == old(self).spec_csp()
                && final(self).spec_dirp() == old(self).spec_dirp()
                && final(self).spec_assoc() == old(self).spec_assoc(),
    {
        if self.state != State::Waiting {
            return Err(OobError::NotWaiting);
        }
        if !(self.dirp == 2 || self.dirp == 3) {
            return Err(OobError::DirectionNotNegotiated);
        }
        if noob.len() != 16 {
            return Err(OobError::BadNoobLength);
        }
        self.m.set_noob(noob);
        Ok(())
    }
}

// --- Peer ------------------------------------------------------------------

/// The highest version the server offers that the peer supports.
pub open spec fn spec_best_version(server: Seq<i64>, peer: Seq<i64>) -> Option<i64>
    decreases server.len(),
{
    if server.len() == 0 {
        None
    } else {
        let v = server.last();
        let rest = spec_best_version(server.drop_last(), peer);
        if occurs(peer, v) && (rest is None || v >= rest.unwrap()) {
            Some(v)
        } else {
            rest
        }
    }
}

fn best_version(server: &Vec<i64>, peer: &Vec<i64>) -> (r: Option<i64>)
    ensures
        r == spec_best_version(server@, peer@),
{
    let mut best: Option<i64> = None;
    let mut i: usize = 0;
    while i < server.len()
        invariant
            i <= server@.len(),
            best == spec_best_version(server@.subrange(0, i as int), peer@),
        decreases server@.len() - i,
    {
        let v = server[i];
        proof {
            assert(server@.subrange(0, i + 1).drop_last() =~= server@.subrange(0, i as int));
        }
        let take = contains(peer, v) && match best {
            Some(b) => v >= b,
            None => true,
        };
        if take {
            best = Some(v);
        }
        i = i + 1;
    }
    proof {
        assert(server@.subrange(0, server@.len() as int) =~= server@);
    }
    best
}

/// The first cryptosuite the server offers that the peer supports and knows.
pub open spec fn spec_first_supported(server: Seq<i64>, peer: Seq<i64>) -> Option<i64>
    decreases server.len(),
{
    if server.len() == 0 {
        None
    } else if occurs(peer, server[0]) && suite_of(server[0] as u8) is Some {
        Some(server[0])
    } else {
        spec_first_supported(server.drop_first(), peer)
    }
}

fn first_supported(server: &Vec<i64>, peer: &Vec<i64>) -> (r: Option<i64>)
    ensures
        r == spec_first_supported(server@, peer@),
{
    let mut i: usize = 0;
    proof {
        assert(server@.subrange(0, server@.len() as int) =~= server@);
    }
    while i < server.len()
        invariant
            i <= server@.len(),
            spec_first_supported(server@, peer@) == spec_first_supported(
                server@.subrange(i as int, server@.len() as int),
                peer@,
            ),
        decreases server@.len() - i,
    {
        let c = server[i];
        proof {
            let t = server@.subrange(i as int, server@.len() as int);
            assert(t[0] == c);
            assert(t.drop_first() =~= server@.subrange(i + 1, server@.len() as int));
        }
        if contains(peer, c) && Suite::from_id(c as u8).is_some() {
            return Some(c);
        }
        i = i + 1;
    }
    None
}

/// The OOB direction the peer picks among the server's.
pub open spec fn spec_choose_dir(server_dirs: i64, prefer: i64) -> Option<i64> {
    if server_dirs == 1 {
        Some(1)
    } else if server_dirs == 2 {
        Some(2)
    } else if server_dirs == 3 {
        Some(
            if prefer == 1 || prefer == 2 {
                prefer
            } else {
                2
            },
        )
    } else {
        None
    }
}

fn choose_dir(server_dirs: i64, prefer: i64) -> (r: Option<i64>)
    ensures
        r == spec_choose_dir(server_dirs, prefer),
{
    match server_dirs {
        1 => Some(1),
        2 => Some(2),
        3 => Some(
            if prefer == 1 || prefer == 2 {
                prefer
            } else {
                2
            },
        ),
        _ => None,
    }
}

/// The EAP-NOOB peer (the joining side).
pub struct Peer {
    versions: Vec<i64>,
    cryptosuites: Vec<i64>,
    prefer_dir: i64,
    state: State,
    m: Method,
    csp: i64,
    dirp: i64,
    peer_info: String,
    assoc: Option<Association>,
}

impl Peer {
    /// The association state.
    pub closed spec fn st(&self) -> State {
        self.state
    }

    /// The accumulated association values.
    pub closed spec fn method(&self) -> Method {
        self.m
    }

    /// Supported versions.
    pub closed spec fn spec_versions(&self) -> Seq<i64> {
        self.versions@
    }

    /// Supported cryptosuites.
    pub closed spec fn spec_suites(&self) -> Seq<i64> {
        self.cryptosuites@
    }

    /// The preferred OOB direction.
    pub closed spec fn spec_prefer_dir(&self) -> i64 {
        self.prefer_dir
    }

    /// The negotiated cryptosuite.
    pub closed spec fn spec_csp(&self) -> i64 {
        self.csp
    }

    /// The negotiated OOB direction.
    pub closed spec fn spec_dirp(&self) -> i64 {
        self.dirp
    }

    /// The PeerInfo JSON sent to the server.
    pub closed spec fn spec_peer_info(&self) -> Seq<char> {
        self.peer_info@
    }

    /// The completed association.
    pub closed spec fn spec_assoc(&self) -> Option<Association> {
        self.assoc
    }

    /// The key pair, when present, matches its secret.
    pub closed spec fn inv(&self) -> bool {
        self.m.wf()
    }
}

/// The configuration of the peer is unchanged.
pub open spec fn peer_config_same(a: Peer, b: Peer) -> bool {
    &&& a.spec_versions() == b.spec_versions() && a.spec_suites() == b.spec_suites()
    &&& a.spec_prefer_dir() == b.spec_prefer_dir() && a.spec_peer_info() == b.spec_peer_info()
}

/// The terminating EAP result: success registers the association.
pub open spec fn peer_result(old: Peer, eap: Seq<char>, new: Peer, out: Outcome) -> bool {
    if eap == "success"@ {
        let m = old.method();
        &&& new.st() == State::Registered
        &&& new.spec_assoc() is Some
        &&& new.spec_assoc().unwrap().peer_id@ == m.peer_id@
        &&& new.spec_assoc().unwrap().nai@ == m.nai@
        &&& new.spec_assoc().unwrap().cryptosuitep == old.spec_csp() as u8
        &&& new.spec_assoc().unwrap().kz@ == (match m.keym {
            Some(k) => k.kz@,
            None => seq![0u8; 32],
        })
        &&& new.method() == m && peer_config_same(old, new)
        &&& new.spec_csp() == old.spec_csp() && new.spec_dirp() == old.spec_dirp()
        &&& outcome_is(out, None, true, true, None, None)
    } else {
        new == old && outcome_is(out, None, true, false, None, None)
    }
}

/// The Discovery response: state, NAI, and PeerId once assigned.
pub open spec fn peer_discovery_response(p: Peer) -> WireView {
    WireView {
        type_: Some(1),
        peer_state: Some(state_num(p.st())),
        nai: Some(json_quote(p.method().nai@)),
        peer_id: if p.st() != State::Unregistered && p.method().peer_id@.len() > 0 {
            Some(json_quote(p.method().peer_id@))
        } else {
            None
        },
        ..blank()
    }
}

/// The Negotiation request handling: the PeerId is adopted, then version,
/// cryptosuite and direction are chosen and the Negotiation response is sent.
pub open spec fn peer_negotiation(old: Peer, w: WireView, new: Peer, out: Outcome) -> bool {
    let svers = match ints_of(w.vers) {
        Some(v) => v,
        None => seq![],
    };
    let scs = match ints_of(w.cryptosuites) {
        Some(v) => v,
        None => seq![],
    };
    let sdirs = match int_of(w.dirs) {
        Some(v) => v,
        None => -1i64,
    };
    let verp = spec_best_version(svers, old.spec_versions());
    let csp = spec_first_supported(scs, old.spec_suites());
    let dirp = spec_choose_dir(sdirs, old.spec_prefer_dir());
    let m = old.method();
    let nm = new.method();
    &&& quote_read(w.peer_id) && ints_read(w.vers) && ints_read(w.cryptosuites) && int_read(w.dirs)
    &&& if str_of(w.peer_id) is None {
        new == old && fail_outcome(out, error_code::INVALID_DATA, "bad PeerId"@)
    } else if verp is None || csp is None || dirp is None {
        &&& nm.peer_id@ == str_of(w.peer_id).unwrap()
        &&& nm.suite == m.suite && nm.keypair == m.keypair && nm.nai == m.nai && nm.z == m.z
        &&& nm.ns == m.ns && nm.np == m.np && nm.noob == m.noob && nm.noob_id == m.noob_id
        &&& nm.noob_b64_json == m.noob_b64_json && nm.keym == m.keym && nm.inp == m.inp
        &&& peer_config_same(old, new) && new.st() == old.st() && new.spec_csp() == old.spec_csp()
        &&& new.spec_dirp() == old.spec_dirp() && new.spec_assoc() == old.spec_assoc()
        &&& if verp is None {
            fail_outcome(out, error_code::INVALID_DATA, "no common version"@)
        } else if csp is None {
            fail_outcome(out, error_code::INVALID_DATA, "no common cryptosuite"@)
        } else {
            fail_outcome(out, error_code::INVALID_DATA, "no mutual OOB direction"@)
        }
    } else {
        let pid = str_of(w.peer_id).unwrap();
        let nai = match str_of(w.new_nai) {
            Some(n) => n,
            None => m.nai@,
        };
        &&& nm.peer_id@ == pid
        &&& nm.suite == suite_of(csp.unwrap() as u8)
        &&& new.spec_csp() == csp.unwrap() && new.spec_dirp() == dirp.unwrap()
        &&& nm.nai@ == nai
        &&& nm.inp.vers@ == get_text(w.vers) && nm.inp.peer_id@ == get_text(w.peer_id)
        &&& nm.inp.cryptosuites@ == get_text(w.cryptosuites) && nm.inp.dirs@ == get_text(w.dirs)
        &&& nm.inp.server_info@ == ensure_obj_text(get_text(w.server_info))
        &&& nm.inp.verp@ == int_str(verp.unwrap() as int)
        &&& nm.inp.cryptosuitep@ == int_str(csp.unwrap() as int)
        &&& nm.inp.dirp@ == int_str(dirp.unwrap() as int)
        &&& nm.inp.peer_info@ == old.spec_peer_info()
        &&& nm.inp.nai@ == json_quote(nai)
        &&& nm.inp.pks == m.inp.pks && nm.inp.ns == m.inp.ns && nm.inp.pkp == m.inp.pkp
        &&& nm.inp.np == m.inp.np && nm.inp.noob == m.inp.noob
        &&& nm.keypair == m.keypair && nm.z == m.z && nm.ns == m.ns && nm.np == m.np
        &&& nm.noob == m.noob && nm.noob_id == m.noob_id && nm.noob_b64_json == m.noob_b64_json
        &&& nm.keym == m.keym
        &&& peer_config_same(old, new) && new.st() == old.st() && new.spec_assoc() == old.spec_assoc()
        &&& send_outcome(
            out,
            WireView {
                type_: Some(2),
                verp: Some(int_str(verp.unwrap() as int)),
                peer_id: Some(json_quote(pid)),
                cryptosuitep: Some(int_str(csp.unwrap() as int)),
                dirp: Some(int_str(dirp.unwrap() as int)),
                peer_info: Some(old.spec_peer_info()),
                ..blank()
            },
        )
    }
}

/// The Ns carried in a KeyExchange request, when it decodes.
pub open spec fn ns_of(w: WireView) -> Option<Seq<u8>> {
    match str_of(w.ns) {
        Some(t) => b64url_decoded(t),
        None => None,
    }
}

/// The KeyExchange request handling: a key pair of the negotiated suite is
/// generated, Z computed against PKs, Np generated, and the peer waits for the
/// out-of-band step.
pub open spec fn peer_key_exchange(old: Peer, w: WireView, new: Peer, out: Outcome) -> bool {
    let jwk = jwk_from_text(encode_utf8(get_text(w.pks)));
    let m = old.method();
    let nm = new.method();
    &&& jwk_read(get_text(w.pks)) && quote_read(w.ns)
    &&& if jwk is None {
        new == old && fail_outcome(out, error_code::INVALID_DATA, "bad PKs"@)
    } else if ns_of(w) is None {
        new == old && fail_outcome(out, error_code::INVALID_DATA, "bad Ns"@)
    } else {
        ||| {
            &&& new == old
            &&& fail_outcome(out, error_code::INVALID_DATA, "ECDHE failure"@)
            &&& exists|kp: KeyPair|
                kp.spec_suite() == m.suite.unwrap() && kp.wf() && spec_compute_z(
                    kp.spec_suite(),
                    kp.spec_secret(),
                    jwk.unwrap(),
                ) is Err
            &&& forall|other: KeyPair|
                other.wf() && other.spec_suite() == m.suite.unwrap() ==> jwk.unwrap() != crate::pairing::suite::jwk_view(
                    #[trigger] other.spec_jwk(),
                )
        }
        ||| {
            let kp = nm.keypair.unwrap();
            &&& nm.keypair is Some && kp.spec_suite() == m.suite.unwrap() && kp.wf()
            &&& Ok::<Seq<u8>, crate::pairing::suite::EcdhError>(nm.z@) == spec_compute_z(
                kp.spec_suite(),
                kp.spec_secret(),
                jwk.unwrap(),
            )
            &&& forall|other: KeyPair|
                other.wf() && other.spec_suite() == kp.spec_suite() && jwk.unwrap() == crate::pairing::suite::jwk_view(
                    #[trigger] other.spec_jwk(),
                ) ==> spec_compute_z(
                    other.spec_suite(),
                    other.spec_secret(),
                    crate::pairing::suite::jwk_view(kp.spec_jwk()),
                ) == Ok::<Seq<u8>, crate::pairing::suite::EcdhError>(nm.z@)
            &&& nm.ns@ == ns_of(w).unwrap()
            &&& nm.np@.len() == 32 && b64_read(nm.np@)
            &&& nm.inp.pks@ == get_text(w.pks) && nm.inp.ns@ == get_text(w.ns)
            &&& nm.inp.pkp@ == jwk_text(kp.spec_jwk()) && nm.inp.np@ == b64_json(nm.np@)
            &&& new.st() == State::Waiting
            &&& nm.suite == m.suite && nm.peer_id == m.peer_id && nm.nai == m.nai && nm.noob == m.noob
            &&& nm.noob_id == m.noob_id && nm.noob_b64_json == m.noob_b64_json && nm.keym == m.keym
            &&& nm.inp.vers == m.inp.vers && nm.inp.verp == m.inp.verp && nm.inp.peer_id == m.inp.peer_id
            &&& nm.inp.cryptosuites == m.inp.cryptosuites && nm.inp.dirs == m.inp.dirs
            &&& nm.inp.server_info == m.inp.server_info && nm.inp.cryptosuitep == m.inp.cryptosuitep
            &&& nm.inp.dirp == m.inp.dirp && nm.inp.nai == m.inp.nai && nm.inp.peer_info == m.inp.peer_info
            &&& nm.inp.noob == m.inp.noob
            &&& peer_config_same(old, new) && new.spec_csp() == old.spec_csp()
            &&& new.spec_dirp() == old.spec_dirp() && new.spec_assoc() == old.spec_assoc()
            &&& send_outcome(
                out,
                WireView {
                    type_: Some(3),
                    peer_id: Some(json_quote(m.peer_id@)),
                    pkp: Some(nm.inp.pkp@),
                    np: Some(nm.inp.np@),
                    ..blank()
                },
            )
        }
    }
}

/// The Completion request handling: the NoobId must be the peer's (else a
/// wrong-PIN failure), keys are derived, MACs must verify under Kms (else a
/// wrong-PIN failure), and MACp under Kmp is sent.
pub open spec fn peer_completion(old: Peer, w: WireView, new: Peer, out: Outcome) -> bool {
    let m = old.method();
    let nm = new.method();
    &&& quote_read(w.noob_id) && quote_read(w.macs)
    &&& if m.noob@.len() == 0 {
        new == old && fail_outcome(out, error_code::INVALID_DATA, "no OOB processed"@)
    } else if b64_member(w.noob_id) != m.noob_id@ {
        new == old && fail_outcome(out, error_code::UNRECOGNIZED_OOB_MSG_ID, "unrecognized NoobId"@)
    } else {
        &&& nm.keym is Some
        &&& completion_keys(m.z@, m.np@, m.ns@, m.noob@, nm.keym.unwrap())
        &&& same_but_keys(m, nm)
        &&& peer_config_same(old, new) && new.st() == old.st() && new.spec_csp() == old.spec_csp()
        &&& new.spec_dirp() == old.spec_dirp() && new.spec_assoc() == old.spec_assoc()
        &&& if b64_member(w.macs) != spec_compute_mac(nm.keym.unwrap().kms@, 2, m.inp) {
            fail_outcome(out, error_code::HMAC_VERIFICATION_FAILED, "MACs verification failed"@)
        } else {
            &&& b64_read(spec_compute_mac(nm.keym.unwrap().kmp@, 1, m.inp))
            &&& send_outcome(
                out,
                WireView {
                    type_: Some(6),
                    peer_id: Some(json_quote(m.peer_id@)),
                    macp: Some(b64_json(spec_compute_mac(nm.keym.unwrap().kmp@, 1, m.inp))),
                    ..blank()
                },
            )
        }
    }
}

/// The peer would abort on this message: a KeyExchange request before any
/// cryptosuite is negotiated.
pub open spec fn peer_would_abort(p: Peer, w: WireView) -> bool {
    &&& w.eap is None && w.error_code is None && w.type_ == Some(3i64)
    &&& jwk_from_text(encode_utf8(get_text(w.pks))) is Some
    &&& ns_of(w) is Some
    &&& p.method().suite is None
}

/// The peer can process `input` without aborting.
pub open spec fn peer_accepts(p: Peer, input: Seq<u8>) -> bool {
    forall|w: Wire| parsed(input, w) ==> !peer_would_abort(p, wire_view(w))
}

/// One step of the peer on the message `w`.
pub open spec fn peer_step_on(old: Peer, w: WireView, new: Peer, out: Outcome) -> bool {
    let m = old.method();
    if w.eap is Some {
        peer_result(old, w.eap.unwrap(), new, out)
    } else if w.error_code is Some {
        new == old && outcome_is(
            out,
            None,
            true,
            false,
            Some(peer_error_text(w.error_code.unwrap(), w.error_info)),
            w.error_code,
        )
    } else if w.type_ == Some(1i64) {
        new == old && send_outcome(out, peer_discovery_response(old))
    } else if w.type_ == Some(2i64) {
        peer_negotiation(old, w, new, out)
    } else if w.type_ == Some(3i64) {
        peer_key_exchange(old, w, new, out)
    } else if w.type_ == Some(4i64) {
        new == old && send_outcome(
            out,
            WireView { type_: Some(4), peer_id: Some(json_quote(m.peer_id@)), ..blank() },
        )
    } else if w.type_ == Some(5i64) {
        new == old && if m.noob@.len() == 0 {
            fail_outcome(out, error_code::INVALID_DATA, "no OOB received"@)
        } else {
            b64_read(m.noob_id@) && send_outcome(
                out,
                WireView {
                    type_: Some(5),
                    peer_id: Some(json_quote(m.peer_id@)),
                    noob_id: Some(b64_json(m.noob_id@)),
                    ..blank()
                },
            )
        }
    } else if w.type_ == Some(6i64) {
        peer_completion(old, w, new, out)
    } else {
        new == old && fail_outcome(out, error_code::INVALID_DATA, "unexpected type"@)
    }
}

/// One step of the peer on `input`.
pub open spec fn peer_step(old: Peer, input: Seq<u8>, new: Peer, out: Outcome) -> bool {
    if !parses(input) {
        new == old && fail_outcome(out, error_code::INVALID_DATA, "malformed JSON"@)
    } else {
        forall|wm: Wire| #[trigger] parsed(input, wm) ==> peer_step_on(old, wire_view(wm), new, out)
    }
}

impl Peer {
    /// A peer supporting version 1 and cryptosuites `[1, 2]`, preferring
    /// server-to-peer OOB, with the default NAI and an empty PeerInfo object.
    pub fn new() -> (p: Peer)
        ensures
            p.inv(),
            p.st() == State::Unregistered,
            p.spec_versions() == seq![1i64],
            p.spec_suites() == seq![1i64, 2i64],
            p.spec_prefer_dir() == 2,
            p.spec_peer_info() == "{}"@,
            p.spec_assoc() is None,
            p.spec_csp() == 0 && p.spec_dirp() == 0,
            p.method().nai@ == default_nai(),
            p.method().peer_id@.len() == 0 && p.method().noob@.len() == 0,
            p.method().keypair is None && p.method().keym is None && p.method().suite is None,
    {
        let versions: Vec<i64> = vec![1i64];
        let cryptosuites: Vec<i64> = vec![1i64, 2i64];
        proof {
            assert(versions@ =~= seq![1i64]);
            assert(cryptosuites@ =~= seq![1i64, 2i64]);
        }
        Peer {
            versions,
            cryptosuites,
            prefer_dir: 2,
            state: State::Unregistered,
            m: Method::new(default_nai_string()),
            csp: 0,
            dirp: 0,
            peer_info: String::from_str("{}"),
            assoc: None,
        }
    }

    /// Carry a JSON PeerInfo object (e.g. this node's PairingInfo) that the
    /// server authenticates via the Completion MAC.
    pub fn with_peer_info(self, info_json: String) -> (p: Peer)
        ensures
            p.spec_peer_info() == info_json@,
            p.st() == self.st() && p.method() == self.method() && p.spec_versions() == self.spec_versions()
                && p.spec_suites() == self.spec_suites() && p.spec_prefer_dir() == self.spec_prefer_dir()
                && p.spec_assoc() == self.spec_assoc() && p.spec_csp() == self.spec_csp()
                && p.spec_dirp() == self.spec_dirp(),
            self.inv() ==> p.inv(),
    {
        let mut p = self;
        p.peer_info = info_json;
        p
    }

    /// The association state.
    pub fn state(&self) -> (r: State)
        ensures
            r == self.st(),
    {
        self.state
    }

    /// The completed association, once Registered.
    pub fn association(&self) -> (r: Option<&Association>)
        ensures
            match r {
                Some(a) => self.spec_assoc() == Some(*a),
                None => self.spec_assoc() is None,
            },
    {
        self.assoc.as_ref()
    }

    /// The server's authenticated ServerInfo (verbatim JSON), valid once
    /// Registered.
    pub fn server_info(&self) -> (r: &str)
        ensures
            r@ == self.method().inp.server_info@,
    {
        self.m.inp.server_info.as_str()
    }

    /// Whether the peer can process `input` without aborting (see
    /// [`Peer::receive`]).
    pub fn can_receive(&self, input: &[u8]) -> (r: bool)
        ensures
            r == peer_accepts(*self, input@),
    {
        let wm = match from_bytes(input) {
            Some(w) => w,
            None => return true,
        };
        let ns_ok = match parse_str(&wm.ns) {
            Some(t) => b64url_decode(t.as_str()).is_some(),
            None => false,
        };
        let aborts = wm.eap.is_none() && wm.error_code.is_none() && wm.type_ == Some(3i64) && parse_jwk(
            get(&wm.pks).as_str().as_bytes(),
        ).is_some() && ns_ok && self.m.suite.is_none();
        proof {
            assert forall|w2: Wire| parsed(input@, w2) implies wire_view(w2) == wire_view(wm) by {
                lemma_parsed_unique(input@, w2, wm);
            }
        }
        !aborts
    }

    /// Process one message from the server. Requires that the message does not
    /// make the peer abort ([`Peer::can_receive`]): a KeyExchange request
    /// before any cryptosuite is negotiated.
    pub fn receive(&mut self, input: &[u8]) -> (o: Outcome)
        requires
            old(self).inv(),
            peer_accepts(*old(self), input@),
        ensures
            final(self).inv(),
            peer_step(*old(self), input@, *final(self), o),
            reads_back(input@),
    {
        let wm = match from_bytes(input) {
            Some(w) => w,
            None => return fail("malformed JSON"),
        };
        proof {
            assert forall|w: WireView| wire_flat(w) && input@ == #[trigger] wire_bytes(w) implies parses(input@) && (exists|wm2: Wire| parsed(input@, wm2)) && forall|wm2: Wire|
                parsed(input@, wm2) ==> wire_view(wm2) == w by {
                assert(parsed(input@, wm));
                assert forall|wm2: Wire| parsed(input@, wm2) implies wire_view(wm2) == w by {
                    lemma_parsed_unique(input@, wm2, wm);
                }
            }
            assert forall|w2: Wire| parsed(input@, w2) implies wire_view(w2) == wire_view(wm) by {
                lemma_parsed_unique(input@, w2, wm);
            }
            assert(!peer_would_abort(*old(self), wire_view(wm)));
        }
        if let Some(eap) = &wm.eap {
            return self.on_result(eap.as_str());
        }
        if let Some(code) = wm.error_code {
            return error_notification(code, &wm.error_info);
        }
        if wm.type_ == Some(1i64) {
            self.on_discovery()
        } else if wm.type_ == Some(2i64) {
            self.on_negotiation(&wm)
        } else if wm.type_ == Some(3i64) {
            self.on_key_exchange(&wm)
        } else if wm.type_ == Some(4i64) {
            self.on_waiting()
        } else if wm.type_ == Some(5i64) {
            self.on_noob_id()
        } else if wm.type_ == Some(6i64) {
            self.on_completion(&wm)
        } else {
            fail("unexpected type")
        }
    }

    fn on_result(&mut self, eap: &str) -> (o: Outcome)
        requires
            old(self).inv(),
        ensures
            final(self).inv(),
            peer_result(*old(self), eap@, *final(self), o),
    {
        if str_eq(eap, "success") {
            let kz = match &self.m.keym {
                Some(k) => k.kz,
                None => [0u8; 32],
            };
            proof {
                if self.m.keym is None {
                    assert(kz@ =~= seq![0u8; 32]);
                }
            }
            self.assoc = Some(
                Association { peer_id: self.m.peer_id.clone(), nai: self.m.nai.clone(), cryptosuitep: self.csp as u8, kz },
            );
            self.state = State::Registered;
            Outcome { send: None, done: true, success: true, error: None, error_code: None }
        } else {
            Outcome { send: None, done: true, success: false, error: None, error_code: None }
        }
    }

    fn on_discovery(&mut self) -> (o: Outcome)
        ensures
            *final(self) == *old(self),
            send_outcome(o, peer_discovery_response(*old(self))),
    {
        let mut w = Wire::empty();
        w.type_ = Some(1);
        w.peer_state = Some(state_i64(self.state));
        w.nai = Some(jstr(self.m.nai.as_str()));
        if self.state != State::Unregistered && self.m.peer_id.as_str().unicode_len() > 0 {
            w.peer_id = Some(jstr(self.m.peer_id.as_str()));
        }
        proof {
            assert(wire_view(w) =~= peer_discovery_response(*self));
        }
        send(&w)
    }

    fn on_negotiation(&mut self, w: &Wire) -> (o: Outcome)
        requires
            old(self).inv(),
        ensures
            final(self).inv(),
            peer_negotiation(*old(self), wire_view(*w), *final(self), o),
    {
        let svers_r = parse_ints(&w.vers);
        let scs_r = parse_ints(&w.cryptosuites);
        let sdirs_r = parse_int(&w.dirs);
        let peer_id = match parse_str(&w.peer_id) {
            Some(p) => p,
            None => return fail("bad PeerId"),
        };
        self.m.peer_id = peer_id.clone();
        let svers = match svers_r {
            Some(v) => v,
            None => Vec::new(),
        };
        let scs = match scs_r {
            Some(v) => v,
            None => Vec::new(),
        };
        let sdirs = match sdirs_r {
            Some(v) => v,
            None => -1i64,
        };
        proof {
            assert(svers@ == (match ints_of(wire_view(*w).vers) {
                Some(v) => v,
                None => seq![],
            }));
            assert(scs@ == (match ints_of(wire_view(*w).cryptosuites) {
                Some(v) => v,
                None => seq![],
            }));
        }
        let verp = match best_version(&svers, &self.versions) {
            Some(v) => v,
            None => return fail("no common version"),
        };
        let csp = match first_supported(&scs, &self.cryptosuites) {
            Some(c) => c,
            None => return fail("no common cryptosuite"),
        };
        let dirp = match choose_dir(sdirs, self.prefer_dir) {
            Some(d) => d,
            None => return fail("no mutual OOB direction"),
        };
        self.m.suite = Suite::from_id(csp as u8);
        self.csp = csp;
        self.dirp = dirp;
        match parse_str(&w.new_nai) {
            Some(n) => {
                self.m.nai = n;
            },
            None => {},
        }
        let peer_info = self.peer_info.clone();
        let verp_s = i64_to_string(verp);
        let csp_s = i64_to_string(csp);
        let dirp_s = i64_to_string(dirp);
        let pid_json = jstr(peer_id.as_str());
        self.m.inp.vers = get(&w.vers);
        self.m.inp.peer_id = get(&w.peer_id);
        self.m.inp.cryptosuites = get(&w.cryptosuites);
        self.m.inp.dirs = get(&w.dirs);
        self.m.inp.server_info = ensure_obj(get(&w.server_info));
        self.m.inp.verp = verp_s.clone();
        self.m.inp.cryptosuitep = csp_s.clone();
        self.m.inp.dirp = dirp_s.clone();
        self.m.inp.peer_info = peer_info.clone();
        self.m.inp.nai = jstr(self.m.nai.as_str());
        let mut out = Wire::empty();
        out.type_ = Some(2);
        out.verp = Some(verp_s);
        out.peer_id = Some(pid_json);
        out.cryptosuitep = Some(csp_s);
        out.dirp = Some(dirp_s);
        out.peer_info = Some(peer_info);
        send(&out)
    }

    fn on_key_exchange(&mut self, w: &Wire) -> (o: Outcome)
        requires
            old(self).inv(),
            !peer_would_abort(*old(self), wire_view(*w)),
            w.eap is None && w.error_code is None && w.type_ == Some(3i64),
        ensures
            final(self).inv(),
            peer_key_exchange(*old(self), wire_view(*w), *final(self), o),
    {
        let jwk_r = parse_jwk(get(&w.pks).as_str().as_bytes());
        let ns_r = parse_str(&w.ns);
        let jwk = match jwk_r {
            Some(j) => j,
            None => return fail("bad PKs"),
        };
        let ns = match ns_r {
            Some(t) => match b64url_decode(t.as_str()) {
                Some(n) => n,
                None => return fail("bad Ns"),
            },
            None => return fail("bad Ns"),
        };
        let suite = match self.m.suite {
            Some(st) => st,
            None => {
                proof {
                    assert(false);
                }
                return fail("bad Ns");
            },
        };
        let kp = suite.generate();
        let z = match kp.compute_z(&jwk) {
            Ok(z) => z,
            Err(_) => return fail("ECDHE failure"),
        };
        let np = random_nonce_32();
        let pkp = jwk_json(kp.jwk());
        let np_json = b64_json_exec(&np);
        let mut npv: Vec<u8> = Vec::new();
        npv.extend_from_slice(&np);
        proof {
            assert(npv@ =~= np@);
        }
        self.m.keypair = Some(kp);
        self.m.z = z;
        self.m.ns = ns;
        self.m.np = npv;
        self.m.inp.pks = get(&w.pks);
        self.m.inp.ns = get(&w.ns);
        self.m.inp.pkp = pkp.clone();
        self.m.inp.np = np_json.clone();
        let mut out = Wire::empty();
        out.type_ = Some(3);
        out.peer_id = Some(jstr(self.m.peer_id.as_str()));
        out.pkp = Some(pkp);
        out.np = Some(np_json);
        self.state = State::Waiting;
        send(&out)
    }

    fn on_waiting(&mut self) -> (o: Outcome)
        ensures
            *final(self) == *old(self),
            send_outcome(
                o,
                WireView { type_: Some(4), peer_id: Some(json_quote(old(self).method().peer_id@)), ..blank() },
            ),
    {
        let mut w = Wire::empty();
        w.type_ = Some(4);
        w.peer_id = Some(jstr(self.m.peer_id.as_str()));
        send(&w)
    }

    fn on_noob_id(&mut self) -> (o: Outcome)
        ensures
            *final(self) == *old(self),
            if old(self).method().noob@.len() == 0 {
                fail_outcome(o, error_code::INVALID_DATA, "no OOB received"@)
            } else {
                b64_read(old(self).method().noob_id@) && send_outcome(
                    o,
                    WireView {
                        type_: Some(5),
                        peer_id: Some(json_quote(old(self).method().peer_id@)),
                        noob_id: Some(b64_json(old(self).method().noob_id@)),
                        ..blank()
                    },
                )
            },
    {
        if self.m.noob.len() == 0 {
            return fail("no OOB received");
        }
        let mut w = Wire::empty();
        w.type_ = Some(5);
        w.peer_id = Some(jstr(self.m.peer_id.as_str()));
        w.noob_id = Some(b64_json_exec(&self.m.noob_id));
        send(&w)
    }

    fn on_completion(&mut self, w: &Wire) -> (o: Outcome)
        requires
            old(self).inv(),
        ensures
            final(self).inv(),
            peer_completion(*old(self), wire_view(*w), *final(self), o),
    {
        let got = b64_field(&w.noob_id);
        let macs = b64_field(&w.macs);
        if self.m.noob.len() == 0 {
            return fail("no OOB processed");
        }
        if !bytes_eq16(&got, &self.m.noob_id) {
            return fail_code(error_code::UNRECOGNIZED_OOB_MSG_ID, "unrecognized NoobId");
        }
        self.m.derive();
        let (kms, kmp) = match &self.m.keym {
            Some(k) => (k.kms, k.kmp),
            None => ([0u8; 32], [0u8; 32]),
        };
        let expected = compute_mac(&kms, 2, &self.m.inp);
        if !mac_equal(macs.as_slice(), &expected) {
            return fail_code(error_code::HMAC_VERIFICATION_FAILED, "MACs verification failed");
        }
        let macp = compute_mac(&kmp, 1, &self.m.inp);
        let mut out = Wire::empty();
        out.type_ = Some(6);
        out.peer_id = Some(jstr(self.m.peer_id.as_str()));
        out.macp = Some(b64_json_exec(&macp));
        send(&out)
    }

    /// Server-to-peer OOB input: accept a 16-byte PIN-derived Noob at Waiting.
    pub fn oob_input_noob(&mut self, noob: &[u8]) -> (r: Result<(), OobError>)
        requires
            old(self).inv(),
        ensures
            final(self).inv(),
            r == oob_check(old(self).st(), old(self).spec_dirp(), noob@.len()),
            r is Ok ==> noob_set(old(self).method(), final(self).method(), noob@) && final(self).st()
                == State::OobReceived,
            r is Err ==> *final(self) == *old(self),
            peer_config_same(*old(self), *final(self)) && final(self).spec_csp() == old(self).spec_csp()
                && final(self).spec_dirp() == old(self).spec_dirp()
                && final(self).spec_assoc() == old(self).spec_assoc(),
    {
        if self.state != State::Waiting {
            return Err(OobError::NotWaiting);
        }
        if !(self.dirp == 2 || self.dirp == 3) {
            return Err(OobError::DirectionNotNegotiated);
        }
        if noob.len() != 16 {
            return Err(OobError::BadNoobLength);
        }
        self.m.set_noob(noob);
        self.state = State::OobReceived;
        Ok(())
    }
}

} // verus!
