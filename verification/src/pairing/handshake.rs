//! The pairing law: a Server and a Peer that relay each other's messages
//! through both EAP-NOOB exchanges, with the same Noob delivered out of band
//! in between, both end Registered and hold the same Kz.
//!
//! Each step is what one `receive` call establishes: the step relation of its
//! role together with what the call learned by reading the message (its bytes
//! read back as the message they render, and each member it decoded reads as
//! what was written). The out-of-band step is what `oob_output_with` and
//! `oob_input_noob` establish.

use vstd::prelude::*;
use vstd::utf8::encode_utf8;
use crate::codec::{b64url, b64url_decoded, json_flat_text, json_int_list_text, json_quote, json_scalar_text};
use crate::pairing::eap_wire::{blank, lemma_int_not_null, lemma_quote_not_null, raw_ok, reads_back, wire_bytes, wire_flat, Wire, WireView, parsed};
use crate::pairing::kdf::completion_keys;
use crate::pairing::mac::{noob_parts, spec_compute_mac, MacInputs};
use crate::pairing::machine::{
    b64_json, b64_member, discovery_request, b64_read, default_nai, ensure_obj_text, get_text, int_of, ints_of, noob_set, oob_check, obytes,
    peer_config_same, peer_discovery_response, peer_step, peer_step_on, result_view, server_config_same, server_step,
    server_step_on, server_discovery, server_negotiation_response, server_key_exchange,
    server_noob_id, server_completion, server_completion_response, server_start_completion, server_peer_id_ok,
    peer_negotiation, peer_key_exchange, peer_completion, peer_result, ns_of, occurs, spec_best_version, spec_choose_dir, spec_first_supported, state_num, str_of, OobError,
    Outcome, Peer, Server, State,
};
use crate::pairing::suite::{jwk_from_text, jwk_members, jwk_text, jwk_view, lemma_jwk_members, Jwk, KeyPair, Suite};
use crate::text::int_str;

verus! {

// --- what a step establishes -------------------------------------------------------

/// What one `Server::receive` call on `input` establishes.
pub open spec fn server_received(old: Server, input: Seq<u8>, new: Server, out: Outcome) -> bool {
    server_step(old, input, new, out) && reads_back(input)
}

/// What one `Peer::receive` call on `input` establishes.
pub open spec fn peer_received(old: Peer, input: Seq<u8>, new: Peer, out: Outcome) -> bool {
    peer_step(old, input, new, out) && reads_back(input)
}

/// What `Server::oob_output_with(noob)` returning `r` establishes.
pub open spec fn server_oob(old: Server, noob: Seq<u8>, r: Result<(), OobError>, new: Server) -> bool {
    &&& r == oob_check(old.st(), old.spec_dirp(), noob.len())
    &&& r is Ok ==> noob_set(old.method(), new.method(), noob)
    &&& r is Err ==> new == old
    &&& new.st() == old.st() && server_config_same(old, new) && new.spec_peer_state() == old.spec_peer_state()
    &&& new.spec_csp() == old.spec_csp() && new.spec_dirp() == old.spec_dirp() && new.spec_assoc() == old.spec_assoc()
}

/// What `Peer::oob_input_noob(noob)` returning `r` establishes.
pub open spec fn peer_oob(old: Peer, noob: Seq<u8>, r: Result<(), OobError>, new: Peer) -> bool {
    &&& r == oob_check(old.st(), old.spec_dirp(), noob.len())
    &&& r is Ok ==> noob_set(old.method(), new.method(), noob) && new.st() == State::OobReceived
    &&& r is Err ==> new == old
    &&& peer_config_same(old, new) && new.spec_csp() == old.spec_csp() && new.spec_dirp() == old.spec_dirp()
    &&& new.spec_assoc() == old.spec_assoc()
}

/// A server as `Server::new` makes it, possibly given a ServerInfo object.
pub open spec fn server_fresh(s: Server) -> bool {
    &&& s.st() == State::Unregistered
    &&& s.spec_versions() == seq![1i64] && s.spec_suites() == seq![2i64, 1i64]
    &&& (s.spec_dirs() == 3 || s.spec_dirs() == 2)
    &&& raw_ok(Some(s.spec_server_info())) && s.spec_server_info().len() > 0
    &&& s.spec_assoc() is None && s.spec_peer_state() == 0
    &&& s.method().peer_id@.len() == 0 && s.method().noob@.len() == 0
    &&& s.method().keypair is None && s.method().keym is None && s.method().suite is None
}

/// A peer as `Peer::new` makes it, possibly given a PeerInfo object.
pub open spec fn peer_fresh(p: Peer) -> bool {
    &&& p.st() == State::Unregistered
    &&& p.spec_versions() == seq![1i64] && p.spec_suites() == seq![1i64, 2i64]
    &&& p.spec_prefer_dir() == 2
    &&& raw_ok(Some(p.spec_peer_info())) && p.spec_peer_info().len() > 0
    &&& p.spec_assoc() is None
    &&& p.method().nai@ == default_nai()
    &&& p.method().peer_id@.len() == 0 && p.method().noob@.len() == 0
    &&& p.method().keypair is None && p.method().keym is None && p.method().suite is None
}

/// The bytes an outcome sends, empty when it sends nothing.
pub open spec fn sent(o: Outcome) -> Seq<u8> {
    match obytes(o.send) {
        Some(b) => b,
        None => seq![],
    }
}

// --- reading a step -----------------------------------------------------------------

proof fn lemma_server_on(old: Server, input: Seq<u8>, new: Server, out: Outcome, w: WireView)
    requires
        server_received(old, input, new, out),
        wire_flat(w),
        input == wire_bytes(w),
    ensures
        server_step_on(old, w, new, out),
{
    let wm = choose|wm: Wire| parsed(input, wm);
    assert(parsed(input, wm));
}

proof fn lemma_peer_on(old: Peer, input: Seq<u8>, new: Peer, out: Outcome, w: WireView)
    requires
        peer_received(old, input, new, out),
        wire_flat(w),
        input == wire_bytes(w),
    ensures
        peer_step_on(old, w, new, out),
{
    let wm = choose|wm: Wire| parsed(input, wm);
    assert(parsed(input, wm));
}

// --- flat members -------------------------------------------------------------------

proof fn lemma_quote_ok(t: Seq<char>)
    ensures
        raw_ok(Some(json_quote(t))),
{
    lemma_quote_not_null(t);
    assert(json_scalar_text(json_quote(t)));
}

proof fn lemma_int_ok(k: int)
    ensures
        raw_ok(Some(int_str(k))),
{
    lemma_int_not_null(k);
    assert(json_scalar_text(int_str(k)));
}

proof fn lemma_list_ok(v: Seq<i64>)
    ensures
        raw_ok(Some(json_int_list_text(v))),
{
    reveal_strlit("null");
    assert(json_int_list_text(v)[0] == '[');
    assert(json_flat_text(json_int_list_text(v)));
}

proof fn lemma_jwk_ok(j: Jwk)
    ensures
        raw_ok(Some(jwk_text(j))),
{
    reveal_strlit("null");
    lemma_jwk_members(j);
    let ms = jwk_members(j);
    assert forall|i: int| 0 <= i < ms.len() implies json_scalar_text(#[trigger] ms[i].1) by {
        if i == 0 {
            assert(json_scalar_text(json_quote(j.kty@)));
        } else if i == 1 {
            assert(json_scalar_text(json_quote(j.crv@)));
        } else if i == 2 {
            assert(json_scalar_text(json_quote(j.x@)));
        } else {
            assert(json_scalar_text(json_quote(j.y.unwrap()@)));
        }
    }
    assert(json_flat_text(jwk_text(j)));
    assert(jwk_text(j)[0] == '{');
}

// --- agreement of what the two sides derive -----------------------------------------

/// Two sets of MAC inputs that agree field by field.
pub open spec fn inp_same(a: MacInputs, b: MacInputs) -> bool {
    &&& a.vers@ == b.vers@ && a.verp@ == b.verp@ && a.peer_id@ == b.peer_id@
    &&& a.cryptosuites@ == b.cryptosuites@ && a.dirs@ == b.dirs@ && a.server_info@ == b.server_info@
    &&& a.cryptosuitep@ == b.cryptosuitep@ && a.dirp@ == b.dirp@ && a.nai@ == b.nai@
    &&& a.peer_info@ == b.peer_info@ && a.pks@ == b.pks@ && a.ns@ == b.ns@ && a.pkp@ == b.pkp@
    &&& a.np@ == b.np@ && a.noob@ == b.noob@
}

/// The MAC inputs both sides hold after Negotiation: every field but the
/// keys, nonces and Noob.
pub open spec fn inp_same_but_keys(a: MacInputs, b: MacInputs) -> bool {
    &&& a.vers@ == b.vers@ && a.verp@ == b.verp@ && a.peer_id@ == b.peer_id@
    &&& a.cryptosuites@ == b.cryptosuites@ && a.dirs@ == b.dirs@ && a.server_info@ == b.server_info@
    &&& a.cryptosuitep@ == b.cryptosuitep@ && a.dirp@ == b.dirp@ && a.nai@ == b.nai@
    &&& a.peer_info@ == b.peer_info@
}

proof fn lemma_mac_same(k: Seq<u8>, lead: int, a: MacInputs, b: MacInputs)
    requires
        inp_same(a, b),
    ensures
        spec_compute_mac(k, lead, a) == spec_compute_mac(k, lead, b),
{
    assert(noob_parts(int_str(lead), a) =~= noob_parts(int_str(lead), b));
}

proof fn lemma_keys_same(z: Seq<u8>, np: Seq<u8>, ns: Seq<u8>, noob: Seq<u8>, a: crate::pairing::kdf::DerivedKeys, b: crate::pairing::kdf::DerivedKeys)
    requires
        completion_keys(z, np, ns, noob, a),
        completion_keys(z, np, ns, noob, b),
    ensures
        a.kms@ == b.kms@ && a.kmp@ == b.kmp@ && a.kz@ == b.kz@,
{
}


// --- the Initial Exchange -----------------------------------------------------------

/// The Negotiation request a server sends with PeerId `pid`.
pub open spec fn negotiation_view(s: Server, pid: Seq<char>) -> WireView {
    WireView {
        type_: Some(2),
        vers: Some(json_int_list_text(s.spec_versions())),
        peer_id: Some(json_quote(pid)),
        cryptosuites: Some(json_int_list_text(s.spec_suites())),
        dirs: Some(int_str(s.spec_dirs() as int)),
        server_info: Some(s.spec_server_info()),
        ..blank()
    }
}

/// Discovery, then Negotiation: the peer answers the Discovery request with its
/// state, and the server assigns a PeerId and sends the Negotiation request.
/// The server is handed `m0`, which is the peer's answer whenever the peer
/// stayed as it was and reported no error (a driver forwards the answer then).
pub(crate) proof fn lemma_step_discovery(s0: Server, p0: Peer, p1: Peer, po0: Outcome, m0: Seq<u8>, s1: Server, so0: Outcome)
    requires
        server_fresh(s0),
        peer_fresh(p0),
        peer_received(p0, wire_bytes(discovery_request()), p1, po0),
        (p1 == p0 && po0.error is None) ==> m0 == sent(po0),
        server_received(s0, m0, s1, so0),
    ensures
        p1 == p0,
        s1.st() == State::Unregistered && server_config_same(s0, s1) && s1.spec_peer_state() == 0,
        s1.spec_assoc() is None && s1.spec_csp() == s0.spec_csp() && s1.spec_dirp() == s0.spec_dirp(),
        s1.method().nai@ == default_nai(),
        s1.method().inp.vers@ == json_int_list_text(s0.spec_versions()),
        s1.method().inp.peer_id@ == json_quote(s1.method().peer_id@),
        s1.method().inp.cryptosuites@ == json_int_list_text(s0.spec_suites()),
        s1.method().inp.dirs@ == int_str(s0.spec_dirs() as int),
        s1.method().inp.server_info@ == s0.spec_server_info(),
        s1.method().keypair is None && s1.method().keym is None && s1.method().suite is None,
        s1.method().noob@.len() == 0,
        obytes(so0.send) == Some(wire_bytes(negotiation_view(s0, s1.method().peer_id@))),
        po0.error is None && p1.st() == State::Unregistered,
{
    reveal_strlit("noob@eap-noob.arpa");
    let d = discovery_request();
    assert(wire_flat(d));
    lemma_peer_on(p0, wire_bytes(d), p1, po0, d);
    let r = peer_discovery_response(p0);
    assert(p1 == p0);
    lemma_quote_ok(default_nai());
    assert(wire_flat(r));
    assert(po0.error is None);
    lemma_server_on(s0, m0, s1, so0, r);
    let mid = choose|mid: Server| server_discovery(s0, r, mid, s1, so0);
    assert(server_discovery(s0, r, mid, s1, so0));
    assert(str_of(r.nai) == Some(default_nai()));
    assert(mid.method().nai@ == default_nai());
    assert(state_num(s0.st()) == 0);
}


/// The Negotiation response a peer sends.
pub open spec fn negotiation_reply_view(pid: Seq<char>, peer_info: Seq<char>) -> WireView {
    WireView {
        type_: Some(2),
        verp: Some(int_str(1)),
        peer_id: Some(json_quote(pid)),
        cryptosuitep: Some(int_str(2)),
        dirp: Some(int_str(2)),
        peer_info: Some(peer_info),
        ..blank()
    }
}

/// The KeyExchange request a server sends.
pub open spec fn key_exchange_view(pid: Seq<char>, kp: KeyPair, ns: Seq<u8>) -> WireView {
    WireView {
        type_: Some(3),
        peer_id: Some(json_quote(pid)),
        pks: Some(jwk_text(kp.spec_jwk())),
        ns: Some(b64_json(ns)),
        ..blank()
    }
}

/// Negotiation: the peer adopts the PeerId and chooses version 1, cryptosuite
/// 2 (P-256) and the server-to-peer direction; the server accepts them,
/// generates its key pair and Ns, and sends the KeyExchange request. The
/// server is handed `m1`, the peer's answer whenever the peer is still
/// unregistered and reported no error.
pub(crate) proof fn lemma_step_negotiation(
    s0: Server,
    s1: Server,
    so0: Outcome,
    p0: Peer,
    p2: Peer,
    po1: Outcome,
    m1: Seq<u8>,
    s2: Server,
    so1: Outcome,
)
    requires
        server_fresh(s0),
        peer_fresh(p0),
        s1.st() == State::Unregistered && server_config_same(s0, s1) && s1.spec_peer_state() == 0,
        s1.spec_assoc() is None,
        s1.method().nai@ == default_nai(),
        s1.method().keypair is None && s1.method().keym is None && s1.method().noob@.len() == 0,
        s1.method().inp.vers@ == json_int_list_text(s0.spec_versions()),
        s1.method().inp.peer_id@ == json_quote(s1.method().peer_id@),
        s1.method().inp.cryptosuites@ == json_int_list_text(s0.spec_suites()),
        s1.method().inp.dirs@ == int_str(s0.spec_dirs() as int),
        s1.method().inp.server_info@ == s0.spec_server_info(),
        obytes(so0.send) == Some(wire_bytes(negotiation_view(s0, s1.method().peer_id@))),
        peer_received(p0, sent(so0), p2, po1),
        (p2.st() == State::Unregistered && po1.error is None) ==> m1 == sent(po1),
        server_received(s1, m1, s2, so1),
    ensures
        p2.st() == State::Unregistered && peer_config_same(p0, p2) && p2.spec_assoc() is None,
        p2.method().peer_id@ == s1.method().peer_id@,
        p2.method().suite == Some(Suite::P256) && p2.spec_csp() == 2 && p2.spec_dirp() == 2,
        p2.method().nai@ == default_nai(),
        p2.method().keypair is None && p2.method().keym is None && p2.method().noob@.len() == 0,
        s2.st() == State::Unregistered && server_config_same(s1, s2) && s2.spec_peer_state() == 0,
        s2.spec_assoc() is None && s2.spec_csp() == 2 && s2.spec_dirp() == 2,
        s2.method().peer_id == s1.method().peer_id && s2.method().nai == s1.method().nai,
        s2.method().suite == Some(Suite::P256),
        s2.method().keypair is Some && s2.method().keypair.unwrap().wf(),
        s2.method().keypair.unwrap().spec_suite() == Suite::P256,
        s2.method().keym is None && s2.method().noob@.len() == 0,
        s2.method().ns@.len() == 32 && b64_read(s2.method().ns@),
        s2.method().inp.pks@ == jwk_text(s2.method().keypair.unwrap().spec_jwk()),
        s2.method().inp.ns@ == b64_json(s2.method().ns@),
        inp_same_but_keys(s2.method().inp, p2.method().inp),
        p2.method().inp.peer_info@ == p0.spec_peer_info() && p2.method().inp.server_info@ == s0.spec_server_info(),
        po1.error is None,
        obytes(so1.send) == Some(
            wire_bytes(key_exchange_view(s1.method().peer_id@, s2.method().keypair.unwrap(), s2.method().ns@)),
        ),
{
    reveal_strlit("noob@eap-noob.arpa");
    let pid = s1.method().peer_id@;
    let t2 = negotiation_view(s0, pid);
    lemma_list_ok(seq![1i64]);
    lemma_list_ok(seq![2i64, 1i64]);
    lemma_quote_ok(pid);
    lemma_int_ok(s0.spec_dirs() as int);
    assert(wire_flat(t2));
    lemma_peer_on(p0, sent(so0), p2, po1, t2);
    assert(peer_negotiation(p0, t2, p2, po1));
    assert(str_of(t2.peer_id) == Some(pid));
    assert(ints_of(t2.vers) == Some(seq![1i64]));
    assert(ints_of(t2.cryptosuites) == Some(seq![2i64, 1i64]));
    assert(int_of(t2.dirs) == Some(s0.spec_dirs()));
    assert(seq![1i64][0] == 1i64);
    assert(occurs(seq![1i64], 1i64));
    assert(seq![1i64].drop_last() =~= Seq::<i64>::empty());
    assert(spec_best_version(Seq::<i64>::empty(), seq![1i64]) is None);
    assert(spec_best_version(seq![1i64], seq![1i64]) == Some(1i64));
    assert(seq![1i64, 2i64][1] == 2i64);
    assert(occurs(seq![1i64, 2i64], 2i64));
    assert(spec_first_supported(seq![2i64, 1i64], seq![1i64, 2i64]) == Some(2i64));
    assert(spec_choose_dir(s0.spec_dirs(), 2) == Some(2i64));
    let r2 = negotiation_reply_view(pid, p0.spec_peer_info());
    lemma_int_ok(1);
    lemma_int_ok(2);
    assert(wire_flat(r2));
    assert(obytes(po1.send) == Some(wire_bytes(r2)));
    assert(po1.error is None);
    lemma_server_on(s1, m1, s2, so1, r2);
    assert(server_negotiation_response(s1, r2, s2, so1));
    assert(server_peer_id_ok(s1, r2));
    assert(int_of(r2.verp) == Some(1i64));
    assert(int_of(r2.cryptosuitep) == Some(2i64));
    assert(int_of(r2.dirp) == Some(2i64));
    assert(occurs(s1.spec_versions(), 1i64));
    assert(seq![2i64, 1i64][0] == 2i64);
    assert(occurs(s1.spec_suites(), 2i64));
    assert((2i64 & 3i64) == 2i64) by (bit_vector);
    assert((2i64 & 2i64) == 2i64) by (bit_vector);
    assert(ensure_obj_text(p0.spec_peer_info()) == p0.spec_peer_info());
    assert(ensure_obj_text(s0.spec_server_info()) == s0.spec_server_info());
    assert(s2.method().inp.vers@ == p2.method().inp.vers@);
    assert(s2.method().inp.verp@ == p2.method().inp.verp@);
    assert(s2.method().inp.peer_id@ == p2.method().inp.peer_id@);
    assert(s2.method().inp.cryptosuites@ == p2.method().inp.cryptosuites@);
    assert(s2.method().inp.dirs@ == p2.method().inp.dirs@);
    assert(s2.method().inp.server_info@ == p2.method().inp.server_info@);
    assert(s2.method().inp.cryptosuitep@ == p2.method().inp.cryptosuitep@);
    assert(s2.method().inp.dirp@ == p2.method().inp.dirp@);
    assert(s2.method().inp.nai@ == p2.method().inp.nai@);
    assert(s2.method().inp.peer_info@ == p2.method().inp.peer_info@);
}


// --- the KeyExchange and the out-of-band step ---------------------------------------

/// The MAC inputs agree on every field but the Noob.
pub open spec fn inp_agree_but_noob(a: MacInputs, b: MacInputs) -> bool {
    &&& inp_same_but_keys(a, b)
    &&& a.pks@ == b.pks@ && a.ns@ == b.ns@ && a.pkp@ == b.pkp@ && a.np@ == b.np@
}

/// Both sides after the Initial Exchange: waiting for the Noob, with the same
/// PeerId, Z, nonces and MAC inputs.
pub open spec fn keys_exchanged(s: Server, p: Peer) -> bool {
    &&& s.st() == State::Waiting && p.st() == State::Waiting
    &&& s.spec_assoc() is None && p.spec_assoc() is None
    &&& s.spec_dirp() == 2 && p.spec_dirp() == 2
    &&& s.method().peer_id@ == p.method().peer_id@
    &&& s.method().z@ == p.method().z@ && s.method().ns@ == p.method().ns@ && s.method().np@ == p.method().np@
    &&& s.method().keym is None && p.method().keym is None
    &&& inp_agree_but_noob(s.method().inp, p.method().inp)
}

/// The KeyExchange response a peer sends.
pub open spec fn key_reply_view(pid: Seq<char>, kp: KeyPair, np: Seq<u8>) -> WireView {
    WireView {
        type_: Some(3),
        peer_id: Some(json_quote(pid)),
        pkp: Some(jwk_text(kp.spec_jwk())),
        np: Some(b64_json(np)),
        ..blank()
    }
}

/// KeyExchange: each side reads the other's public key, both compute the same
/// Z, and the server ends the Initial Exchange with EAP-Failure. The server is
/// handed `m2`, the peer's answer whenever the peer reached Waiting with no
/// error and with the ServerInfo it negotiated.
pub(crate) proof fn lemma_step_key_exchange(
    s2: Server,
    so1: Outcome,
    p2: Peer,
    p3: Peer,
    po2: Outcome,
    m2: Seq<u8>,
    s3: Server,
    so2: Outcome,
)
    requires
        p2.st() == State::Unregistered && p2.spec_assoc() is None,
        p2.method().peer_id@ == s2.method().peer_id@,
        p2.method().suite == Some(Suite::P256) && p2.spec_dirp() == 2,
        p2.method().keym is None,
        s2.st() == State::Unregistered && s2.spec_assoc() is None && s2.spec_dirp() == 2,
        s2.method().keypair is Some && s2.method().keypair.unwrap().wf(),
        s2.method().keypair.unwrap().spec_suite() == Suite::P256,
        s2.method().keym is None,
        b64_read(s2.method().ns@),
        s2.method().inp.pks@ == jwk_text(s2.method().keypair.unwrap().spec_jwk()),
        s2.method().inp.ns@ == b64_json(s2.method().ns@),
        inp_same_but_keys(s2.method().inp, p2.method().inp),
        obytes(so1.send) == Some(
            wire_bytes(key_exchange_view(s2.method().peer_id@, s2.method().keypair.unwrap(), s2.method().ns@)),
        ),
        peer_received(p2, sent(so1), p3, po2),
        (p3.st() == State::Waiting && po2.error is None && p3.method().inp.server_info
            == p2.method().inp.server_info) ==> m2 == sent(po2),
        server_received(s2, m2, s3, so2),
    ensures
        keys_exchanged(s3, p3),
        po2.error is None,
        p3.method().inp.server_info == p2.method().inp.server_info,
        s3.method().inp.peer_info == s2.method().inp.peer_info,
        obytes(so2.send) == Some(wire_bytes(result_view("failure"@))),
{
    let pid = s2.method().peer_id@;
    let skp = s2.method().keypair.unwrap();
    let ns = s2.method().ns@;
    let t3 = key_exchange_view(pid, skp, ns);
    lemma_quote_ok(pid);
    lemma_jwk_ok(skp.spec_jwk());
    lemma_quote_ok(b64url(ns));
    assert(wire_flat(t3));
    lemma_peer_on(p2, sent(so1), p3, po2, t3);
    assert(peer_key_exchange(p2, t3, p3, po2));
    assert(get_text(t3.pks) == jwk_text(skp.spec_jwk()));
    assert(jwk_from_text(encode_utf8(get_text(t3.pks))) == Some(jwk_view(skp.spec_jwk())));
    assert(t3.ns == Some(json_quote(b64url(ns))));
    assert(str_of(t3.ns) == Some(b64url(ns)));
    assert(ns_of(t3) == Some(ns));
    let pkp = p3.method().keypair.unwrap();
    let np = p3.method().np@;
    assert(p3.method().keypair is Some && pkp.wf() && pkp.spec_suite() == Suite::P256);
    assert(crate::pairing::suite::spec_compute_z(skp.spec_suite(), skp.spec_secret(), jwk_view(pkp.spec_jwk()))
        == Ok::<Seq<u8>, crate::pairing::suite::EcdhError>(p3.method().z@));
    let r3 = key_reply_view(pid, pkp, np);
    lemma_jwk_ok(pkp.spec_jwk());
    lemma_quote_ok(b64url(np));
    assert(wire_flat(r3));
    assert(obytes(po2.send) == Some(wire_bytes(r3)));
    assert(po2.error is None);
    lemma_server_on(s2, m2, s3, so2, r3);
    assert(server_key_exchange(s2, r3, s3, so2));
    assert(str_of(r3.peer_id) == Some(pid));
    assert(server_peer_id_ok(s2, r3));
    assert(get_text(r3.pkp) == jwk_text(pkp.spec_jwk()));
    assert(jwk_from_text(encode_utf8(get_text(r3.pkp))) == Some(jwk_view(pkp.spec_jwk())));
    assert(str_of(r3.np) == Some(b64url(np)));
    assert(b64url_decoded(b64url(np)) == Some(np));
    assert(s3.method().z@ == p3.method().z@);
}

/// The peer takes the EAP-Failure that ends the Initial Exchange without
/// changing.
proof fn lemma_failure_kept(so2: Outcome, p3: Peer, p4: Peer, po3: Outcome)
    requires
        obytes(so2.send) == Some(wire_bytes(result_view("failure"@))),
        peer_received(p3, sent(so2), p4, po3),
    ensures
        p4 == p3,
{
    reveal_strlit("failure");
    reveal_strlit("success");
    let f = result_view("failure"@);
    assert(wire_flat(f));
    lemma_peer_on(p3, sent(so2), p4, po3, f);
    assert("failure"@ != "success"@);
}

/// What both sides hold once the Noob is delivered: every input of the key
/// derivation and of the MACs.
pub open spec fn ready_for_completion(s: Server, p: Peer, noob: Seq<u8>) -> bool {
    &&& s.st() == State::Waiting && p.st() == State::OobReceived
    &&& s.method().peer_id@ == p.method().peer_id@
    &&& s.method().z@ == p.method().z@ && s.method().ns@ == p.method().ns@ && s.method().np@ == p.method().np@
    &&& s.method().noob@ == noob && p.method().noob@ == noob && noob.len() == 16
    &&& s.method().noob_id@ == p.method().noob_id@
    &&& s.method().keym is None && p.method().keym is None
    &&& inp_same(s.method().inp, p.method().inp)
}

/// The out-of-band step: both sides take the same 16-byte Noob.
proof fn lemma_step_oob(s3: Server, s4: Server, p4: Peer, p5: Peer, noob: Seq<u8>)
    requires
        keys_exchanged(s3, p4),
        noob.len() == 16,
        server_oob(s3, noob, oob_check(s3.st(), s3.spec_dirp(), noob.len()), s4),
        peer_oob(p4, noob, oob_check(p4.st(), p4.spec_dirp(), noob.len()), p5),
    ensures
        ready_for_completion(s4, p5, noob),
        s4.method().inp.peer_info == s3.method().inp.peer_info,
        p5.method().inp.server_info == p4.method().inp.server_info,
{
    assert(oob_check(s3.st(), s3.spec_dirp(), noob.len()) is Ok);
    assert(oob_check(p4.st(), p4.spec_dirp(), noob.len()) is Ok);
}

// --- the Completion Exchange --------------------------------------------------------

/// The Completion request a server sends.
pub open spec fn completion_view(pid: Seq<char>, noob_id: Seq<u8>, macs: Seq<u8>) -> WireView {
    WireView {
        type_: Some(6),
        peer_id: Some(json_quote(pid)),
        noob_id: Some(b64_json(noob_id)),
        macs: Some(b64_json(macs)),
        ..blank()
    }
}

/// Discovery again, then NoobId: the peer announces that it holds the Noob,
/// the server asks for its NoobId, finds it to be its own, derives the keys
/// and sends the Completion request. The peer is handed `m3`, the server's
/// NoobId request whenever the server is still waiting.
pub(crate) proof fn lemma_step_noob_id(
    s4: Server,
    p5: Peer,
    p6: Peer,
    po4: Outcome,
    s5: Server,
    so3: Outcome,
    m3: Seq<u8>,
    p7: Peer,
    po5: Outcome,
    s6: Server,
    so4: Outcome,
    noob: Seq<u8>,
)
    requires
        ready_for_completion(s4, p5, noob),
        peer_received(p5, wire_bytes(discovery_request()), p6, po4),
        server_received(s4, sent(po4), s5, so3),
        s5.st() == State::Waiting ==> m3 == sent(so3),
        peer_received(p6, m3, p7, po5),
        server_received(s5, sent(po5), s6, so4),
    ensures
        p7 == p5 && p6 == p5,
        s5.st() == State::Waiting,
        s6.st() == State::Waiting,
        s6.method().keym is Some,
        completion_keys(s4.method().z@, s4.method().np@, s4.method().ns@, s4.method().noob@, s6.method().keym.unwrap()),
        s6.method().inp == s4.method().inp && s6.method().peer_id == s4.method().peer_id,
        b64_read(s4.method().noob_id@),
        b64_read(spec_compute_mac(s6.method().keym.unwrap().kms@, 2, s4.method().inp)),
        obytes(so4.send) == Some(
            wire_bytes(
                completion_view(
                    s4.method().peer_id@,
                    s4.method().noob_id@,
                    spec_compute_mac(s6.method().keym.unwrap().kms@, 2, s4.method().inp),
                ),
            ),
        ),
{
    let pid = s4.method().peer_id@;
    let nid = s4.method().noob_id@;
    let d = discovery_request();
    assert(wire_flat(d));
    lemma_peer_on(p5, wire_bytes(d), p6, po4, d);
    let r = peer_discovery_response(p5);
    assert(p6 == p5);
    lemma_quote_ok(p5.method().nai@);
    lemma_quote_ok(pid);
    assert(wire_flat(r));
    lemma_server_on(s4, sent(po4), s5, so3, r);
    let mid = choose|mid: Server| server_discovery(s4, r, mid, s5, so3);
    assert(server_discovery(s4, r, mid, s5, so3));
    assert(state_num(s4.st()) == 1 && r.peer_state == Some(2i64));
    assert(server_start_completion(mid, s5, so3));
    assert(s5 == mid);
    let t5 = WireView { type_: Some(5), peer_id: Some(json_quote(pid)), ..blank() };
    assert(wire_flat(t5));
    assert(obytes(so3.send) == Some(wire_bytes(t5)));
    lemma_peer_on(p6, m3, p7, po5, t5);
    assert(p7 == p6);
    let r5 = WireView { type_: Some(5), peer_id: Some(json_quote(pid)), noob_id: Some(b64_json(nid)), ..blank() };
    lemma_quote_ok(b64url(nid));
    assert(wire_flat(r5));
    assert(obytes(po5.send) == Some(wire_bytes(r5)));
    lemma_server_on(s5, sent(po5), s6, so4, r5);
    assert(server_noob_id(s5, r5, s6, so4));
    assert(str_of(r5.peer_id) == Some(pid));
    assert(server_peer_id_ok(s5, r5));
    assert(str_of(r5.noob_id) == Some(b64url(nid)));
    assert(b64_member(r5.noob_id) == nid);
    assert(server_completion(s5, s6, so4));
}

/// Completion: the peer derives the same keys, verifies MACs and answers with
/// MACp; the server verifies MACp, registers and sends EAP-Success; the peer
/// registers on it. The peer is handed `m5`, the server's EAP-Success
/// whenever the server registered with its MAC inputs unchanged.
pub(crate) proof fn lemma_step_completion(
    s4: Server,
    s6: Server,
    so4: Outcome,
    p7: Peer,
    p8: Peer,
    po6: Outcome,
    s7: Server,
    so5: Outcome,
    m5: Seq<u8>,
    p9: Peer,
    po7: Outcome,
    noob: Seq<u8>,
)
    requires
        ready_for_completion(s4, p7, noob),
        s6.st() == State::Waiting,
        s6.method().keym is Some,
        completion_keys(s4.method().z@, s4.method().np@, s4.method().ns@, s4.method().noob@, s6.method().keym.unwrap()),
        s6.method().inp == s4.method().inp && s6.method().peer_id == s4.method().peer_id,
        b64_read(s4.method().noob_id@),
        b64_read(spec_compute_mac(s6.method().keym.unwrap().kms@, 2, s4.method().inp)),
        obytes(so4.send) == Some(
            wire_bytes(
                completion_view(
                    s4.method().peer_id@,
                    s4.method().noob_id@,
                    spec_compute_mac(s6.method().keym.unwrap().kms@, 2, s4.method().inp),
                ),
            ),
        ),
        peer_received(p7, sent(so4), p8, po6),
        server_received(s6, sent(po6), s7, so5),
        (s7.st() == State::Registered && s7.method().inp == s6.method().inp) ==> m5 == sent(so5),
        peer_received(p8, m5, p9, po7),
    ensures
        s7.st() == State::Registered && p9.st() == State::Registered,
        s7.spec_assoc() is Some && p9.spec_assoc() is Some,
        s7.spec_assoc().unwrap().kz@ == p9.spec_assoc().unwrap().kz@,
        s7.spec_assoc().unwrap().peer_id@ == p9.spec_assoc().unwrap().peer_id@,
        so5.success && po7.success && so5.done && po7.done,
        s7.method().inp == s6.method().inp,
{
    let pid = s4.method().peer_id@;
    let nid = s4.method().noob_id@;
    let sk = s6.method().keym.unwrap();
    let macs = spec_compute_mac(sk.kms@, 2, s4.method().inp);
    let c = completion_view(pid, nid, macs);
    lemma_quote_ok(pid);
    lemma_quote_ok(b64url(nid));
    lemma_quote_ok(b64url(macs));
    assert(wire_flat(c));
    lemma_peer_on(p7, sent(so4), p8, po6, c);
    assert(peer_completion(p7, c, p8, po6));
    assert(str_of(c.noob_id) == Some(b64url(nid)));
    assert(b64_member(c.noob_id) == nid);
    let pk = p8.method().keym.unwrap();
    lemma_keys_same(s4.method().z@, s4.method().np@, s4.method().ns@, s4.method().noob@, sk, pk);
    assert(str_of(c.macs) == Some(b64url(macs)));
    assert(b64_member(c.macs) == macs);
    lemma_mac_same(sk.kms@, 2, s4.method().inp, p7.method().inp);
    lemma_mac_same(sk.kmp@, 1, s4.method().inp, p7.method().inp);
    assert(b64_member(c.macs) == spec_compute_mac(pk.kms@, 2, p7.method().inp));
    let macp = spec_compute_mac(pk.kmp@, 1, p7.method().inp);
    let r6 = WireView { type_: Some(6), peer_id: Some(json_quote(pid)), macp: Some(b64_json(macp)), ..blank() };
    lemma_quote_ok(b64url(macp));
    assert(wire_flat(r6));
    assert(obytes(po6.send) == Some(wire_bytes(r6)));
    lemma_server_on(s6, sent(po6), s7, so5, r6);
    assert(server_completion_response(s6, r6, s7, so5));
    assert(str_of(r6.peer_id) == Some(pid));
    assert(server_peer_id_ok(s6, r6));
    assert(str_of(r6.macp) == Some(b64url(macp)));
    assert(b64_member(r6.macp) == spec_compute_mac(sk.kmp@, 1, s6.method().inp));
    let ok = result_view("success"@);
    assert(wire_flat(ok));
    assert(obytes(so5.send) == Some(wire_bytes(ok)));
    lemma_peer_on(p8, m5, p9, po7, ok);
    assert(peer_result(p8, "success"@, p9, po7));
}

// --- the law ------------------------------------------------------------------------

/// A relay of both EAP-NOOB exchanges between `servers` and `peers`: each
/// side's `receive` is called on the bytes the other side last sent (the
/// first Discovery request being what `Server::start` returns), and between
/// the two exchanges both sides are given `noob` out of band
/// (`oob_output_with` and `oob_input_noob`).
pub open spec fn relay_run(
    servers: Seq<Server>,
    peers: Seq<Peer>,
    souts: Seq<Outcome>,
    pouts: Seq<Outcome>,
    noob: Seq<u8>,
) -> bool {
    &&& servers.len() == 8 && peers.len() == 10 && souts.len() == 6 && pouts.len() == 8
    &&& peer_received(peers[0], wire_bytes(discovery_request()), peers[1], pouts[0])
    &&& server_received(servers[0], sent(pouts[0]), servers[1], souts[0])
    &&& peer_received(peers[1], sent(souts[0]), peers[2], pouts[1])
    &&& server_received(servers[1], sent(pouts[1]), servers[2], souts[1])
    &&& peer_received(peers[2], sent(souts[1]), peers[3], pouts[2])
    &&& server_received(servers[2], sent(pouts[2]), servers[3], souts[2])
    &&& peer_received(peers[3], sent(souts[2]), peers[4], pouts[3])
    &&& server_oob(servers[3], noob, oob_check(servers[3].st(), servers[3].spec_dirp(), noob.len()), servers[4])
    &&& peer_oob(peers[4], noob, oob_check(peers[4].st(), peers[4].spec_dirp(), noob.len()), peers[5])
    &&& peer_received(peers[5], wire_bytes(discovery_request()), peers[6], pouts[4])
    &&& server_received(servers[4], sent(pouts[4]), servers[5], souts[3])
    &&& peer_received(peers[6], sent(souts[3]), peers[7], pouts[5])
    &&& server_received(servers[5], sent(pouts[5]), servers[6], souts[4])
    &&& peer_received(peers[7], sent(souts[4]), peers[8], pouts[6])
    &&& server_received(servers[6], sent(pouts[6]), servers[7], souts[5])
    &&& peer_received(peers[8], sent(souts[5]), peers[9], pouts[7])
}

/// A fresh server and a fresh peer that relay each other's messages through
/// the Initial Exchange, both take the same 16-byte Noob out of band, and
/// relay the Completion Exchange, both end Registered, both final outcomes
/// report success, and the two associations hold the same PeerId and the same
/// Kz.
pub proof fn lemma_handshake_agrees(
    servers: Seq<Server>,
    peers: Seq<Peer>,
    souts: Seq<Outcome>,
    pouts: Seq<Outcome>,
    noob: Seq<u8>,
)
    requires
        relay_run(servers, peers, souts, pouts, noob),
        server_fresh(servers[0]),
        peer_fresh(peers[0]),
        noob.len() == 16,
    ensures
        servers.last().st() == State::Registered,
        peers.last().st() == State::Registered,
        souts.last().success && pouts.last().success,
        servers.last().spec_assoc() is Some && peers.last().spec_assoc() is Some,
        servers.last().spec_assoc().unwrap().kz@ == peers.last().spec_assoc().unwrap().kz@,
        servers.last().spec_assoc().unwrap().peer_id@ == peers.last().spec_assoc().unwrap().peer_id@,
{
    let s = servers;
    let p = peers;
    let so = souts;
    let po = pouts;
    lemma_step_discovery(s[0], p[0], p[1], po[0], sent(po[0]), s[1], so[0]);
    lemma_step_negotiation(s[0], s[1], so[0], p[1], p[2], po[1], sent(po[1]), s[2], so[1]);
    lemma_step_key_exchange(s[2], so[1], p[2], p[3], po[2], sent(po[2]), s[3], so[2]);
    lemma_failure_kept(so[2], p[3], p[4], po[3]);
    lemma_step_oob(s[3], s[4], p[4], p[5], noob);
    lemma_step_noob_id(s[4], p[5], p[6], po[4], s[5], so[3], sent(so[3]), p[7], po[5], s[6], so[4], noob);
    lemma_step_completion(s[4], s[6], so[4], p[7], p[8], po[6], s[7], so[5], sent(so[5]), p[9], po[7], noob);
}

} // verus!
