//! The join law: an inviter and a joiner whose sessions relay each other's
//! messages through both exchanges, with the same PIN shown and typed in
//! between, each end Registered, each holds the other's PairingInfo and
//! certificate, and the two associations hold the same Kz.
//!
//! Each step is the relation that the node function driving it establishes:
//! `joiner_ran` (`handle_request` on an Initial-Exchange message),
//! `inviter_initial_ran` (`InviteDrive::on_response`), `pin_set`
//! (`finish_invite`), `pin_fed` (`begin_completion`), `inviter_ran`
//! (`handle_request` on a Completion message) and `joiner_completed`
//! (`completion_step`). The pairing results the node hands out are made of the
//! captured identity and the association (`paired_of`). Between the nodes the
//! bytes travel base64-encoded in pairing envelopes; the relay speaks of the
//! bytes each session processes.

use vstd::prelude::*;
use vstd::utf8::encode_utf8;
use crate::cluster::info::{info_json, info_members, info_read, lemma_info_text, spec_parse_pairing_info, InfoView, LEGACY_ADMISSION_EPOCH};
use crate::cluster::node::{inviter_initial_ran, inviter_ran, joiner_completed, joiner_ran, paired_of, pin_fed, pin_set, step_send};
use crate::cluster::session::{
    fresh_inviter, fresh_joiner, inviter_completion, joiner_initial, step_of, InviterSession, JoinerSession, SessionError,
    Step,
};
use crate::codec::{json_flat_text, json_scalar_text};
use crate::pairing::eap_wire::{raw_ok, wire_bytes};
use crate::pairing::handshake::{
    keys_exchanged, lemma_step_completion, lemma_step_discovery, lemma_step_key_exchange, lemma_step_negotiation,
    lemma_step_noob_id, peer_fresh, ready_for_completion, sent, server_fresh,
};
use crate::pairing::machine::{discovery_request, peer_step, server_step, Outcome, State};
use crate::pairing::pin::{be_bytes, spec_noob_from_pin};
use crate::trust::identity::spec_pem_to_der;

verus! {

/// The bytes a joiner's Initial-Exchange result sends (none on failure).
pub open spec fn reply_bytes(r: Result<Vec<u8>, SessionError>) -> Seq<u8> {
    match r {
        Ok(v) => v@,
        Err(_) => seq![],
    }
}

/// The bytes an inviter's Completion result sends (none on failure).
pub open spec fn answer_bytes(r: Result<Step, SessionError>) -> Seq<u8> {
    match r {
        Ok(s) => step_send(s),
        Err(_) => seq![],
    }
}

/// A relay of both exchanges between the inviter sessions `inv` and the joiner
/// sessions `joi`: the inviter's Discovery request starts the Initial
/// Exchange (`begin_invite`), each side then processes what the other last
/// sent; the inviter shows `pin` and the joiner types it in; the joiner's
/// Completion kickoff is answered with the Discovery request again, and each
/// side processes what the other last sent.
pub open spec fn session_relay(
    inv: Seq<InviterSession>,
    joi: Seq<JoinerSession>,
    ist: Seq<Step>,
    jr: Seq<Result<Vec<u8>, SessionError>>,
    cst: Seq<Step>,
    ir: Seq<Result<Step, SessionError>>,
    pin: Seq<char>,
) -> bool {
    &&& inv.len() == 8 && joi.len() == 9 && ist.len() == 3 && jr.len() == 3 && cst.len() == 4 && ir.len() == 3
    &&& joiner_ran(joi[0], wire_bytes(discovery_request()), joi[1], jr[0])
    &&& inviter_initial_ran(inv[0], reply_bytes(jr[0]), inv[1], ist[0])
    &&& joiner_ran(joi[1], step_send(ist[0]), joi[2], jr[1])
    &&& inviter_initial_ran(inv[1], reply_bytes(jr[1]), inv[2], ist[1])
    &&& joiner_ran(joi[2], step_send(ist[1]), joi[3], jr[2])
    &&& inviter_initial_ran(inv[2], reply_bytes(jr[2]), inv[3], ist[2])
    &&& pin_set(inv[3], pin, inv[4])
    &&& pin_fed(joi[3], pin, joi[4])
    &&& joiner_completed(joi[4], wire_bytes(discovery_request()), joi[5], cst[0])
    &&& inviter_ran(inv[4], step_send(cst[0]), inv[5], ir[0])
    &&& joiner_completed(joi[5], answer_bytes(ir[0]), joi[6], cst[1])
    &&& inviter_ran(inv[5], step_send(cst[1]), inv[6], ir[1])
    &&& joiner_completed(joi[6], answer_bytes(ir[1]), joi[7], cst[2])
    &&& inviter_ran(inv[6], step_send(cst[2]), inv[7], ir[2])
    &&& joiner_completed(joi[7], answer_bytes(ir[2]), joi[8], cst[3])
}

/// The identity read from the PairingInfo JSON of `info`.
pub open spec fn identity_of(info: InfoView) -> (InfoView, Seq<u8>) {
    spec_parse_pairing_info(encode_utf8(info_json(info)))->Ok_0
}

/// The identity a valid PairingInfo is pinned as: the PairingInfo itself (a
/// version-1 one without an admission epoch gets the legacy epoch) and the DER
/// of its certificate.
pub open spec fn pinned_identity(info: InfoView) -> (InfoView, Seq<u8>) {
    (
        if info.admission_epoch == 0 {
            InfoView { admission_epoch: LEGACY_ADMISSION_EPOCH, ..info }
        } else {
            info
        },
        spec_pem_to_der(info.cert).unwrap(),
    )
}

/// A PairingInfo whose JSON reads back and validates is pinned as itself.
proof fn lemma_identity_pinned(info: InfoView)
    requires
        info_read(encode_utf8(info_json(info))),
        spec_parse_pairing_info(encode_utf8(info_json(info))) is Ok,
    ensures
        identity_of(info) == pinned_identity(info),
{
    assert(crate::cluster::info::info_from_json(encode_utf8(info_json(info))) == Some(info));
}

proof fn lemma_push_scalar(ms: Seq<(Seq<char>, Seq<char>)>, a: (Seq<char>, Seq<char>))
    requires
        forall|i: int| 0 <= i < ms.len() ==> json_scalar_text(#[trigger] ms[i].1),
        json_scalar_text(a.1),
    ensures
        forall|i: int| 0 <= i < ms.push(a).len() ==> json_scalar_text(#[trigger] ms.push(a)[i].1),
{
    assert forall|i: int| 0 <= i < ms.push(a).len() implies json_scalar_text(#[trigger] ms.push(a)[i].1) by {
        if i < ms.len() {
            assert(ms.push(a)[i] == ms[i]);
        }
    }
}

/// The PairingInfo JSON is a compact object of scalars, carried verbatim as
/// ServerInfo or PeerInfo.
proof fn lemma_info_flat(p: InfoView)
    ensures
        raw_ok(Some(info_json(p))),
        info_json(p).len() > 0,
{
    reveal_strlit("null");
    lemma_info_text(p);
    let a0 = ("v"@, crate::text::nat_str(p.v as nat));
    let a1 = ("nodeUuid"@, crate::codec::json_quote(p.node_uuid));
    let a2 = ("nodeId"@, crate::codec::json_quote(p.node_id));
    let a3 = ("name"@, crate::codec::json_quote(p.name));
    let a4 = ("clusterId"@, crate::codec::json_quote(p.cluster_id));
    let a5 = ("admissionEpoch"@, crate::text::nat_str(p.admission_epoch as nat));
    let a6 = ("clusterFriendlyName"@, crate::codec::json_quote(p.cluster_friendly_name));
    let a7 = ("addr"@, crate::codec::json_quote(p.addr));
    let a8 = ("cert"@, crate::codec::json_quote(p.cert));
    assert(json_scalar_text(a0.1) && json_scalar_text(a1.1) && json_scalar_text(a2.1));
    assert(json_scalar_text(a3.1) && json_scalar_text(a4.1) && json_scalar_text(a5.1));
    assert(json_scalar_text(a6.1) && json_scalar_text(a7.1) && json_scalar_text(a8.1));
    let e: Seq<(Seq<char>, Seq<char>)> = seq![];
    lemma_push_scalar(e, a0);
    lemma_push_scalar(e.push(a0), a1);
    lemma_push_scalar(e.push(a0).push(a1), a2);
    lemma_push_scalar(e.push(a0).push(a1).push(a2), a3);
    lemma_push_scalar(e.push(a0).push(a1).push(a2).push(a3), a4);
    let m0 = e.push(a0).push(a1).push(a2).push(a3).push(a4);
    assert(m0 =~= seq![a0, a1, a2, a3, a4]);
    lemma_push_scalar(m0, a5);
    let m1 = if p.admission_epoch != 0 { m0.push(a5) } else { m0 };
    lemma_push_scalar(m1, a6);
    let m2 = m1.push(a6);
    lemma_push_scalar(m2, a7);
    let m3 = if p.addr.len() > 0 { m2.push(a7) } else { m2 };
    lemma_push_scalar(m3, a8);
    assert(info_members(p) == m3.push(a8));
    assert(json_flat_text(info_json(p)));
    assert(info_json(p)[0] == '{');
}

proof fn lemma_be_bytes_len(v: nat, n: nat)
    ensures
        be_bytes(v, n).len() == n,
    decreases n,
{
    if n > 0 {
        lemma_be_bytes_len(v / 256, (n - 1) as nat);
    }
}

/// The Initial Exchange: the sessions reach Waiting with the same Z, nonces
/// and MAC inputs, and the joiner captures the inviter's identity.
proof fn lemma_sessions_initial(
    inv: Seq<InviterSession>,
    joi: Seq<JoinerSession>,
    ist: Seq<Step>,
    jr: Seq<Result<Vec<u8>, SessionError>>,
    cst: Seq<Step>,
    ir: Seq<Result<Step, SessionError>>,
    pin: Seq<char>,
    info_i: InfoView,
    info_j: InfoView,
)
    requires
        session_relay(inv, joi, ist, jr, cst, ir, pin),
        fresh_inviter(inv[0], info_i),
        fresh_joiner(joi[0], info_j),
        spec_parse_pairing_info(encode_utf8(info_json(info_i))) is Ok,
    ensures
        keys_exchanged(inv[3].server(), joi[3].peer()),
        joi[3].inviter_view() == Some(identity_of(info_i)),
        info_read(encode_utf8(info_json(info_i))),
        inv[3].joiner_view() is None,
        inv[3].server().method().inp.peer_info@ == info_json(info_j),
{
    let t1 = wire_bytes(discovery_request());
    lemma_info_flat(info_i);
    lemma_info_flat(info_j);
    let s0 = inv[0].server();
    let p0 = joi[0].peer();
    assert(server_fresh(s0));
    assert(peer_fresh(p0));
    let po0 = choose|o: Outcome|
        peer_step(joi[0].peer(), t1, joi[1].peer(), o) && #[trigger] joiner_initial(
            joi[0].inviter_view(),
            joi[1].peer(),
            o,
            joi[1].inviter_view(),
            jr[0],
        );
    let so0 = choose|o: Outcome| server_step(inv[0].server(), reply_bytes(jr[0]), inv[1].server(), o) && #[trigger] step_of(ist[0], o);
    lemma_step_discovery(s0, p0, joi[1].peer(), po0, reply_bytes(jr[0]), inv[1].server(), so0);
    assert(joi[1].inviter_view() is None);
    let po1 = choose|o: Outcome|
        peer_step(joi[1].peer(), step_send(ist[0]), joi[2].peer(), o) && #[trigger] joiner_initial(
            joi[1].inviter_view(),
            joi[2].peer(),
            o,
            joi[2].inviter_view(),
            jr[1],
        );
    let so1 = choose|o: Outcome| server_step(inv[1].server(), reply_bytes(jr[1]), inv[2].server(), o) && #[trigger] step_of(ist[1], o);
    assert(step_send(ist[0]) == sent(so0));
    lemma_step_negotiation(s0, inv[1].server(), so0, p0, joi[2].peer(), po1, reply_bytes(jr[1]), inv[2].server(), so1);
    assert(joi[2].inviter_view() is None);
    let po2 = choose|o: Outcome|
        peer_step(joi[2].peer(), step_send(ist[1]), joi[3].peer(), o) && #[trigger] joiner_initial(
            joi[2].inviter_view(),
            joi[3].peer(),
            o,
            joi[3].inviter_view(),
            jr[2],
        );
    let so2 = choose|o: Outcome| server_step(inv[2].server(), reply_bytes(jr[2]), inv[3].server(), o) && #[trigger] step_of(ist[2], o);
    assert(step_send(ist[1]) == sent(so1));
    lemma_step_key_exchange(inv[2].server(), so1, joi[2].peer(), joi[3].peer(), po2, reply_bytes(jr[2]), inv[3].server(), so2);
    assert(joi[3].peer().method().inp.server_info@ == info_json(info_i));
    assert(joi[3].inviter_view() == Some(identity_of(info_i)));
}

/// The Completion Exchange: both sessions register, the inviter captures the
/// joiner's identity, and both hold the same Kz.
proof fn lemma_sessions_completion(
    inv: Seq<InviterSession>,
    joi: Seq<JoinerSession>,
    ist: Seq<Step>,
    jr: Seq<Result<Vec<u8>, SessionError>>,
    cst: Seq<Step>,
    ir: Seq<Result<Step, SessionError>>,
    pin: Seq<char>,
    info_j: InfoView,
)
    requires
        session_relay(inv, joi, ist, jr, cst, ir, pin),
        ready_for_completion(inv[4].server(), joi[4].peer(), spec_noob_from_pin(pin)),
        inv[4].joiner_view() is None,
        inv[4].server().method().inp.peer_info@ == info_json(info_j),
        spec_parse_pairing_info(encode_utf8(info_json(info_j))) is Ok,
    ensures
        inv[7].server().st() == State::Registered && joi[8].peer().st() == State::Registered,
        ir[2] is Ok && ir[2]->Ok_0.done && ir[2]->Ok_0.success,
        cst[3].done && cst[3].success,
        inv[7].joiner_view() == Some(identity_of(info_j)),
        info_read(encode_utf8(info_json(info_j))),
        joi[8].inviter_view() == joi[4].inviter_view(),
        inv[7].server().spec_assoc() is Some && joi[8].peer().spec_assoc() is Some,
        inv[7].server().spec_assoc().unwrap().kz@ == joi[8].peer().spec_assoc().unwrap().kz@,
{
    let t1 = wire_bytes(discovery_request());
    let noob = spec_noob_from_pin(pin);
    let s4 = inv[4].server();
    let po4 = choose|o: Outcome| peer_step(joi[4].peer(), t1, joi[5].peer(), o) && #[trigger] step_of(cst[0], o);
    let so3 = choose|o: Outcome|
        server_step(inv[4].server(), step_send(cst[0]), inv[5].server(), o) && #[trigger] inviter_completion(
            inv[4].joiner_view(),
            inv[5].server(),
            o,
            inv[5].joiner_view(),
            ir[0],
        );
    let po5 = choose|o: Outcome| peer_step(joi[5].peer(), answer_bytes(ir[0]), joi[6].peer(), o) && #[trigger] step_of(cst[1], o);
    let so4 = choose|o: Outcome|
        server_step(inv[5].server(), step_send(cst[1]), inv[6].server(), o) && #[trigger] inviter_completion(
            inv[5].joiner_view(),
            inv[6].server(),
            o,
            inv[6].joiner_view(),
            ir[1],
        );
    assert(step_send(cst[0]) == sent(po4));
    assert(step_send(cst[1]) == sent(po5));
    lemma_step_noob_id(
        s4,
        joi[4].peer(),
        joi[5].peer(),
        po4,
        inv[5].server(),
        so3,
        answer_bytes(ir[0]),
        joi[6].peer(),
        po5,
        inv[6].server(),
        so4,
        noob,
    );
    assert(inv[6].joiner_view() is None);
    assert(answer_bytes(ir[1]) == sent(so4));
    let po6 = choose|o: Outcome| peer_step(joi[6].peer(), answer_bytes(ir[1]), joi[7].peer(), o) && #[trigger] step_of(cst[2], o);
    let so5 = choose|o: Outcome|
        server_step(inv[6].server(), step_send(cst[2]), inv[7].server(), o) && #[trigger] inviter_completion(
            inv[6].joiner_view(),
            inv[7].server(),
            o,
            inv[7].joiner_view(),
            ir[2],
        );
    let po7 = choose|o: Outcome| peer_step(joi[7].peer(), answer_bytes(ir[2]), joi[8].peer(), o) && #[trigger] step_of(cst[3], o);
    assert(step_send(cst[2]) == sent(po6));
    lemma_step_completion(
        s4,
        inv[6].server(),
        so4,
        joi[6].peer(),
        joi[7].peer(),
        po6,
        inv[7].server(),
        so5,
        answer_bytes(ir[2]),
        joi[8].peer(),
        po7,
        noob,
    );
}

/// The join law. An inviter session made for PairingInfo `info_i` and a
/// joiner session made for `info_j`, whose PairingInfo JSON each reads as a
/// valid identity, relay both exchanges with the same PIN: then both end
/// Registered, the inviter's last Completion step and the joiner's last step
/// report success, the inviter's pairing result carries the joiner's
/// PairingInfo and the DER of its certificate, the joiner's carries the
/// inviter's, and both carry the same Kz.
pub proof fn lemma_join_agrees(
    inv: Seq<InviterSession>,
    joi: Seq<JoinerSession>,
    ist: Seq<Step>,
    jr: Seq<Result<Vec<u8>, SessionError>>,
    cst: Seq<Step>,
    ir: Seq<Result<Step, SessionError>>,
    pin: Seq<char>,
    info_i: InfoView,
    info_j: InfoView,
)
    requires
        session_relay(inv, joi, ist, jr, cst, ir, pin),
        fresh_inviter(inv[0], info_i),
        fresh_joiner(joi[0], info_j),
        spec_parse_pairing_info(encode_utf8(info_json(info_i))) is Ok,
        spec_parse_pairing_info(encode_utf8(info_json(info_j))) is Ok,
    ensures
        inv.last().server().st() == State::Registered && joi.last().peer().st() == State::Registered,
        ir.last() is Ok && ir.last()->Ok_0.done && ir.last()->Ok_0.success,
        cst.last().done && cst.last().success,
        inv.last().joiner_view() == Some(pinned_identity(info_j)),
        joi.last().inviter_view() == Some(pinned_identity(info_i)),
        inv.last().server().spec_assoc() is Some && joi.last().peer().spec_assoc() is Some,
        paired_of(inv.last().joiner_view().unwrap(), inv.last().server().spec_assoc().unwrap()).0 == pinned_identity(info_j).0,
        paired_of(inv.last().joiner_view().unwrap(), inv.last().server().spec_assoc().unwrap()).1 == pinned_identity(info_j).1,
        paired_of(joi.last().inviter_view().unwrap(), joi.last().peer().spec_assoc().unwrap()).0 == pinned_identity(info_i).0,
        paired_of(joi.last().inviter_view().unwrap(), joi.last().peer().spec_assoc().unwrap()).1 == pinned_identity(info_i).1,
        paired_of(inv.last().joiner_view().unwrap(), inv.last().server().spec_assoc().unwrap()).2 == paired_of(
            joi.last().inviter_view().unwrap(),
            joi.last().peer().spec_assoc().unwrap(),
        ).2,
{
    lemma_sessions_initial(inv, joi, ist, jr, cst, ir, pin, info_i, info_j);
    let noob = spec_noob_from_pin(pin);
    lemma_be_bytes_len(
        match crate::pairing::pin::parse_u128(pin) {
            Some(v) => v,
            None => 0,
        },
        16,
    );
    assert(noob.len() == 16);
    assert(ready_for_completion(inv[4].server(), joi[4].peer(), noob));
    lemma_sessions_completion(inv, joi, ist, jr, cst, ir, pin, info_j);
    lemma_identity_pinned(info_i);
    lemma_identity_pinned(info_j);
}

} // verus!
