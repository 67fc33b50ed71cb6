use openpair::cluster::http::{pairing_request, pairing_response, PairingRequest, PostError};
use openpair::cluster::info::{parse_pairing_info, InfoError, PairingInfo, PAIRING_INFO_VERSION};
use openpair::cluster::node::{
    default_pairing_addr, format_pin, node_profile, CompletionAction, InviteStep, NodeProfile, Paired, PairingNode,
};
use openpair::cluster::phase;
use openpair::cluster::reason;
use openpair::cluster::wire::{PairingEnvelope, DEFAULT_PAIRING_PORT, PAIRING_PATH};
use openpair::trust::identity::Identity;

fn info_for(id: &Identity, addr: &str) -> PairingInfo {
    PairingInfo {
        v: PAIRING_INFO_VERSION,
        node_uuid: id.node_uuid.clone(),
        node_id: id.fingerprint(),
        name: "test-node".into(),
        cluster_id: "cluster-abc".into(),
        admission_epoch: 1,
        cluster_friendly_name: "Test Cluster".into(),
        addr: addr.into(),
        cert: id.cert_pem.clone(),
    }
}

#[test]
fn roundtrip_and_principal_binding() {
    let id = Identity::generate().unwrap();
    let pi = info_for(&id, "10.0.0.5:14321");
    let json = pi.to_json();
    let (parsed, der) = parse_pairing_info(json.as_bytes()).unwrap();
    assert_eq!(parsed.node_uuid, id.node_uuid);
    assert_eq!(parsed.addr, "10.0.0.5:14321");
    assert_eq!(der, id.cert_der);
}

#[test]
fn rejects_cert_uuid_mismatch() {
    let id = Identity::generate().unwrap();
    let other = Identity::generate().unwrap();
    let mut pi = info_for(&id, "");
    // Present someone else's cert under our nodeUuid: must be rejected.
    pi.cert = other.cert_pem.clone();
    let err = parse_pairing_info(pi.to_json().as_bytes()).unwrap_err();
    assert!(err.message().contains("principal"));
    assert_eq!(err, InfoError::PrincipalMismatch);
}

#[test]
fn rejects_v2_without_admission_epoch() {
    let id = Identity::generate().unwrap();
    let mut pi = info_for(&id, "");
    pi.admission_epoch = 0;
    let err = parse_pairing_info(pi.to_json().as_bytes()).unwrap_err();
    assert!(err.message().contains("admissionEpoch"));
}

#[test]
fn info_rejects_garbage_and_missing_parts() {
    assert_eq!(parse_pairing_info(b"not json").unwrap_err(), InfoError::Decode);
    let id = Identity::generate().unwrap();
    let mut pi = info_for(&id, "");
    pi.node_uuid = String::new();
    assert_eq!(parse_pairing_info(pi.to_json().as_bytes()).unwrap_err(), InfoError::MissingNodeUuid);
    let mut pi = info_for(&id, "");
    pi.cert = "no pem here".into();
    assert_eq!(parse_pairing_info(pi.to_json().as_bytes()).unwrap_err(), InfoError::NoCertificate);
}

#[test]
fn envelope_roundtrip() {
    let e = PairingEnvelope::with_msg("inv-1", phase::INITIAL, b"{\"Type\":1}");
    let j = e.to_json();
    assert!(j.contains("\"inviteId\":\"inv-1\""));
    assert!(j.contains("\"phase\":\"initial\""));
    let back = PairingEnvelope::from_json(j.as_bytes()).unwrap();
    assert_eq!(back.blob(), b"{\"Type\":1}");
}

#[test]
fn kickoff_has_empty_msg() {
    let e = PairingEnvelope::signal("inv-1", phase::COMPLETION, "");
    let j = e.to_json();
    assert!(!j.contains("\"msg\""));
    assert!(e.blob().is_empty());
}

#[test]
fn rejected_shape() {
    let e = PairingEnvelope::rejected(reason::ALREADY_CLUSTERED);
    let j = e.to_json();
    assert!(j.contains("\"rejected\":true"));
    assert!(j.contains("already-clustered"));
}

#[test]
fn envelope_needs_invite_id_and_phase() {
    assert!(PairingEnvelope::from_json(b"{\"phase\":\"initial\"}").is_none());
    assert!(PairingEnvelope::from_json(b"{\"inviteId\":\"x\"}").is_none());
    let e = PairingEnvelope::from_json(b"{\"inviteId\":\"x\",\"phase\":\"ack\",\"other\":1}").unwrap();
    assert_eq!(e.invite_id, "x");
    assert!(!e.rejected);
    assert!(e.msg.is_empty());
}

#[test]
fn server_refuses_off_path_and_non_post() {
    let body = PairingEnvelope::signal("i", phase::ACK, "").to_json();
    match pairing_request("/other", "POST", body.as_bytes()) {
        PairingRequest::Refuse(code, msg) => {
            assert_eq!(code, 404);
            assert_eq!(msg, "not found");
        }
        _ => panic!("expected 404"),
    }
    match pairing_request(PAIRING_PATH, "GET", body.as_bytes()) {
        PairingRequest::Refuse(code, _) => assert_eq!(code, 405),
        _ => panic!("expected 405"),
    }
    match pairing_request(PAIRING_PATH, "POST", b"garbage") {
        PairingRequest::Refuse(code, msg) => {
            assert_eq!(code, 400);
            assert_eq!(msg, "bad request");
        }
        _ => panic!("expected 400"),
    }
    match pairing_request(PAIRING_PATH, "POST", body.as_bytes()) {
        PairingRequest::Handle(e) => assert_eq!(e.invite_id, "i"),
        _ => panic!("expected an envelope"),
    }
}

#[test]
fn client_reads_409_rejection_and_errors() {
    let rej = PairingEnvelope::rejected(reason::ALREADY_CLUSTERED).to_json();
    let e = pairing_response(409, rej.as_bytes()).unwrap();
    assert!(e.rejected);
    assert_eq!(e.reason, "already-clustered");
    let plain = PairingEnvelope::signal("i", phase::FAIL, "x").to_json();
    match pairing_response(409, plain.as_bytes()) {
        Err(PostError::Status(409, _)) => {}
        _ => panic!("a 409 without rejection is an error"),
    }
    match pairing_response(500, b"boom") {
        Err(PostError::Status(500, t)) => assert_eq!(t, "boom"),
        _ => panic!("expected a status error"),
    }
    assert!(matches!(pairing_response(200, b"nope"), Err(PostError::Decode)));
    assert_eq!(pairing_response(200, plain.as_bytes()).unwrap().reason, "x");
}

#[test]
fn default_addr_and_pin_format() {
    assert_eq!(default_pairing_addr("10.1.2.3"), format!("10.1.2.3:{}", DEFAULT_PAIRING_PORT));
    assert_eq!(format_pin(42), "000042");
    assert_eq!(format_pin(999999), "999999");
}

fn profile(name: &str, cluster_id: &str, friendly: &str, addr: &str) -> NodeProfile {
    let p = node_profile(
        Identity::generate().unwrap(),
        name.to_string(),
        addr.to_string(),
        cluster_id.to_string(),
        friendly.to_string(),
    );
    assert_eq!(p.admission_epoch, 1);
    assert_eq!(p.advertised_addr, addr);
    p
}

/// Drive the Initial Exchange from `inviter` to `joiner` directly (as the
/// HTTP channel would) and mint the PIN.
fn invite(inviter: &mut PairingNode, joiner: &mut PairingNode, pinned: &mut Vec<Paired>) -> (String, String) {
    let (mut drive, mut env) = inviter.begin_invite();
    for _ in 0..12 {
        assert!(joiner.can_handle(&env));
        let (reply, paired) = joiner.handle_request(env, false);
        if let Some(p) = paired {
            pinned.push(p);
        }
        assert!(drive.can_receive(&reply.envelope));
        match drive.on_response(&reply.envelope) {
            InviteStep::Send(e) => env = e,
            InviteStep::Ready => return inviter.finish_invite(drive).expect("finish invite"),
            InviteStep::Failed(e) => panic!("invite failed: {}", e.message()),
        }
    }
    panic!("initial exchange did not converge")
}

/// Drive the Completion Exchange from `joiner` to `inviter`; the joiner's
/// result and what each side pinned.
fn complete(
    inviter: &mut PairingNode,
    joiner: &mut PairingNode,
    invite_id: &str,
    pin: &str,
    inviter_pins: &mut Vec<Paired>,
) -> Result<Paired, String> {
    let (_addr, mut env) = joiner.begin_completion(invite_id, pin).map_err(|e| e.message())?;
    for _ in 0..12 {
        assert!(inviter.can_handle(&env));
        let (reply, paired) = inviter.handle_request(env, false);
        if let Some(p) = paired {
            inviter_pins.push(p);
        }
        assert!(joiner.can_complete_step(invite_id, &reply.envelope));
        match joiner.completion_step(invite_id, &reply.envelope) {
            CompletionAction::Send(e) => env = e,
            CompletionAction::Paired(p, ack) => {
                let (_, paired) = inviter.handle_request(ack, false);
                if let Some(q) = paired {
                    inviter_pins.push(q);
                }
                return Ok(p);
            }
            CompletionAction::Failed { notify, auth_failed, error } => {
                let _ = inviter.handle_request(notify, false);
                assert_eq!(auth_failed, error.contains("(incorrect pin)"));
                assert!(error.starts_with("completion failed"));
                return Err(error);
            }
            CompletionAction::Error(e) => return Err(e.message()),
        }
    }
    Err("completion did not converge".into())
}

#[test]
fn full_cluster_join_in_memory() {
    let ip = profile("inviter", "cluster-xyz", "Living Room", "10.0.0.1:14321");
    let jp = profile("joiner", "", "", "10.0.0.2:14321");
    let inviter_der = ip.identity.cert_der.clone();
    let joiner_der = jp.identity.cert_der.clone();
    let mut inviter = PairingNode::new(ip);
    let mut joiner = PairingNode::new(jp);
    let mut joiner_side_pins = Vec::new();
    let (invite_id, pin) = invite(&mut inviter, &mut joiner, &mut joiner_side_pins);
    assert_eq!(pin.len(), 6);

    let pending = joiner.pending_invites();
    assert_eq!(pending.len(), 1);
    assert_eq!(pending[0].invite_id, invite_id);
    assert_eq!(pending[0].from_name, "inviter");
    assert_eq!(pending[0].cluster_friendly_name, "Living Room");
    assert_eq!(pending[0].inviter_addr, "10.0.0.1:14321");

    let mut inviter_pins = Vec::new();
    let joiner_paired = complete(&mut inviter, &mut joiner, &invite_id, &pin, &mut inviter_pins).expect("pairing");
    assert_eq!(inviter_pins.len(), 1, "inviter pinned the joiner");
    assert_eq!(inviter_pins[0].kz, joiner_paired.kz, "shared Kz agrees");
    assert_eq!(joiner_paired.peer.name, "inviter");
    assert_eq!(joiner_paired.peer.cluster_id, "cluster-xyz");
    assert_eq!(joiner_paired.peer_cert_der, inviter_der);
    assert_eq!(inviter_pins[0].peer.name, "joiner");
    assert_eq!(inviter_pins[0].peer_cert_der, joiner_der);
    assert!(joiner.pending_invites().is_empty());
}

#[test]
fn wrong_pin_fails_and_pins_nothing_in_memory() {
    let mut inviter = PairingNode::new(profile("inviter", "cluster-xyz", "Den", "10.0.0.1:14321"));
    let mut joiner = PairingNode::new(profile("joiner", "", "", "10.0.0.2:14321"));
    let mut pins = Vec::new();
    let (invite_id, pin) = invite(&mut inviter, &mut joiner, &mut pins);
    let n: u32 = pin.parse().unwrap();
    let wrong = format!("{:06}", (n + 1) % 1_000_000);
    let mut inviter_pins = Vec::new();
    let err = complete(&mut inviter, &mut joiner, &invite_id, &wrong, &mut inviter_pins).expect_err("wrong pin must fail");
    assert!(err.contains("incorrect pin"), "got: {err}");
    assert!(pins.is_empty());
    assert!(inviter_pins.is_empty());
}

#[test]
fn invalid_pin_is_refused_before_any_exchange() {
    let mut inviter = PairingNode::new(profile("inviter", "c", "C", "10.0.0.1:14321"));
    let mut joiner = PairingNode::new(profile("joiner", "", "", "10.0.0.2:14321"));
    let mut pins = Vec::new();
    let (invite_id, _pin) = invite(&mut inviter, &mut joiner, &mut pins);
    let err = joiner.begin_completion(&invite_id, "12ab56").unwrap_err();
    assert!(!err.message().is_empty());
    let err = joiner.begin_completion("no-such-invite", "123456").unwrap_err();
    assert!(!err.message().is_empty());
}

#[test]
fn clustered_joiner_rejects_invites() {
    let inviter = PairingNode::new(profile("inviter", "c", "C", "10.0.0.1:14321"));
    let mut joiner = PairingNode::new(profile("joiner", "other", "O", "10.0.0.2:14321"));
    let (_drive, env) = inviter.begin_invite();
    let (reply, paired) = joiner.handle_request(env, true);
    assert_eq!(reply.status, 409);
    assert!(reply.envelope.rejected);
    assert_eq!(reply.envelope.reason, reason::ALREADY_CLUSTERED);
    assert!(paired.is_none());
}

#[test]
fn envelope_json_reads_back_every_member() {
    let mut e = PairingEnvelope::rejected("no \"thanks\"\n\u{1}");
    e.invite_id = "inv-\\2".to_string();
    e.phase = "completion".to_string();
    e.msg = "AAEC".to_string();
    let back = PairingEnvelope::from_json(e.to_json().as_bytes()).unwrap();
    assert_eq!(back.invite_id, e.invite_id);
    assert_eq!(back.phase, e.phase);
    assert_eq!(back.msg, e.msg);
    assert!(back.rejected);
    assert_eq!(back.reason, e.reason);
    assert_eq!(back.blob(), vec![0u8, 1, 2]);
}

#[test]
fn pairing_info_with_a_repeated_member_is_refused() {
    let id = Identity::generate().unwrap();
    let json = info_for(&id, "").to_json();
    let doubled = json.replacen("{", "{\"nodeUuid\":\"someone-else\",", 1);
    assert!(matches!(parse_pairing_info(doubled.as_bytes()), Err(InfoError::Decode)));
    let extra = json.replacen("{", "{\"other\":1,\"other\":2,", 1);
    assert!(parse_pairing_info(extra.as_bytes()).is_ok());
}

#[test]
fn envelope_with_a_repeated_member_is_refused() {
    assert!(PairingEnvelope::from_json(br#"{"inviteId":"a","phase":"initial","phase":"completion"}"#).is_none());
    assert!(PairingEnvelope::from_json(br#"{"inviteId":"a","phase":"initial","x":1,"x":2}"#).is_some());
    let spaced = PairingEnvelope::from_json(b" { \"inviteId\" : \"a\" ,\n\t\"phase\" : \"initial\" } ").unwrap();
    assert_eq!(spaced.phase, "initial");
    assert!(PairingEnvelope::from_json(b" { \"inviteId\" : \"a\" , \"phase\":\"p\", \"inviteId\" :\"b\"}").is_none());
    assert!(PairingEnvelope::from_json(br#"{"inviteId":"a","phase":"p","\u0070hase":"q"}"#).is_none());
}

#[test]
fn first_type_refuses_a_repeated_type() {
    assert_eq!(openpair::cluster::node::first_type(br#"{"Type":1}"#), Some(1));
    assert_eq!(openpair::cluster::node::first_type(br#"{"Type":1,"Type":1}"#), None);
    assert_eq!(openpair::cluster::node::first_type(br#"{"Type":1,"x":0,"x":1}"#), Some(1));
}
