use openpair::pairing::kdf::{eapnoob_fixed_info, one_step_kdf_sha256, DerivedKeys, KdfError, EAPNOOB_OUTPUT_LEN};
use openpair::pairing::mac::{compute_mac, compute_noob_id, hmac_sha256, mac_equal, noob_array, MacInputs};
use openpair::pairing::machine::{Peer, Server, State};
use openpair::pairing::messages::{b64u, unb64u, MsgType};
use openpair::pairing::pin::{is_valid_pin, noob_from_pin};
use openpair::pairing::suite::{EcdhError, Suite};
use openpair::pairing::Phase;
use openpair::pairing::eap_wire::{from_bytes, to_bytes, Wire};
use sha2::Digest;

#[test]
fn kdf_length_and_determinism() {
    let z = b"shared-secret";
    let fi = eapnoob_fixed_info(b"np", b"ns", b"noob");
    let a = one_step_kdf_sha256(z, &fi, EAPNOOB_OUTPUT_LEN);
    let b = one_step_kdf_sha256(z, &fi, EAPNOOB_OUTPUT_LEN);
    assert_eq!(a.len(), 320);
    assert_eq!(a, b);
    // first block must equal H(1||z||fi)
    let mut h = sha2::Sha256::new();
    h.update(1u32.to_be_bytes());
    h.update(z);
    h.update(&fi);
    assert_eq!(&a[..32], &h.finalize()[..]);
}

#[test]
fn split_320() {
    let out = vec![7u8; 320];
    let k = DerivedKeys::from_output(&out).unwrap();
    assert_eq!(k.msk.len(), 64);
    assert_eq!(k.kz.len(), 32);
}

#[test]
fn split_rejects_short_output() {
    let out = vec![7u8; 319];
    assert!(matches!(DerivedKeys::from_output(&out), Err(KdfError::OutputTooShort)));
}

#[test]
fn split_takes_keys_in_order() {
    let out: Vec<u8> = (0..320u32).map(|i| (i % 251) as u8).collect();
    let k = DerivedKeys::from_output(&out).unwrap();
    assert_eq!(k.msk[0], out[0]);
    assert_eq!(k.emsk[0], out[64]);
    assert_eq!(k.amsk[0], out[128]);
    assert_eq!(k.method_id[0], out[192]);
    assert_eq!(k.kms[0], out[224]);
    assert_eq!(k.kmp[0], out[256]);
    assert_eq!(k.kz[0], out[288]);
    assert_eq!(k.kz[31], out[319]);
}

#[test]
fn fixed_info_layout() {
    let fi = eapnoob_fixed_info(b"np", b"ns", b"noob");
    assert_eq!(fi, b"EAP-NOOBnpns\x04noob".to_vec());
}

#[test]
fn phase_sequence() {
    let mut p = Phase::Discovery;
    for expected in [
        Phase::Negotiation,
        Phase::KeyExchange,
        Phase::WaitingForOob,
        Phase::NoobId,
        Phase::Completion,
        Phase::Done,
    ] {
        p = p.next();
        assert_eq!(p, expected);
    }
}

#[test]
fn done_phase_stays_done() {
    assert_eq!(Phase::Done.next(), Phase::Done);
}

#[test]
fn both_sides_derive_same_keys() {
    let server = Suite::X25519.generate();
    let peer = Suite::X25519.generate();
    let z_s = server.compute_z(&peer.public_jwk).unwrap();
    let z_p = peer.compute_z(&server.public_jwk).unwrap();
    assert_eq!(z_s, z_p);

    let (np, ns, noob) = (b"peer-nonce", b"server-nonce", b"oob-noob-value");
    let fi = eapnoob_fixed_info(np, ns, noob);
    let out_s = one_step_kdf_sha256(&z_s, &fi, EAPNOOB_OUTPUT_LEN);
    let out_p = one_step_kdf_sha256(&z_p, &fi, EAPNOOB_OUTPUT_LEN);
    assert_eq!(out_s, out_p);

    let ks = DerivedKeys::from_output(&out_s).unwrap();
    let kp = DerivedKeys::from_output(&out_p).unwrap();
    assert_eq!(ks.kms, kp.kms);
    assert_eq!(ks.kz, kp.kz);

    let inputs = MacInputs::default();
    assert!(mac_equal(&compute_mac(&ks.kms, 2, &inputs), &compute_mac(&kp.kms, 2, &inputs)));
}

#[test]
fn hmac_rfc_shape() {
    let m = hmac_sha256(b"key", b"data");
    assert_eq!(m.len(), 32);
    assert_eq!(m, hmac_sha256(b"key", b"data"));
    assert_ne!(m, hmac_sha256(b"key2", b"data"));
}

#[test]
fn mac_equal_is_length_safe() {
    assert!(mac_equal(&[1, 2, 3], &[1, 2, 3]));
    assert!(!mac_equal(&[1, 2, 3], &[1, 2, 4]));
    assert!(!mac_equal(&[1, 2], &[1, 2, 3]));
}

#[test]
fn noob_array_is_verbatim_17_elements() {
    let m = MacInputs {
        vers: "[1]".into(),
        ns: "\"bnM\"".into(),
        np: "\"bnA\"".into(),
        noob: "\"Tm9vYg\"".into(),
        ..MacInputs::default()
    };
    let bytes = noob_array("2", &m);
    let s = String::from_utf8(bytes).unwrap();
    assert!(s.starts_with("[2,[1],"));
    assert!(!s.contains(' '));
    assert!(s.contains(",0,")); // KeyingMode literal
    assert!(s.ends_with(",\"Tm9vYg\"]"));
    // Absent fields emitted as "".
    assert!(s.contains(",\"\","));
}

#[test]
fn macs_and_macp_differ_by_lead_and_key() {
    let m = MacInputs::default();
    let macs = compute_mac(b"Kms", 2, &m);
    let macp = compute_mac(b"Kmp", 1, &m);
    assert_ne!(macs, macp);
    assert_eq!(macs, compute_mac(b"Kms", 2, &m));
}

#[test]
fn noob_id_shape() {
    let id = compute_noob_id("\"Tm9vYg\"");
    assert_eq!(id.len(), 16);
}

#[test]
fn type_roundtrip() {
    assert_eq!(MsgType::from_u8(3), Some(MsgType::KeyExchange));
    assert_eq!(MsgType::Completion.to_u8(), 6);
}

#[test]
fn unknown_type_is_none() {
    assert_eq!(MsgType::from_u8(0), None);
    assert_eq!(MsgType::from_u8(9), None);
}

#[test]
fn b64url_roundtrip() {
    let data = [0u8, 1, 2, 250, 251, 255];
    assert_eq!(unb64u(&b64u(&data)).unwrap(), data);
}

#[test]
fn b64url_has_no_padding() {
    assert_eq!(b64u(&[0u8]), "AA");
    assert!(unb64u("!!").is_err());
}

#[test]
fn valid_pin_shape() {
    assert!(is_valid_pin("000000"));
    assert!(is_valid_pin("123456"));
    assert!(!is_valid_pin("12345")); // too short
    assert!(!is_valid_pin("1234567")); // too long
    assert!(!is_valid_pin("12a456")); // non-digit
    assert!(!is_valid_pin(""));
}

#[test]
fn noob_is_16_be_bytes_left_padded() {
    // 123456 = 0x01E240; occupies the last three bytes, rest zero.
    let n = noob_from_pin("123456");
    assert_eq!(n.len(), 16);
    assert_eq!(&n[..13], &[0u8; 13]);
    assert_eq!(&n[13..], &[0x01, 0xE2, 0x40]);
}

#[test]
fn leading_zeros_preserved_as_value() {
    // "000123" is the integer 123, not a distinct byte pattern.
    assert_eq!(noob_from_pin("000123"), noob_from_pin("123"));
    let n = noob_from_pin("000001");
    assert_eq!(n[15], 1);
    assert_eq!(&n[..15], &[0u8; 15]);
}

#[test]
fn max_pin() {
    // 999999 = 0x0F423F.
    let n = noob_from_pin("999999");
    assert_eq!(&n[13..], &[0x0F, 0x42, 0x3F]);
}

#[test]
fn suite_ids() {
    assert_eq!(Suite::from_id(1), Some(Suite::X25519));
    assert_eq!(Suite::from_id(2), Some(Suite::P256));
    assert_eq!(Suite::X25519.id(), 1);
}

#[test]
fn x25519_ecdh_agrees() {
    let a = Suite::X25519.generate();
    let b = Suite::X25519.generate();
    let za = a.compute_z(&b.public_jwk).unwrap();
    let zb = b.compute_z(&a.public_jwk).unwrap();
    assert_eq!(za, zb);
    assert_eq!(za.len(), 32);
    assert_eq!(a.public_jwk.kty, "OKP");
}

#[test]
fn p256_ecdh_agrees() {
    let a = Suite::P256.generate();
    let b = Suite::P256.generate();
    let za = a.compute_z(&b.public_jwk).unwrap();
    let zb = b.compute_z(&a.public_jwk).unwrap();
    assert_eq!(za, zb);
    assert_eq!(za.len(), 32);
    assert_eq!(a.public_jwk.kty, "EC");
    assert!(a.public_jwk.y.is_some());
}

#[test]
fn mismatched_suites_error() {
    let a = Suite::X25519.generate();
    let b = Suite::P256.generate();
    assert!(a.compute_z(&b.public_jwk).is_err());
    assert_eq!(a.compute_z(&b.public_jwk), Err(EcdhError::WrongKeyType));
}

#[test]
fn full_handshake_registers_both_sides() {
    let mut s = Server::new();
    let mut p = Peer::new();

    // Initial Exchange: Type 1 -> ... -> Type 3, ending in EAP-Failure.
    let mut msg = s.start();
    loop {
        assert!(p.can_receive(&msg));
        let po = p.receive(&msg);
        let pb = po.send.expect("peer sends");
        assert!(s.can_receive(&pb));
        let so = s.receive(&pb);
        if so.done {
            if let Some(b) = so.send {
                let _ = p.receive(&b);
            }
            break;
        }
        msg = so.send.expect("server sends");
    }
    assert_eq!(s.state(), State::Waiting);
    assert_eq!(p.state(), State::Waiting);

    // Out-of-band: a shared 16-byte Noob (as if from a PIN).
    let noob = [7u8; 16];
    s.oob_output_with(&noob).unwrap();
    p.oob_input_noob(&noob).unwrap();

    // Completion Exchange: server restarts the conversation.
    let mut msg = s.start();
    let mut guard = 0;
    loop {
        guard += 1;
        assert!(guard < 12, "handshake did not converge");
        let po = p.receive(&msg);
        if po.success {
            break;
        }
        let pb = po.send.expect("peer sends");
        let so = s.receive(&pb);
        if let Some(b) = &so.send {
            msg = b.clone();
        }
        if so.success {
            let _ = p.receive(&msg);
            break;
        }
    }
    assert_eq!(s.state(), State::Registered);
    assert_eq!(p.state(), State::Registered);
    assert_eq!(s.association().unwrap().kz, p.association().unwrap().kz);
}

#[test]
fn wrong_noob_fails_completion() {
    let mut s = Server::new();
    let mut p = Peer::new();
    let mut msg = s.start();
    loop {
        let po = p.receive(&msg);
        let pb = po.send.expect("peer sends");
        let so = s.receive(&pb);
        if so.done {
            if let Some(b) = so.send {
                let _ = p.receive(&b);
            }
            break;
        }
        msg = so.send.expect("server sends");
    }
    s.oob_output_with(&[7u8; 16]).unwrap();
    p.oob_input_noob(&[8u8; 16]).unwrap();
    let mut msg = s.start();
    let mut failed = false;
    for _ in 0..12 {
        let po = p.receive(&msg);
        if po.success || po.done {
            failed = !po.success;
            break;
        }
        let pb = match po.send {
            Some(b) => b,
            None => break,
        };
        let so = s.receive(&pb);
        if so.done {
            failed = !so.success;
            break;
        }
        match so.send {
            Some(b) => msg = b,
            None => break,
        }
    }
    assert!(failed);
    assert_ne!(s.state(), State::Registered);
}

#[test]
fn kdf_blocks_are_counter_digests_and_prefixes_agree() {
    let z = b"shared-secret";
    let fi = eapnoob_fixed_info(b"np", b"ns", &[1u8; 16]);
    let full = one_step_kdf_sha256(z, &fi, EAPNOOB_OUTPUT_LEN);
    let mut first = Vec::new();
    first.extend_from_slice(&1u32.to_be_bytes());
    first.extend_from_slice(z);
    first.extend_from_slice(&fi);
    assert_eq!(&full[0..32], openpair::pairing::mac::sha256(&first).as_slice());
    let mut second = Vec::new();
    second.extend_from_slice(&2u32.to_be_bytes());
    second.extend_from_slice(z);
    second.extend_from_slice(&fi);
    assert_eq!(&full[32..64], openpair::pairing::mac::sha256(&second).as_slice());
    let short = one_step_kdf_sha256(z, &fi, 45);
    assert_eq!(short.as_slice(), &full[0..45]);
}

#[test]
fn wire_roundtrip_with_nested_members() {
    let mut w = Wire::empty();
    w.type_ = Some(2);
    w.sleep_time = Some(-3);
    w.peer_id = Some("\"abc\"".to_string());
    w.vers = Some("[1]".to_string());
    w.cryptosuites = Some("[1,2]".to_string());
    w.pks = Some(r#"{"kty":"OKP","crv":"X25519","x":"AAAA"}"#.to_string());
    w.server_info = Some(r#"{"v":2,"name":"n"}"#.to_string());
    w.error_info = Some("a \"q\"\n".to_string());
    let bytes = to_bytes(&w);
    let r = from_bytes(&bytes).expect("reads back");
    assert_eq!(r.type_, Some(2));
    assert_eq!(r.sleep_time, Some(-3));
    assert_eq!(r.peer_id.as_deref(), Some("\"abc\""));
    assert_eq!(r.vers.as_deref(), Some("[1]"));
    assert_eq!(r.cryptosuites.as_deref(), Some("[1,2]"));
    assert_eq!(r.pks.as_deref(), Some(r#"{"kty":"OKP","crv":"X25519","x":"AAAA"}"#));
    assert_eq!(r.server_info.as_deref(), Some(r#"{"v":2,"name":"n"}"#));
    assert_eq!(r.error_info.as_deref(), Some("a \"q\"\n"));
    assert_eq!(r.eap, None);
    assert_eq!(r.macs, None);
}

#[test]
fn wire_and_jwk_with_a_repeated_member_are_refused() {
    assert!(from_bytes(br#"{"Type":1,"Type":2}"#).is_none());
    assert!(from_bytes(br#"{"Type":1,"Other":2,"Other":3}"#).is_some());
    assert!(openpair::pairing::suite::parse_jwk(br#"{"kty":"OKP","crv":"X25519","x":"AA","x":"BB"}"#).is_none());
    assert!(openpair::pairing::suite::parse_jwk(br#"{"kty":"OKP","crv":"X25519","x":"AA"}"#).is_some());
}
