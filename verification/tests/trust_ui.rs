use openpair::trust::identity::{cert_fingerprint, node_uuid_from_cert, pem_cert_to_der, Identity, IdentityError};
use openpair::trust::membership::{
    endorse_payload_v1, endorse_payload_v2, public_key, sign, tombstone_payload_v1, tombstone_payload_v2, verify,
    verifying_key_from_cert,
};
use openpair::trust::pin::{PeerPinStore, PinError};
use openpair::trust::uuid_scheme::{node_urn, uuid_from_urn};
use openpair::ui::{normalize_pairing_addr, parse_url, route, UiRoute, UrlError};

#[test]
fn urn_roundtrip() {
    let u = "abcd";
    assert_eq!(node_urn(u), "urn:nvpair:node:abcd");
    assert_eq!(uuid_from_urn("urn:nvpair:node:abcd").as_deref(), Some("abcd"));
    assert_eq!(uuid_from_urn("urn:other:xyz"), None);
}

#[test]
fn generate_has_uuid_san_and_fingerprint() {
    let id = Identity::generate_with_uuid("11112222-3333-4444-5555-666677778888").unwrap();
    assert_eq!(id.node_uuid, "11112222-3333-4444-5555-666677778888");
    assert!(id.fingerprint().starts_with("sha256:"));
    let recovered = node_uuid_from_cert(&id.cert_der).unwrap();
    assert_eq!(recovered, id.node_uuid);
}

#[test]
fn fingerprint_is_stable() {
    let id = Identity::generate().unwrap();
    assert_eq!(id.fingerprint(), cert_fingerprint(&id.cert_der));
    assert_eq!(id.fingerprint().len(), 7 + 64);
}

#[test]
fn pem_roundtrips_to_der() {
    let id = Identity::generate().unwrap();
    assert_eq!(pem_cert_to_der(&id.cert_pem), Some(id.cert_der.clone()));
    assert_eq!(pem_cert_to_der("no certificate"), None);
    let again = Identity::from_pem(&id.cert_pem, &id.key_pem).unwrap();
    assert_eq!(again.node_uuid, id.node_uuid);
}

#[test]
fn pin_and_match() {
    let peer = Identity::generate().unwrap();
    let mut store = PeerPinStore::new();
    let uuid = store.pin(&peer.cert_der).unwrap();
    assert_eq!(uuid, peer.node_uuid);
    assert!(store.is_pinned(&peer.cert_der));
    assert_eq!(store.len(), 1);

    let other = Identity::generate().unwrap();
    assert!(!store.is_pinned(&other.cert_der));
}

#[test]
fn pin_replaces_and_removes() {
    let peer = Identity::generate().unwrap();
    let mut store = PeerPinStore::new();
    store.pin(&peer.cert_der).unwrap();
    store.pin(&peer.cert_der).unwrap();
    assert_eq!(store.len(), 1);
    assert!(store.get(&peer.node_uuid).is_some());
    assert!(store.remove(&peer.node_uuid).is_some());
    assert!(store.is_empty());
    assert!(!store.is_pinned(&peer.cert_der));
    assert!(store.pin(b"not a certificate").is_err());
}

#[test]
fn payload_layouts_are_exact() {
    assert_eq!(
        endorse_payload_v2("uu", "sha256:ff", "cl", 3, 7, 1788),
        b"nvpair-endorse:v2\nuu\nsha256:ff\ncl\n3\n7\n1788".to_vec()
    );
    assert_eq!(tombstone_payload_v2("nn", "cl", 3, 7, 1788), b"nvpair-remove:v2\nnn\ncl\n3\n7\n1788".to_vec());
    assert_eq!(
        endorse_payload_v1("uu", "sha256:ff", "cl", 1788),
        b"nvpair-endorse:v1\nuu\nsha256:ff\ncl\n1788".to_vec()
    );
}

#[test]
fn tombstone_v1_layout_and_negative_time() {
    assert_eq!(tombstone_payload_v1("nn", "cl", -5), b"nvpair-remove:v1\nnn\ncl\n-5".to_vec());
}

#[test]
fn sign_and_verify_endorsement() {
    let secret = [9u8; 32];
    let payload = endorse_payload_v2("peer-uuid", "sha256:abcd", "cluster-1", 1, 1, 1788);
    let sig = sign(&secret, &payload);
    let pk = public_key(&secret);
    assert!(verify(&pk, &payload, &sig));
    let bad = endorse_payload_v2("peer-uuid", "sha256:0000", "cluster-1", 1, 1, 1788);
    assert!(!verify(&pk, &bad, &sig));
    assert!(!verify(&pk, &payload, "not base64!"));
    assert!(!verify(&pk, &payload, "AAAA"));
}

#[test]
fn cert_pubkey_matches_signing_key() {
    let id = Identity::generate().unwrap();
    let from_cert = verifying_key_from_cert(&id.cert_der).unwrap();
    assert_eq!(from_cert.len(), 32);
    // The PKCS#8 (v2) key carries its public key as its last 32 bytes.
    let n = id.key_pkcs8_der.len();
    assert_eq!(&from_cert[..], &id.key_pkcs8_der[n - 32..]);
    assert!(verifying_key_from_cert(b"junk").is_none());
}

#[test]
fn url_parsing() {
    assert_eq!(parse_url("http://1.2.3.4:7070").unwrap(), ("1.2.3.4".into(), 7070, "/".into()));
    assert_eq!(parse_url("http://host:80/api/status").unwrap(), ("host".into(), 80, "/api/status".into()));
    assert!(parse_url("https://x").is_err());
}

#[test]
fn url_defaults_and_errors() {
    assert_eq!(parse_url("http://host").unwrap(), ("host".into(), 80, "/".into()));
    assert_eq!(parse_url("http://host:notaport/x").unwrap(), ("host".into(), 80, "/x".into()));
    assert_eq!(parse_url("ftp://h"), Err(UrlError::NotHttp));
    assert_eq!(UrlError::NotHttp.message(), "only http:// URLs");
}

#[test]
fn pairing_addr_gets_default_port() {
    assert_eq!(normalize_pairing_addr("10.0.0.7"), "10.0.0.7:14321");
    assert_eq!(normalize_pairing_addr("10.0.0.7:9000"), "10.0.0.7:9000");
    assert_eq!(normalize_pairing_addr("host:abc"), "host:abc:14321");
}

#[test]
fn dashboard_routes() {
    assert_eq!(route("GET", "/"), UiRoute::Index);
    assert_eq!(route("POST", "/api/trust/pair"), UiRoute::TrustPair);
    assert_eq!(route("GET", "/api/trust/pair"), UiRoute::NotFound);
    assert_eq!(route("POST", "/api/pairing/respond"), UiRoute::PairingRespond);
}

#[test]
fn statement_kinds_never_share_bytes() {
    let e1 = endorse_payload_v1("a", "b", "c", 1);
    let e2 = endorse_payload_v2("a", "b", "c", 0, 0, 1);
    let t1 = tombstone_payload_v1("a", "b", 1);
    let t2 = tombstone_payload_v2("a", "b", 0, 0, 1);
    assert_ne!(e1, e2);
    assert_ne!(e1, t1);
    assert_ne!(e2, t2);
    assert_ne!(t1, t2);
}

#[test]
fn normalizing_twice_is_normalizing_once() {
    for a in ["10.0.0.7", "10.0.0.7:9000", "host:abc", ""] {
        let once = normalize_pairing_addr(a);
        assert_eq!(normalize_pairing_addr(&once), once);
    }
}

#[test]
fn identity_and_pin_error_messages() {
    assert_eq!(IdentityError::Crypto.message(), "key or certificate operation failed");
    assert_eq!(IdentityError::NoCertificate.message(), "no CERTIFICATE block");
    assert_eq!(IdentityError::NoNodeUuid.message(), "cert missing urn:nvpair:node SAN");
    assert_eq!(PinError::NoNodeUuid.message(), "refusing to pin: cert has no urn:nvpair:node SAN");
}
