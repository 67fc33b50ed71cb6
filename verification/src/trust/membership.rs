//! Signed cluster membership: endorsements (a trusted member vouches for an
//! introduced peer's certificate) and tombstones (a member asserts a removal).
//! Signatures are Ed25519 over newline-joined, domain-prefixed text, carried
//! in standard base64.

use vstd::prelude::*;
use vstd::utf8::encode_utf8;
use x509_parser::prelude::FromDer;
use ed25519_dalek::Signer;
use crate::codec::{b64std, b64std_decode, b64std_decoded, b64std_encode};
use crate::text::{i64_to_string, int_str, nat_str, push_char, push_str, u64_to_string};

verus! {

/// Domain of version-1 endorsements.
pub const ENDORSE_DOMAIN_V1: &'static str = "nvpair-endorse:v1";

/// Domain of version-2 (admission-bound) endorsements.
pub const ENDORSE_DOMAIN_V2: &'static str = "nvpair-endorse:v2";

/// Domain of version-1 tombstones.
pub const TOMBSTONE_DOMAIN_V1: &'static str = "nvpair-remove:v1";

/// Domain of version-2 (admission-bound) tombstones.
pub const TOMBSTONE_DOMAIN_V2: &'static str = "nvpair-remove:v2";

/// A trusted member's signed vouching for an introduced node's certificate.
/// An empty signature, or a zero epoch, is absent on the wire.
#[derive(Debug, Clone, Default)]
pub struct Endorsement {
    pub by: String,
    pub fingerprint: String,
    pub cluster_id: String,
    pub admission_epoch: u64,
    pub by_admission_epoch: u64,
    pub issued_at: i64,
    pub sig: String,
    pub sig_v2: String,
}

/// A trusted member's signed assertion that a node was removed.
#[derive(Debug, Clone, Default)]
pub struct Tombstone {
    pub node_uuid: String,
    pub cluster_id: String,
    pub admission_epoch: u64,
    pub by: String,
    pub by_admission_epoch: u64,
    pub removed_at: i64,
    pub sig: String,
    pub sig_v2: String,
}

/// `lines` joined with line feeds.
pub open spec fn nl_join(lines: Seq<Seq<char>>) -> Seq<char>
    decreases lines.len(),
{
    if lines.len() == 0 {
        seq![]
    } else if lines.len() == 1 {
        lines[0]
    } else {
        nl_join(lines.drop_last()) + seq!['\n'] + lines.last()
    }
}

/// The v1 endorsement text: domain, introduced UUID, fingerprint, cluster id,
/// issue time. The introduced UUID ties the signature to one peer entry.
pub open spec fn endorse_v1_text(uuid: Seq<char>, fp: Seq<char>, cluster: Seq<char>, issued_at: int) -> Seq<char> {
    nl_join(seq!["nvpair-endorse:v1"@, uuid, fp, cluster, int_str(issued_at)])
}

/// The v2 endorsement text: as v1 with both admission epochs before the time.
pub open spec fn endorse_v2_text(
    uuid: Seq<char>,
    fp: Seq<char>,
    cluster: Seq<char>,
    epoch: nat,
    by_epoch: nat,
    issued_at: int,
) -> Seq<char> {
    nl_join(seq!["nvpair-endorse:v2"@, uuid, fp, cluster, nat_str(epoch), nat_str(by_epoch), int_str(issued_at)])
}

/// The v1 tombstone text: domain, node UUID, cluster id, removal time.
pub open spec fn tombstone_v1_text(node: Seq<char>, cluster: Seq<char>, removed_at: int) -> Seq<char> {
    nl_join(seq!["nvpair-remove:v1"@, node, cluster, int_str(removed_at)])
}

/// The v2 tombstone text: as v1 with both admission epochs before the time.
pub open spec fn tombstone_v2_text(node: Seq<char>, cluster: Seq<char>, epoch: nat, by_epoch: nat, removed_at: int) -> Seq<char> {
    nl_join(seq!["nvpair-remove:v2"@, node, cluster, nat_str(epoch), nat_str(by_epoch), int_str(removed_at)])
}

fn push_line(out: &mut String, line: &str)
    ensures
        final(out)@ == old(out)@ + seq!['\n'] + line@,
{
    push_char(out, '\n');
    push_str(out, line);
}

/// v1 endorsement signed bytes.
pub fn endorse_payload_v1(introduced_uuid: &str, fingerprint: &str, cluster_id: &str, issued_at: i64) -> (r: Vec<u8>)
    ensures
        r@ == encode_utf8(endorse_v1_text(introduced_uuid@, fingerprint@, cluster_id@, issued_at as int)),
{
    let mut t = String::new();
    push_str(&mut t, ENDORSE_DOMAIN_V1);
    push_line(&mut t, introduced_uuid);
    push_line(&mut t, fingerprint);
    push_line(&mut t, cluster_id);
    let at = i64_to_string(issued_at);
    push_line(&mut t, at.as_str());
    proof {
        let ls = seq!["nvpair-endorse:v1"@, introduced_uuid@, fingerprint@, cluster_id@, int_str(issued_at as int)];
        reveal_with_fuel(nl_join, 6);
        assert(ls.drop_last().drop_last().drop_last().drop_last() =~= seq!["nvpair-endorse:v1"@]);
        assert(ls.drop_last().drop_last().drop_last() =~= seq!["nvpair-endorse:v1"@, introduced_uuid@]);
        assert(ls.drop_last().drop_last() =~= seq!["nvpair-endorse:v1"@, introduced_uuid@, fingerprint@]);
        assert(ls.drop_last() =~= seq!["nvpair-endorse:v1"@, introduced_uuid@, fingerprint@, cluster_id@]);
        assert(t@ =~= nl_join(ls));
    }
    t.as_str().as_bytes_vec()
}

/// v2 endorsement signed bytes (admission-bound).
pub fn endorse_payload_v2(
    introduced_uuid: &str,
    fingerprint: &str,
    cluster_id: &str,
    admission_epoch: u64,
    by_admission_epoch: u64,
    issued_at: i64,
) -> (r: Vec<u8>)
    ensures
        r@ == encode_utf8(
            endorse_v2_text(
                introduced_uuid@,
                fingerprint@,
                cluster_id@,
                admission_epoch as nat,
                by_admission_epoch as nat,
                issued_at as int,
            ),
        ),
{
    let mut t = String::new();
    push_str(&mut t, ENDORSE_DOMAIN_V2);
    push_line(&mut t, introduced_uuid);
    push_line(&mut t, fingerprint);
    push_line(&mut t, cluster_id);
    let e = u64_to_string(admission_epoch);
    push_line(&mut t, e.as_str());
    let be = u64_to_string(by_admission_epoch);
    push_line(&mut t, be.as_str());
    let at = i64_to_string(issued_at);
    push_line(&mut t, at.as_str());
    proof {
        let ls = seq![
            "nvpair-endorse:v2"@,
            introduced_uuid@,
            fingerprint@,
            cluster_id@,
            nat_str(admission_epoch as nat),
            nat_str(by_admission_epoch as nat),
            int_str(issued_at as int),
        ];
        reveal_with_fuel(nl_join, 8);
        assert(ls.subrange(0, 1) =~= seq!["nvpair-endorse:v2"@]);
        assert(ls.subrange(0, 2) =~= ls.subrange(0, 1).push(introduced_uuid@));
        assert(ls.subrange(0, 3) =~= ls.subrange(0, 2).push(fingerprint@));
        assert(ls.subrange(0, 4) =~= ls.subrange(0, 3).push(cluster_id@));
        assert(ls.subrange(0, 5) =~= ls.subrange(0, 4).push(nat_str(admission_epoch as nat)));
        assert(ls.subrange(0, 6) =~= ls.subrange(0, 5).push(nat_str(by_admission_epoch as nat)));
        assert(ls =~= ls.subrange(0, 6).push(int_str(issued_at as int)));
        assert(t@ =~= nl_join(ls));
    }
    t.as_str().as_bytes_vec()
}

/// v1 tombstone signed bytes.
pub fn tombstone_payload_v1(node_uuid: &str, cluster_id: &str, removed_at: i64) -> (r: Vec<u8>)
    ensures
        r@ == encode_utf8(tombstone_v1_text(node_uuid@, cluster_id@, removed_at as int)),
{
    let mut t = String::new();
    push_str(&mut t, TOMBSTONE_DOMAIN_V1);
    push_line(&mut t, node_uuid);
    push_line(&mut t, cluster_id);
    let at = i64_to_string(removed_at);
    push_line(&mut t, at.as_str());
    proof {
        let ls = seq!["nvpair-remove:v1"@, node_uuid@, cluster_id@, int_str(removed_at as int)];
        reveal_with_fuel(nl_join, 5);
        assert(ls.subrange(0, 1) =~= seq!["nvpair-remove:v1"@]);
        assert(ls.subrange(0, 2) =~= ls.subrange(0, 1).push(node_uuid@));
        assert(ls.subrange(0, 3) =~= ls.subrange(0, 2).push(cluster_id@));
        assert(ls =~= ls.subrange(0, 3).push(int_str(removed_at as int)));
        assert(t@ =~= nl_join(ls));
    }
    t.as_str().as_bytes_vec()
}

/// v2 tombstone signed bytes (admission-bound).
pub fn tombstone_payload_v2(
    node_uuid: &str,
    cluster_id: &str,
    admission_epoch: u64,
    by_admission_epoch: u64,
    removed_at: i64,
) -> (r: Vec<u8>)
    ensures
        r@ == encode_utf8(
            tombstone_v2_text(
                node_uuid@,
                cluster_id@,
                admission_epoch as nat,
                by_admission_epoch as nat,
                removed_at as int,
            ),
        ),
{
    let mut t = String::new();
    push_str(&mut t, TOMBSTONE_DOMAIN_V2);
    push_line(&mut t, node_uuid);
    push_line(&mut t, cluster_id);
    let e = u64_to_string(admission_epoch);
    push_line(&mut t, e.as_str());
    let be = u64_to_string(by_admission_epoch);
    push_line(&mut t, be.as_str());
    let at = i64_to_string(removed_at);
    push_line(&mut t, at.as_str());
    proof {
        let ls = seq![
            "nvpair-remove:v2"@,
            node_uuid@,
            cluster_id@,
            nat_str(admission_epoch as nat),
            nat_str(by_admission_epoch as nat),
            int_str(removed_at as int),
        ];
        reveal_with_fuel(nl_join, 7);
        assert(ls.subrange(0, 1) =~= seq!["nvpair-remove:v2"@]);
        assert(ls.subrange(0, 2) =~= ls.subrange(0, 1).push(node_uuid@));
        assert(ls.subrange(0, 3) =~= ls.subrange(0, 2).push(cluster_id@));
        assert(ls.subrange(0, 4) =~= ls.subrange(0, 3).push(nat_str(admission_epoch as nat)));
        assert(ls.subrange(0, 5) =~= ls.subrange(0, 4).push(nat_str(by_admission_epoch as nat)));
        assert(ls =~= ls.subrange(0, 5).push(int_str(removed_at as int)));
        assert(t@ =~= nl_join(ls));
    }
    t.as_str().as_bytes_vec()
}

proof fn lemma_nl_join_prefix(lines: Seq<Seq<char>>, i: int)
    requires
        lines.len() >= 1,
        0 <= i < lines[0].len(),
    ensures
        i < nl_join(lines).len(),
        nl_join(lines)[i] == lines[0][i],
    decreases lines.len(),
{
    if lines.len() > 1 {
        lemma_nl_join_prefix(lines.drop_last(), i);
    }
}

proof fn lemma_encode_injective(s: Seq<char>, t: Seq<char>)
    requires
        s != t,
    ensures
        encode_utf8(s) != encode_utf8(t),
{
    vstd::utf8::encode_utf8_decode_utf8(s);
    vstd::utf8::encode_utf8_decode_utf8(t);
}

/// Domain separation: the signed bytes of the four statement kinds (v1 and
/// v2 endorsements, v1 and v2 tombstones) never coincide, whatever their
/// fields, so a signature over one cannot stand for another.
pub proof fn lemma_domains_separate(
    a: Seq<char>,
    b: Seq<char>,
    c: Seq<char>,
    e1: nat,
    e2: nat,
    t: int,
    x: Seq<char>,
    y: Seq<char>,
    z: Seq<char>,
    f1: nat,
    f2: nat,
    u: int,
)
    ensures
        encode_utf8(endorse_v1_text(a, b, c, t)) != encode_utf8(endorse_v2_text(x, y, z, f1, f2, u)),
        encode_utf8(endorse_v1_text(a, b, c, t)) != encode_utf8(tombstone_v1_text(x, y, u)),
        encode_utf8(endorse_v1_text(a, b, c, t)) != encode_utf8(tombstone_v2_text(x, y, f1, f2, u)),
        encode_utf8(endorse_v2_text(a, b, c, e1, e2, t)) != encode_utf8(tombstone_v1_text(x, y, u)),
        encode_utf8(endorse_v2_text(a, b, c, e1, e2, t)) != encode_utf8(tombstone_v2_text(x, y, f1, f2, u)),
        encode_utf8(tombstone_v1_text(a, b, t)) != encode_utf8(tombstone_v2_text(x, y, f1, f2, u)),
{
    reveal_strlit("nvpair-endorse:v1");
    reveal_strlit("nvpair-endorse:v2");
    reveal_strlit("nvpair-remove:v1");
    reveal_strlit("nvpair-remove:v2");
    let ev1 = seq!["nvpair-endorse:v1"@, a, b, c, int_str(t)];
    let ev2 = seq!["nvpair-endorse:v2"@, x, y, z, nat_str(f1), nat_str(f2), int_str(u)];
    let ev2a = seq!["nvpair-endorse:v2"@, a, b, c, nat_str(e1), nat_str(e2), int_str(t)];
    let tv1 = seq!["nvpair-remove:v1"@, x, y, int_str(u)];
    let tv1a = seq!["nvpair-remove:v1"@, a, b, int_str(t)];
    let tv2 = seq!["nvpair-remove:v2"@, x, y, nat_str(f1), nat_str(f2), int_str(u)];
    lemma_nl_join_prefix(ev1, 7);
    lemma_nl_join_prefix(ev1, 16);
    lemma_nl_join_prefix(ev2, 16);
    lemma_nl_join_prefix(ev2a, 7);
    lemma_nl_join_prefix(tv1, 7);
    lemma_nl_join_prefix(tv1a, 15);
    lemma_nl_join_prefix(tv2, 7);
    lemma_nl_join_prefix(tv2, 15);
    assert(nl_join(ev1)[16] != nl_join(ev2)[16]);
    assert(nl_join(ev1)[7] != nl_join(tv1)[7]);
    assert(nl_join(ev1)[7] != nl_join(tv2)[7]);
    assert(nl_join(ev2a)[7] != nl_join(tv1)[7]);
    assert(nl_join(ev2a)[7] != nl_join(tv2)[7]);
    assert(nl_join(tv1a)[15] != nl_join(tv2)[15]);
    lemma_encode_injective(nl_join(ev1), nl_join(ev2));
    lemma_encode_injective(nl_join(ev1), nl_join(tv1));
    lemma_encode_injective(nl_join(ev1), nl_join(tv2));
    lemma_encode_injective(nl_join(ev2a), nl_join(tv1));
    lemma_encode_injective(nl_join(ev2a), nl_join(tv2));
    lemma_encode_injective(nl_join(tv1a), nl_join(tv2));
}

// --- signatures -------------------------------------------------------------------

/// The Ed25519 signature (RFC 8032, deterministic) of `msg` under the
/// 32-byte secret key `secret`.
pub uninterp spec fn ed25519_signature(secret: Seq<u8>, msg: Seq<u8>) -> Seq<u8>;

/// The 32-byte Ed25519 public key of the secret key `secret`.
pub uninterp spec fn ed25519_public(secret: Seq<u8>) -> Seq<u8>;

/// Whether `public` is a valid compressed Edwards point and `sig` a signature
/// of `msg` under it that `verify_strict` accepts.
pub uninterp spec fn ed25519_accepts(public: Seq<u8>, msg: Seq<u8>, sig: Seq<u8>) -> bool;

/// The Ed25519 public key in a certificate's subject public key info, when
/// the DER parses and the key is 32 bytes naming a valid point.
pub uninterp spec fn cert_ed25519_key(der: Seq<u8>) -> Option<Seq<u8>>;

/// `SigningKey::from_bytes(secret).sign(msg)`: the 64 signature bytes, named
/// `ed25519_signature(secret, msg)`. Whether `verify_strict` accepts them is
/// left unsaid: it refuses a signature whose `R` has small order, which the
/// signer does not rule out.
#[verifier::external_body]
fn ed25519_sign(secret: &[u8], msg: &[u8]) -> (r: Vec<u8>)
    requires
        secret@.len() == 32,
    ensures
        r@ == ed25519_signature(secret@, msg@),
        r@.len() == 64,
{
    let key: [u8; 32] = secret.try_into().unwrap();
    ed25519_dalek::SigningKey::from_bytes(&key).sign(msg).to_bytes().to_vec()
}

/// `SigningKey::from_bytes(secret).verifying_key().to_bytes()`: named
/// `ed25519_public(secret)`, 32 bytes.
#[verifier::external_body]
fn ed25519_public_of(secret: &[u8]) -> (r: Vec<u8>)
    requires
        secret@.len() == 32,
    ensures
        r@ == ed25519_public(secret@),
        r@.len() == 32,
{
    let key: [u8; 32] = secret.try_into().unwrap();
    ed25519_dalek::SigningKey::from_bytes(&key).verifying_key().to_bytes().to_vec()
}

/// `VerifyingKey::from_bytes(public)` then `verify_strict(msg, sig)` on a
/// 64-byte signature: named `ed25519_accepts(public, msg, sig)` (false when
/// the key is not a valid point).
#[verifier::external_body]
fn ed25519_verify_strict(public: &[u8], msg: &[u8], sig: &[u8]) -> (r: bool)
    requires
        public@.len() == 32,
        sig@.len() == 64,
    ensures
        r == ed25519_accepts(public@, msg@, sig@),
{
    let pk: [u8; 32] = public.try_into().unwrap();
    let sig = ed25519_dalek::Signature::from_slice(sig).unwrap();
    match ed25519_dalek::VerifyingKey::from_bytes(&pk) {
        Ok(vk) => vk.verify_strict(msg, &sig).is_ok(),
        Err(_) => false,
    }
}

/// `X509Certificate::from_der`, then the subject public key bytes as a
/// 32-byte array, then `VerifyingKey::from_bytes`: named
/// `cert_ed25519_key(der)`; a key found is 32 bytes.
#[verifier::external_body]
fn cert_public_key(der: &[u8]) -> (r: Option<Vec<u8>>)
    ensures
        match r {
            Some(k) => cert_ed25519_key(der@) == Some(k@) && k@.len() == 32,
            None => cert_ed25519_key(der@) is None,
        },
{
    let (_, cert) = x509_parser::certificate::X509Certificate::from_der(der).ok()?;
    let arr: [u8; 32] = cert.public_key().subject_public_key.data.as_ref().try_into().ok()?;
    ed25519_dalek::VerifyingKey::from_bytes(&arr).ok().map(|k| k.to_bytes().to_vec())
}

/// Sign a payload with an Ed25519 secret key (32 bytes); the signature in
/// standard base64.
pub fn sign(secret: &[u8], payload: &[u8]) -> (r: String)
    requires
        secret@.len() == 32,
    ensures
        r@ == b64std(ed25519_signature(secret@, payload@)),
{
    let sig = ed25519_sign(secret, payload);
    b64std_encode(sig.as_slice())
}

/// The Ed25519 public key (32 bytes) of a secret key.
pub fn public_key(secret: &[u8]) -> (r: Vec<u8>)
    requires
        secret@.len() == 32,
    ensures
        r@ == ed25519_public(secret@),
        r@.len() == 32,
{
    ed25519_public_of(secret)
}

/// Whether a standard-base64 Ed25519 signature over `payload` is valid under
/// `public`: it must decode, be 64 bytes, and pass the strict check.
pub fn verify(public: &[u8], payload: &[u8], sig_b64: &str) -> (r: bool)
    requires
        public@.len() == 32,
    ensures
        r == match b64std_decoded(sig_b64@) {
            Some(raw) => raw.len() == 64 && ed25519_accepts(public@, payload@, raw),
            None => false,
        },
{
    let raw = match b64std_decode(sig_b64) {
        Some(r) => r,
        None => return false,
    };
    if raw.len() != 64 {
        return false;
    }
    ed25519_verify_strict(public, payload, raw.as_slice())
}

/// The Ed25519 public key of a peer certificate (DER), from its SPKI.
pub fn verifying_key_from_cert(der: &[u8]) -> (r: Option<Vec<u8>>)
    ensures
        match r {
            Some(k) => cert_ed25519_key(der@) == Some(k@) && k@.len() == 32,
            None => cert_ed25519_key(der@) is None,
        },
{
    cert_public_key(der)
}

} // verus!
