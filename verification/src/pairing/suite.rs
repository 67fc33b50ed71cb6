//! EAP-NOOB cryptosuites and ECDH, with JWK public-key encoding.
//!
//! * suite **1** = X25519, JWK `{"kty":"OKP","crv":"X25519","x":…}`
//! * suite **2** = NIST P-256, JWK `{"kty":"EC","crv":"P-256","x":…,"y":…}`
//! All coordinates are base64url without padding. Key generation and the
//! Diffie-Hellman operations are done by `x25519-dalek` and `p256` behind the
//! trusted items below; secrets are kept as their raw scalar bytes.

use vstd::prelude::*;
use crate::codec::{b64url, b64url_decode, b64url_decoded, b64url_encode, find_member, json_members, json_quote, json_string_literal, json_string_value, member_lookup, parse_json_members, parse_json_string};
use crate::text::{push_char, push_str, str_eq};
use crate::json_keys::{field_repeated, repeated_field, strs_view};
use crate::codec::{json_object_text, lemma_json_quote_plain, lemma_object_first, lemma_object_push, lemma_push_member, members_text, plain_members};
use vstd::utf8::encode_utf8;
use p256::elliptic_curve::sec1::{FromEncodedPoint, ToEncodedPoint};
use rand::RngCore;

verus! {

/// An EAP-NOOB cryptosuite.
#[derive(Debug, Clone, Copy, PartialEq, Eq, Structural)]
pub enum Suite {
    X25519,
    P256,
}

impl Suite {
    /// The suite with wire id `id` (1 = X25519, 2 = P-256).
    pub fn from_id(id: u8) -> (r: Option<Suite>)
        ensures
            r == (if id == 1 {
                Some(Suite::X25519)
            } else if id == 2 {
                Some(Suite::P256)
            } else {
                None
            }),
    {
        match id {
            1 => Some(Suite::X25519),
            2 => Some(Suite::P256),
            _ => None,
        }
    }

    /// The wire id of the suite.
    pub fn id(self) -> (r: u8)
        ensures
            r == suite_id(self),
    {
        match self {
            Suite::X25519 => 1,
            Suite::P256 => 2,
        }
    }

    /// Generate an ephemeral keypair for this suite.
    pub fn generate(self) -> (kp: KeyPair)
        ensures
            kp.spec_suite() == self,
            kp.wf(),
    {
        match self {
            Suite::X25519 => {
                let secret = random_32();
                let public = x25519_public(&secret);
                let jwk = Jwk {
                    kty: literal_okp(),
                    crv: literal_x25519(),
                    x: b64url_encode(&public),
                    y: None,
                };
                let mut sk: Vec<u8> = Vec::new();
                sk.extend_from_slice(&secret);
                proof {
                    assert(sk@ =~= secret@);
                }
                KeyPair { secret: sk, suite: Suite::X25519, public_jwk: jwk }
            },
            Suite::P256 => {
                let (sk, x, y) = p256_generate();
                let jwk = Jwk {
                    kty: literal_ec(),
                    crv: literal_p256(),
                    x: b64url_encode(x.as_slice()),
                    y: Some(b64url_encode(y.as_slice())),
                };
                KeyPair { secret: sk, suite: Suite::P256, public_jwk: jwk }
            },
        }
    }
}

/// The wire id of a suite.
pub open spec fn suite_id(s: Suite) -> u8 {
    match s {
        Suite::X25519 => 1,
        Suite::P256 => 2,
    }
}

pub open spec fn okp() -> Seq<char> {
    seq!['O', 'K', 'P']
}

pub open spec fn x25519_crv() -> Seq<char> {
    seq!['X', '2', '5', '5', '1', '9']
}

pub open spec fn ec() -> Seq<char> {
    seq!['E', 'C']
}

pub open spec fn p256_crv() -> Seq<char> {
    seq!['P', '-', '2', '5', '6']
}

fn chars_string(c: &[char]) -> (s: String)
    ensures
        s@ == c@,
{
    let mut s = String::new();
    let mut i: usize = 0;
    while i < c.len()
        invariant
            i <= c@.len(),
            s@ == c@.subrange(0, i as int),
        decreases c@.len() - i,
    {
        push_char(&mut s, c[i]);
        i = i + 1;
        proof {
            assert(s@ =~= c@.subrange(0, i as int));
        }
    }
    proof {
        assert(c@.subrange(0, c@.len() as int) =~= c@);
    }
    s
}

fn literal_okp() -> (s: String)
    ensures
        s@ == okp(),
{
    let a = ['O', 'K', 'P'];
    let s = chars_string(&a);
    proof {
        assert(a@ =~= okp());
    }
    s
}

fn literal_x25519() -> (s: String)
    ensures
        s@ == x25519_crv(),
{
    let a = ['X', '2', '5', '5', '1', '9'];
    let s = chars_string(&a);
    proof {
        assert(a@ =~= x25519_crv());
    }
    s
}

fn literal_ec() -> (s: String)
    ensures
        s@ == ec(),
{
    let a = ['E', 'C'];
    let s = chars_string(&a);
    proof {
        assert(a@ =~= ec());
    }
    s
}

fn literal_p256() -> (s: String)
    ensures
        s@ == p256_crv(),
{
    let a = ['P', '-', '2', '5', '6'];
    let s = chars_string(&a);
    proof {
        assert(a@ =~= p256_crv());
    }
    s
}

/// A JWK public key as it appears on the wire (`PKs`/`PKp`).
#[derive(Debug, Clone, PartialEq, Eq)]
pub struct Jwk {
    pub kty: String,
    pub crv: String,
    pub x: String,
    pub y: Option<String>,
}

/// The compact JSON of a JWK: `{"kty":…,"crv":…,"x":…}` plus `"y"` when present.
pub open spec fn jwk_text(j: Jwk) -> Seq<char> {
    seq!['{', '"', 'k', 't', 'y', '"', ':'] + json_quote(j.kty@) + seq![',', '"', 'c', 'r', 'v', '"', ':']
        + json_quote(j.crv@) + seq![',', '"', 'x', '"', ':'] + json_quote(j.x@) + match j.y {
        Some(y) => seq![',', '"', 'y', '"', ':'] + json_quote(y@),
        None => seq![],
    } + seq!['}']
}

/// Serialize a JWK to compact JSON.
pub fn jwk_json(j: &Jwk) -> (out: String)
    ensures
        out@ == jwk_text(*j),
{
    let mut out = String::new();
    let a = ['{', '"', 'k', 't', 'y', '"', ':'];
    push_str(&mut out, chars_string(&a).as_str());
    push_str(&mut out, json_string_literal(j.kty.as_str()).as_str());
    let b = [',', '"', 'c', 'r', 'v', '"', ':'];
    push_str(&mut out, chars_string(&b).as_str());
    push_str(&mut out, json_string_literal(j.crv.as_str()).as_str());
    let c = [',', '"', 'x', '"', ':'];
    push_str(&mut out, chars_string(&c).as_str());
    push_str(&mut out, json_string_literal(j.x.as_str()).as_str());
    let ghost before_y = out@;
    match &j.y {
        Some(y) => {
            let d = [',', '"', 'y', '"', ':'];
            push_str(&mut out, chars_string(&d).as_str());
            push_str(&mut out, json_string_literal(y.as_str()).as_str());
        },
        None => {},
    }
    push_char(&mut out, '}');
    proof {
        assert(a@ =~= seq!['{', '"', 'k', 't', 'y', '"', ':']);
        assert(b@ =~= seq![',', '"', 'c', 'r', 'v', '"', ':']);
        assert(c@ =~= seq![',', '"', 'x', '"', ':']);
        assert(out@ =~= jwk_text(*j));
    }
    out
}

/// A JSON text read as a JWK: an object whose `kty`, `crv`, `x` are strings and
/// whose `y`, when present and not `null`, is a string.
pub open spec fn jwk_fields_from(ms: Seq<(Seq<char>, Seq<char>)>) -> Option<(Seq<char>, Seq<char>, Seq<char>, Option<Seq<char>>)> {
    let kty = member_lookup(ms, seq!['k', 't', 'y']);
    let crv = member_lookup(ms, seq!['c', 'r', 'v']);
    let x = member_lookup(ms, seq!['x']);
    let y = member_lookup(ms, seq!['y']);
    if kty is Some && json_string_value(kty.unwrap()) is Some && crv is Some && json_string_value(crv.unwrap()) is Some
        && x is Some && json_string_value(x.unwrap()) is Some {
        let yv: Option<Option<Seq<char>>> = match y {
            None => Some(None),
            Some(t) => if t == seq!['n', 'u', 'l', 'l'] {
                Some(None)
            } else {
                match json_string_value(t) {
                    Some(v) => Some(Some(v)),
                    None => None,
                }
            },
        };
        match yv {
            Some(yy) => Some(
                (
                    json_string_value(kty.unwrap()).unwrap(),
                    json_string_value(crv.unwrap()).unwrap(),
                    json_string_value(x.unwrap()).unwrap(),
                    yy,
                ),
            ),
            None => None,
        }
    } else {
        None
    }
}

/// The members a JWK reads; an object that gives one twice is refused.
pub open spec fn jwk_keys() -> Seq<Seq<char>> {
    seq![seq!['k', 't', 'y'], seq!['c', 'r', 'v'], seq!['x'], seq!['y']]
}

/// What a JSON text decodes to as a JWK, as (kty, crv, x, y); nothing when
/// the object gives one of these members twice.
pub open spec fn jwk_from_text(text: Seq<u8>) -> Option<(Seq<char>, Seq<char>, Seq<char>, Option<Seq<char>>)> {
    match json_members(text) {
        Some(ms) => if field_repeated(text, jwk_keys()) {
            None
        } else {
            jwk_fields_from(ms)
        },
        None => None,
    }
}

/// The (kty, crv, x, y) view of a JWK.
pub open spec fn jwk_view(j: Jwk) -> (Seq<char>, Seq<char>, Seq<char>, Option<Seq<char>>) {
    (
        j.kty@,
        j.crv@,
        j.x@,
        match j.y {
            Some(y) => Some(y@),
            None => None,
        },
    )
}

/// The members of a JWK's JSON object, in the order they are written.
pub open spec fn jwk_members(j: Jwk) -> Seq<(Seq<char>, Seq<char>)> {
    let m0 = seq![
        (seq!['k', 't', 'y'], json_quote(j.kty@)),
        (seq!['c', 'r', 'v'], json_quote(j.crv@)),
        (seq!['x'], json_quote(j.x@)),
    ];
    match j.y {
        Some(y) => m0.push((seq!['y'], json_quote(y@))),
        None => m0,
    }
}

/// A JWK's JSON is the compact object of its members, whose keys are distinct
/// and whose values are string literals; each member is found under its key.
pub proof fn lemma_jwk_members(j: Jwk)
    ensures
        jwk_text(j) == json_object_text(jwk_members(j)),
        plain_members(jwk_members(j)),
        member_lookup(jwk_members(j), seq!['k', 't', 'y']) == Some(json_quote(j.kty@)),
        member_lookup(jwk_members(j), seq!['c', 'r', 'v']) == Some(json_quote(j.crv@)),
        member_lookup(jwk_members(j), seq!['x']) == Some(json_quote(j.x@)),
        member_lookup(jwk_members(j), seq!['y']) == (match j.y {
            Some(y) => Some(json_quote(y@)),
            None => None,
        }),
{
    let kk = seq!['k', 't', 'y'];
    let kc = seq!['c', 'r', 'v'];
    let kx = seq!['x'];
    let ky = seq!['y'];
    lemma_json_quote_plain(kk);
    lemma_json_quote_plain(kc);
    lemma_json_quote_plain(kx);
    lemma_json_quote_plain(ky);
    let a = (kk, json_quote(j.kty@));
    let b = (kc, json_quote(j.crv@));
    let c = (kx, json_quote(j.x@));
    let e0 = Seq::<(Seq<char>, Seq<char>)>::empty();
    assert(e0.push(a) =~= seq![a]);
    let m0 = seq![a, b, c];
    assert(seq![a].push(b).push(c) =~= m0);
    lemma_object_first(a, seq!['{'] + json_quote(kk) + seq![':']);
    lemma_object_push(seq![a], b, seq![','] + json_quote(kc) + seq![':']);
    lemma_object_push(seq![a, b], c, seq![','] + json_quote(kx) + seq![':']);
    assert(seq![a].push(b) =~= seq![a, b]);
    assert(seq!['{', '"', 'k', 't', 'y', '"', ':'] =~= seq!['{'] + json_quote(kk) + seq![':']);
    assert(seq![',', '"', 'c', 'r', 'v', '"', ':'] =~= seq![','] + json_quote(kc) + seq![':']);
    assert(seq![',', '"', 'x', '"', ':'] =~= seq![','] + json_quote(kx) + seq![':']);
    assert(seq![',', '"', 'y', '"', ':'] =~= seq![','] + json_quote(ky) + seq![':']);
    let head = seq!['{', '"', 'k', 't', 'y', '"', ':'] + json_quote(j.kty@) + seq![',', '"', 'c', 'r', 'v', '"', ':']
        + json_quote(j.crv@) + seq![',', '"', 'x', '"', ':'] + json_quote(j.x@);
    assert(seq!['{'] + members_text(m0) =~= head);
    assert(plain_members(e0));
    lemma_push_member(e0, a);
    lemma_push_member(seq![a], b);
    lemma_push_member(seq![a, b], c);
    match j.y {
        Some(y) => {
            let d = (ky, json_quote(y@));
            lemma_object_push(m0, d, seq![','] + json_quote(ky) + seq![':']);
            lemma_push_member(m0, d);
            assert(seq!['{'] + members_text(m0.push(d)) =~= head + (seq![',', '"', 'y', '"', ':'] + json_quote(y@)));
            assert(jwk_text(j) =~= json_object_text(jwk_members(j)));
        },
        None => {
            assert(jwk_text(j) =~= json_object_text(jwk_members(j)));
        },
    }
}

/// Whether a text is the JSON literal `null`.
pub fn is_null(t: &str) -> (r: bool)
    ensures
        r == (t@ == seq!['n', 'u', 'l', 'l']),
{
    let a = ['n', 'u', 'l', 'l'];
    let s = chars_string(&a);
    proof {
        assert(a@ =~= seq!['n', 'u', 'l', 'l']);
    }
    str_eq(t, s.as_str())
}

fn key_string(a: &[char]) -> (s: String)
    ensures
        s@ == a@,
{
    chars_string(a)
}

/// Parse a JWK from JSON bytes.
pub fn parse_jwk(text: &[u8]) -> (r: Option<Jwk>)
    ensures
        match r {
            Some(j) => jwk_from_text(text@) == Some(jwk_view(j)),
            None => jwk_from_text(text@) is None,
        },
        forall|j: Jwk| text@ == encode_utf8(#[trigger] jwk_text(j)) ==> r is Some && jwk_view(r.unwrap()) == jwk_view(j),
{
    let ms = match parse_json_members(text) {
        Some(ms) => ms,
        None => {
            proof {
                assert forall|j: Jwk| text@ == encode_utf8(#[trigger] jwk_text(j)) implies false by {
                    lemma_jwk_members(j);
                }
            }
            return None;
        },
    };
    let ghost msv = crate::codec::members_view(ms@);
    proof {
        assert forall|j: Jwk| text@ == encode_utf8(#[trigger] jwk_text(j)) implies {
            &&& member_lookup(msv, seq!['k', 't', 'y']) == Some(json_quote(j.kty@))
            &&& member_lookup(msv, seq!['c', 'r', 'v']) == Some(json_quote(j.crv@))
            &&& member_lookup(msv, seq!['x']) == Some(json_quote(j.x@))
            &&& member_lookup(msv, seq!['y']) == (match j.y {
                Some(y) => Some(json_quote(y@)),
                None => None,
            })
            &&& plain_members(jwk_members(j))
            &&& text@ == encode_utf8(json_object_text(jwk_members(j)))
        } by {
            lemma_jwk_members(j);
        }
    }
    let kkty = ['k', 't', 'y'];
    let kcrv = ['c', 'r', 'v'];
    let kx = ['x'];
    let ky = ['y'];
    proof {
        assert(kkty@ =~= seq!['k', 't', 'y']);
        assert(kcrv@ =~= seq!['c', 'r', 'v']);
        assert(kx@ =~= seq!['x']);
        assert(ky@ =~= seq!['y']);
    }
    let s_kty = key_string(&kkty);
    let s_crv = key_string(&kcrv);
    let s_x = key_string(&kx);
    let s_y = key_string(&ky);
    let keys: Vec<&str> = vec![s_kty.as_str(), s_crv.as_str(), s_x.as_str(), s_y.as_str()];
    proof {
        assert(strs_view(keys@) =~= jwk_keys());
    }
    if repeated_field(text, &keys) {
        return None;
    }
    let kty_raw = find_member(&ms, key_string(&kkty).as_str());
    let crv_raw = find_member(&ms, key_string(&kcrv).as_str());
    let x_raw = find_member(&ms, key_string(&kx).as_str());
    let y_raw = find_member(&ms, key_string(&ky).as_str());
    let kty = match kty_raw {
        Some(t) => match parse_json_string(t.as_str()) {
            Some(v) => v,
            None => return None,
        },
        None => return None,
    };
    let crv = match crv_raw {
        Some(t) => match parse_json_string(t.as_str()) {
            Some(v) => v,
            None => return None,
        },
        None => return None,
    };
    let x = match x_raw {
        Some(t) => match parse_json_string(t.as_str()) {
            Some(v) => v,
            None => return None,
        },
        None => return None,
    };
    let y = match y_raw {
        None => None,
        Some(t) => if is_null(t.as_str()) {
            None
        } else {
            match parse_json_string(t.as_str()) {
                Some(v) => Some(v),
                None => return None,
            }
        },
    };
    Some(Jwk { kty, crv, x, y })
}

// --- trusted key material operations --------------------------------------------

/// 32 random bytes from `rand::thread_rng()`. Nothing is claimed of them.
#[verifier::external_body]
fn random_32() -> (out: [u8; 32]) {
    let mut b = [0u8; 32];
    rand::thread_rng().fill_bytes(&mut b);
    b
}

/// 16 random bytes from `rand::thread_rng()`. Nothing is claimed of them.
#[verifier::external_body]
pub(crate) fn random_16() -> (out: [u8; 16]) {
    let mut b = [0u8; 16];
    rand::thread_rng().fill_bytes(&mut b);
    b
}

/// 32 random bytes, for nonces.
pub(crate) fn random_nonce_32() -> (out: [u8; 32]) {
    random_32()
}

/// The X25519 public key of the secret scalar bytes `sk`.
pub uninterp spec fn x25519_public_key(sk: Seq<u8>) -> Seq<u8>;

/// The X25519 shared secret of secret `sk` and peer public key `pk`.
pub uninterp spec fn x25519_shared(sk: Seq<u8>, pk: Seq<u8>) -> Seq<u8>;

/// `x25519_dalek::PublicKey::from(&StaticSecret::from(sk))`. Claims only that
/// the key is the one named `x25519_public_key(sk)`.
#[verifier::external_body]
fn x25519_public(sk: &[u8; 32]) -> (pk: [u8; 32])
    ensures
        pk@ == x25519_public_key(sk@),
{
    x25519_dalek::PublicKey::from(&x25519_dalek::StaticSecret::from(*sk)).to_bytes()
}

/// `StaticSecret::from(sk).diffie_hellman(&PublicKey::from(pk))`. Claims: the
/// secret is the one named `x25519_shared(sk, pk)`, and it is the secret the
/// owner of `pk` computes against this side's public key (Diffie-Hellman
/// agreement).
#[verifier::external_body]
fn x25519_dh(sk: &[u8; 32], pk: &[u8; 32]) -> (z: [u8; 32])
    ensures
        z@ == x25519_shared(sk@, pk@),
        forall|b: Seq<u8>|
            b.len() == 32 && pk@ == x25519_public_key(b) ==> z@ == x25519_shared(
                b,
                x25519_public_key(sk@),
            ),
{
    x25519_dalek::StaticSecret::from(*sk).diffie_hellman(&x25519_dalek::PublicKey::from(*pk)).to_bytes()
}

/// The uncompressed public point (x, y) of the P-256 secret scalar bytes `sk`,
/// or `None` when `sk` is not a valid scalar.
pub uninterp spec fn p256_public(sk: Seq<u8>) -> Option<(Seq<u8>, Seq<u8>)>;

/// The P-256 shared secret of secret `sk` and SEC1-encoded peer point `point`,
/// or `None` when either is invalid.
pub uninterp spec fn p256_shared(sk: Seq<u8>, point: Seq<u8>) -> Option<Seq<u8>>;

/// `p256::SecretKey::random` plus its uncompressed public point. Claims: the
/// secret is random (nothing is said of it), and the coordinates returned are
/// its public point as named by `p256_public`, 32 bytes each.
#[verifier::external_body]
fn p256_generate() -> (r: (Vec<u8>, Vec<u8>, Vec<u8>))
    ensures
        p256_public(r.0@) == Some((r.1@, r.2@)),
        r.1@.len() == 32,
        r.2@.len() == 32,
{
    let sk = p256::SecretKey::random(&mut rand::thread_rng());
    let pt = sk.public_key().to_encoded_point(false);
    (sk.to_bytes().to_vec(), pt.x().expect("x").to_vec(), pt.y().expect("y").to_vec())
}

/// `p256::ecdh::diffie_hellman` of the secret scalar bytes `sk` against the
/// SEC1-encoded point `point` (after `EncodedPoint::from_bytes` and
/// `PublicKey::from_encoded_point`). Claims: the outcome is the one named
/// `p256_shared(sk, point)`; and when `sk` is a valid scalar and `point` is the
/// uncompressed SEC1 encoding (`0x04`, x, y) of the public point of a valid
/// scalar `b`, the secret exists and is the one the owner of `b` computes
/// against this side's public point (Diffie-Hellman agreement: both are the
/// x-coordinate of the same product point).
#[verifier::external_body]
fn p256_dh(sk: &[u8], point: &[u8]) -> (z: Option<Vec<u8>>)
    ensures
        match z {
            Some(v) => p256_shared(sk@, point@) == Some(v@),
            None => p256_shared(sk@, point@) is None,
        },
        forall|b: Seq<u8>|
            #[trigger] p256_public(b) is Some && p256_public(sk@) is Some && point@ == seq![4u8] + p256_public(
                b,
            ).unwrap().0 + p256_public(b).unwrap().1 ==> z is Some && p256_shared(
                b,
                seq![4u8] + p256_public(sk@).unwrap().0 + p256_public(sk@).unwrap().1,
            ) == Some(z.unwrap()@),
{
    let sk = p256::SecretKey::from_slice(sk).ok()?;
    let ep = p256::EncodedPoint::from_bytes(point).ok()?;
    let pk = Option::<p256::PublicKey>::from(p256::PublicKey::from_encoded_point(&ep))?;
    Some(p256::ecdh::diffie_hellman(sk.to_nonzero_scalar(), pk.as_affine()).raw_secret_bytes().to_vec())
}

// --- key pairs -----------------------------------------------------------------

/// An ephemeral ECDH key pair: the secret scalar bytes and the public JWK.
pub struct KeyPair {
    secret: Vec<u8>,
    suite: Suite,
    pub public_jwk: Jwk,
}

/// Why an ECDH computation against a peer key failed.
#[derive(Debug, Clone, Copy, PartialEq, Eq, Structural)]
pub enum EcdhError {
    /// The peer JWK is not of this key pair's suite.
    WrongKeyType,
    /// A coordinate is not valid base64url.
    BadEncoding,
    /// An X25519 coordinate is not 32 bytes.
    BadLength,
    /// A P-256 JWK lacks `y`.
    MissingY,
    /// The P-256 point is malformed or not on the curve.
    InvalidPoint,
}

impl KeyPair {
    /// The suite of this key pair.
    pub closed spec fn spec_suite(&self) -> Suite {
        self.suite
    }

    /// The public JWK.
    pub closed spec fn spec_jwk(&self) -> Jwk {
        self.public_jwk
    }

    /// The secret scalar bytes.
    pub closed spec fn spec_secret(&self) -> Seq<u8> {
        self.secret@
    }

    /// The public JWK matches the secret and the suite.
    pub closed spec fn wf(&self) -> bool {
        match self.suite {
            Suite::X25519 => {
                &&& self.secret@.len() == 32
                &&& self.public_jwk.kty@ == okp()
                &&& self.public_jwk.crv@ == x25519_crv()
                &&& self.public_jwk.x@ == b64url(x25519_public_key(self.secret@))
                &&& b64url_decoded(self.public_jwk.x@) == Some(x25519_public_key(self.secret@))
                &&& x25519_public_key(self.secret@).len() == 32
                &&& self.public_jwk.y is None
            },
            Suite::P256 => {
                &&& self.public_jwk.kty@ == ec()
                &&& self.public_jwk.crv@ == p256_crv()
                &&& p256_public(self.secret@) is Some
                &&& self.public_jwk.x@ == b64url(p256_public(self.secret@).unwrap().0)
                &&& self.public_jwk.y is Some
                &&& self.public_jwk.y.unwrap()@ == b64url(p256_public(self.secret@).unwrap().1)
                &&& b64url_decoded(self.public_jwk.x@) == Some(p256_public(self.secret@).unwrap().0)
                &&& b64url_decoded(self.public_jwk.y.unwrap()@) == Some(p256_public(self.secret@).unwrap().1)
            },
        }
    }
}


/// The ECDH secret of a key pair of `suite` with secret bytes `secret` against
/// the peer JWK `peer` (kty, crv, x, y), or the reason it fails.
pub open spec fn spec_compute_z(
    suite: Suite,
    secret: Seq<u8>,
    peer: (Seq<char>, Seq<char>, Seq<char>, Option<Seq<char>>),
) -> Result<Seq<u8>, EcdhError> {
    match suite {
        Suite::X25519 => if !(peer.0 == okp() && peer.1 == x25519_crv()) {
            Err(EcdhError::WrongKeyType)
        } else {
            match b64url_decoded(peer.2) {
                None => Err(EcdhError::BadEncoding),
                Some(xb) => if xb.len() != 32 {
                    Err(EcdhError::BadLength)
                } else {
                    Ok(x25519_shared(secret, xb))
                },
            }
        },
        Suite::P256 => if !(peer.0 == ec() && peer.1 == p256_crv()) {
            Err(EcdhError::WrongKeyType)
        } else {
            match b64url_decoded(peer.2) {
                None => Err(EcdhError::BadEncoding),
                Some(xb) => match peer.3 {
                    None => Err(EcdhError::MissingY),
                    Some(yt) => match b64url_decoded(yt) {
                        None => Err(EcdhError::BadEncoding),
                        Some(yb) => match p256_shared(secret, seq![4u8] + xb + yb) {
                            None => Err(EcdhError::InvalidPoint),
                            Some(z) => Ok(z),
                        },
                    },
                },
            }
        },
    }
}

fn to_arr32(v: &[u8]) -> (out: [u8; 32])
    requires
        v@.len() == 32,
    ensures
        out@ == v@,
{
    let mut out = [0u8; 32];
    let mut i: usize = 0;
    while i < 32
        invariant
            i <= 32,
            v@.len() == 32,
            out@.len() == 32,
            forall|j: int| 0 <= j < i ==> out@[j] == v@[j],
        decreases 32 - i,
    {
        out[i] = v[i];
        i = i + 1;
    }
    proof {
        assert(out@ =~= v@);
    }
    out
}

impl KeyPair {
    /// The public JWK.
    pub fn jwk(&self) -> (r: &Jwk)
        ensures
            *r == self.spec_jwk(),
    {
        &self.public_jwk
    }

    /// Compute the ECDH shared secret Z against the peer's JWK public key.
    pub fn compute_z(&self, peer: &Jwk) -> (r: Result<Vec<u8>, EcdhError>)
        requires
            self.wf(),
        ensures
            match r {
                Ok(z) => spec_compute_z(self.spec_suite(), self.spec_secret(), jwk_view(*peer)) == Ok::<
                    Seq<u8>,
                    EcdhError,
                >(z@),
                Err(e) => spec_compute_z(self.spec_suite(), self.spec_secret(), jwk_view(*peer))
                    == Err::<Seq<u8>, EcdhError>(e),
            },
            forall|other: KeyPair|
                other.wf() && other.spec_suite() == self.spec_suite() && jwk_view(*peer) == jwk_view(
                    #[trigger] other.spec_jwk(),
                ) ==> r is Ok && spec_compute_z(other.spec_suite(), other.spec_secret(), jwk_view(self.spec_jwk()))
                    == Ok::<Seq<u8>, EcdhError>(r->Ok_0@),
    {
        match self.suite {
            Suite::X25519 => {
                let okp_s = literal_okp();
                let crv_s = literal_x25519();
                if !(str_eq(peer.kty.as_str(), okp_s.as_str()) && str_eq(peer.crv.as_str(), crv_s.as_str())) {
                    return Err(EcdhError::WrongKeyType);
                }
                let xb = match b64url_decode(peer.x.as_str()) {
                    Some(v) => v,
                    None => return Err(EcdhError::BadEncoding),
                };
                if xb.len() != 32 {
                    return Err(EcdhError::BadLength);
                }
                let pk = to_arr32(xb.as_slice());
                let sk = to_arr32(self.secret.as_slice());
                let z = x25519_dh(&sk, &pk);
                let mut out: Vec<u8> = Vec::new();
                out.extend_from_slice(&z);
                proof {
                    assert(out@ =~= z@);
                    assert(sk@ == self.secret@);
                }
                Ok(out)
            },
            Suite::P256 => {
                let ec_s = literal_ec();
                let crv_s = literal_p256();
                if !(str_eq(peer.kty.as_str(), ec_s.as_str()) && str_eq(peer.crv.as_str(), crv_s.as_str())) {
                    return Err(EcdhError::WrongKeyType);
                }
                let xb = match b64url_decode(peer.x.as_str()) {
                    Some(v) => v,
                    None => return Err(EcdhError::BadEncoding),
                };
                let yt = match &peer.y {
                    Some(y) => y,
                    None => return Err(EcdhError::MissingY),
                };
                let yb = match b64url_decode(yt.as_str()) {
                    Some(v) => v,
                    None => return Err(EcdhError::BadEncoding),
                };
                let mut point: Vec<u8> = Vec::new();
                point.push(4u8);
                point.extend_from_slice(xb.as_slice());
                point.extend_from_slice(yb.as_slice());
                proof {
                    assert(point@ =~= seq![4u8] + xb@ + yb@);
                }
                match p256_dh(self.secret.as_slice(), point.as_slice()) {
                    Some(z) => Ok(z),
                    None => Err(EcdhError::InvalidPoint),
                }
            },
        }
    }
}

} // verus!
