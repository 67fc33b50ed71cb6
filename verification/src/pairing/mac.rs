//! EAP-NOOB integrity: HMAC-SHA256 (MACs/MACp), SHA-256 (Hoob/NoobId), and the
//! 17-element association array they are computed over (RFC 9140 §3.3.2).
//!
//! Each array element is the verbatim JSON of the corresponding exchanged
//! field as it appeared on the wire, joined into a whitespace-free JSON array;
//! an absent field is emitted as `""`; element 12 is the literal KeyingMode `0`.

use vstd::prelude::*;
use vstd::string::*;
use vstd::utf8::encode_utf8;
use crate::text::{int_str, push_char, push_str, i64_to_string};
use sha2::Digest;
use hmac::Mac;

verus! {

/// SHA-256 of `data`, as computed by the `sha2` crate.
pub uninterp spec fn sha256_digest(data: Seq<u8>) -> Seq<u8>;

/// HMAC-SHA256 of `data` under `key`, as computed by the `hmac` crate.
pub uninterp spec fn hmac_sha256_tag(key: Seq<u8>, data: Seq<u8>) -> Seq<u8>;

/// `sha2::Sha256` over `data`. Claims only that the 32 bytes returned are the
/// digest named `sha256_digest(data)`.
#[verifier::external_body]
pub fn sha256(data: &[u8]) -> (out: [u8; 32])
    ensures
        out@ == sha256_digest(data@),
{
    let mut h = sha2::Sha256::new();
    h.update(data);
    h.finalize().into()
}

/// `hmac::Hmac<Sha256>` keyed by `key` over `data` (HMAC accepts keys of any
/// length, so the keyed constructor cannot fail). Claims only that the 32 bytes
/// returned are the tag named `hmac_sha256_tag(key, data)`.
#[verifier::external_body]
pub fn hmac_sha256(key: &[u8], data: &[u8]) -> (out: [u8; 32])
    ensures
        out@ == hmac_sha256_tag(key@, data@),
{
    let mut m = hmac::Hmac::<sha2::Sha256>::new_from_slice(key).expect("HMAC accepts any key length");
    m.update(data);
    m.finalize().into_bytes().into()
}

/// Comparison of two MACs that touches every byte of equal-length inputs.
pub fn mac_equal(a: &[u8], b: &[u8]) -> (r: bool)
    ensures
        r == (a@ == b@),
{
    if a.len() != b.len() {
        return false;
    }
    let mut diff: u8 = 0;
    let mut i: usize = 0;
    while i < a.len()
        invariant
            a@.len() == b@.len(),
            i <= a@.len(),
            (diff == 0) == (forall|j: int| 0 <= j < i ==> a@[j] == b@[j]),
        decreases a@.len() - i,
    {
        let x = a[i];
        let y = b[i];
        let d = diff | (x ^ y);
        proof {
            assert((d == 0) == (diff == 0 && x == y)) by (bit_vector)
                requires
                    d == diff | (x ^ y),
            ;
        }
        diff = d;
        i = i + 1;
    }
    proof {
        if diff == 0 {
            assert(a@ =~= b@);
        }
    }
    diff == 0
}

/// The exchanged fields that make up the Hoob/MAC input array. Each is the
/// verbatim JSON of the field as it appeared on the wire; an empty string means
/// the field was absent.
#[derive(Debug, Clone)]
pub struct MacInputs {
    pub vers: String,
    pub verp: String,
    pub peer_id: String,
    pub cryptosuites: String,
    pub dirs: String,
    pub server_info: String,
    pub cryptosuitep: String,
    pub dirp: String,
    pub nai: String,
    pub peer_info: String,
    pub pks: String,
    pub ns: String,
    pub pkp: String,
    pub np: String,
    pub noob: String,
}

impl Default for MacInputs {
    fn default() -> (m: Self)
        ensures
            m.vers@.len() == 0 && m.verp@.len() == 0 && m.peer_id@.len() == 0
                && m.cryptosuites@.len() == 0 && m.dirs@.len() == 0 && m.server_info@.len() == 0
                && m.cryptosuitep@.len() == 0 && m.dirp@.len() == 0 && m.nai@.len() == 0
                && m.peer_info@.len() == 0 && m.pks@.len() == 0 && m.ns@.len() == 0
                && m.pkp@.len() == 0 && m.np@.len() == 0 && m.noob@.len() == 0,
    {
        MacInputs {
            vers: String::new(),
            verp: String::new(),
            peer_id: String::new(),
            cryptosuites: String::new(),
            dirs: String::new(),
            server_info: String::new(),
            cryptosuitep: String::new(),
            dirp: String::new(),
            nai: String::new(),
            peer_info: String::new(),
            pks: String::new(),
            ns: String::new(),
            pkp: String::new(),
            np: String::new(),
            noob: String::new(),
        }
    }
}

/// An array element: the field itself, or `""` when absent.
pub open spec fn el(s: Seq<char>) -> Seq<char> {
    if s.len() == 0 {
        seq!['"', '"']
    } else {
        s
    }
}

/// Join texts with commas.
pub open spec fn comma_join(parts: Seq<Seq<char>>) -> Seq<char>
    decreases parts.len(),
{
    if parts.len() == 0 {
        seq![]
    } else if parts.len() == 1 {
        parts[0]
    } else {
        comma_join(parts.drop_last()) + seq![','] + parts.last()
    }
}

/// The 17 elements of the association array, in order.
pub open spec fn noob_parts(lead: Seq<char>, m: MacInputs) -> Seq<Seq<char>> {
    seq![
        lead,
        el(m.vers@),
        el(m.verp@),
        el(m.peer_id@),
        el(m.cryptosuites@),
        el(m.dirs@),
        el(m.server_info@),
        el(m.cryptosuitep@),
        el(m.dirp@),
        el(m.nai@),
        el(m.peer_info@),
        seq!['0'],
        el(m.pks@),
        el(m.ns@),
        el(m.pkp@),
        el(m.np@),
        el(m.noob@),
    ]
}

/// The association array as text: `[lead,Vers,...,Noob]`.
pub open spec fn noob_array_text(lead: Seq<char>, m: MacInputs) -> Seq<char> {
    seq!['['] + comma_join(noob_parts(lead, m)) + seq![']']
}

/// An absent (empty) field stands in the association array as the JSON
/// empty string `""`; a present one stands as its text.
pub proof fn lemma_absent_field(f: Seq<char>)
    ensures
        f.len() == 0 ==> el(f) == seq!['"', '"'],
        f.len() > 0 ==> el(f) == f,
{
}

/// Joining one more part puts a comma between.
proof fn lemma_comma_join_push(parts: Seq<Seq<char>>, x: Seq<char>)
    requires
        parts.len() >= 1,
    ensures
        comma_join(parts.push(x)) == comma_join(parts) + seq![','] + x,
{
    assert(parts.push(x).drop_last() =~= parts);
}

/// Joining one part more of a sequence.
proof fn lemma_join_step(xs: Seq<Seq<char>>, k: int)
    requires
        1 <= k < xs.len(),
    ensures
        comma_join(xs.subrange(0, k + 1)) == comma_join(xs.subrange(0, k)) + seq![','] + xs[k],
{
    lemma_comma_join_push(xs.subrange(0, k), xs[k]);
    assert(xs.subrange(0, k).push(xs[k]) =~= xs.subrange(0, k + 1));
}

/// The bracketed join of one part more.
proof fn lemma_bracket_step(xs: Seq<Seq<char>>, k: int)
    requires
        1 <= k < xs.len(),
    ensures
        seq!['['] + comma_join(xs.subrange(0, k + 1)) == seq!['['] + comma_join(xs.subrange(0, k)) + seq![','] + xs[k],
{
    lemma_join_step(xs, k);
    assert(seq!['['] + (comma_join(xs.subrange(0, k)) + seq![','] + xs[k]) =~= seq!['['] + comma_join(
        xs.subrange(0, k),
    ) + seq![','] + xs[k]);
}

/// The association array of RFC 9140 §3.3.2: `[`, the lead, then Vers, Verp,
/// PeerId, Cryptosuites, Dirs, ServerInfo, Cryptosuitep, Dirp, NAI, PeerInfo,
/// the KeyingMode `0`, PKs, Ns, PKp, Np and Noob, separated by commas, and `]`;
/// an absent field stands as the empty string `""`.
#[verifier::rlimit(50)]
pub proof fn lemma_association_array_order(lead: Seq<char>, m: MacInputs)
    ensures
        noob_array_text(lead, m) == seq!['['] + lead + seq![','] + el(m.vers@) + seq![','] + el(m.verp@) + seq![',']
            + el(m.peer_id@) + seq![','] + el(m.cryptosuites@) + seq![','] + el(m.dirs@) + seq![','] + el(
            m.server_info@,
        ) + seq![','] + el(m.cryptosuitep@) + seq![','] + el(m.dirp@) + seq![','] + el(m.nai@) + seq![','] + el(
            m.peer_info@,
        ) + seq![','] + seq!['0'] + seq![','] + el(m.pks@) + seq![','] + el(m.ns@) + seq![','] + el(m.pkp@)
            + seq![','] + el(m.np@) + seq![','] + el(m.noob@) + seq![']'],
        noob_parts(lead, m).len() == 17,
        noob_parts(lead, m)[0] == lead,
        noob_parts(lead, m)[1] == el(m.vers@),
        noob_parts(lead, m)[2] == el(m.verp@),
        noob_parts(lead, m)[3] == el(m.peer_id@),
        noob_parts(lead, m)[4] == el(m.cryptosuites@),
        noob_parts(lead, m)[5] == el(m.dirs@),
        noob_parts(lead, m)[6] == el(m.server_info@),
        noob_parts(lead, m)[7] == el(m.cryptosuitep@),
        noob_parts(lead, m)[8] == el(m.dirp@),
        noob_parts(lead, m)[9] == el(m.nai@),
        noob_parts(lead, m)[10] == el(m.peer_info@),
        noob_parts(lead, m)[11] == seq!['0'],
        noob_parts(lead, m)[12] == el(m.pks@),
        noob_parts(lead, m)[13] == el(m.ns@),
        noob_parts(lead, m)[14] == el(m.pkp@),
        noob_parts(lead, m)[15] == el(m.np@),
        noob_parts(lead, m)[16] == el(m.noob@),
{
    let xs = noob_parts(lead, m);
    assert(xs.subrange(0, 1) =~= seq![lead]);
    let t1 = seq!['['] + lead;
    assert(seq!['['] + comma_join(xs.subrange(0, 1)) == t1);
    lemma_bracket_step(xs, 1);
    let t2 = t1 + seq![','] + xs[1];
    assert(seq!['['] + comma_join(xs.subrange(0, 2)) == t2);
    lemma_bracket_step(xs, 2);
    let t3 = t2 + seq![','] + xs[2];
    assert(seq!['['] + comma_join(xs.subrange(0, 3)) == t3);
    lemma_bracket_step(xs, 3);
    let t4 = t3 + seq![','] + xs[3];
    assert(seq!['['] + comma_join(xs.subrange(0, 4)) == t4);
    lemma_bracket_step(xs, 4);
    let t5 = t4 + seq![','] + xs[4];
    assert(seq!['['] + comma_join(xs.subrange(0, 5)) == t5);
    lemma_bracket_step(xs, 5);
    let t6 = t5 + seq![','] + xs[5];
    assert(seq!['['] + comma_join(xs.subrange(0, 6)) == t6);
    lemma_bracket_step(xs, 6);
    let t7 = t6 + seq![','] + xs[6];
    assert(seq!['['] + comma_join(xs.subrange(0, 7)) == t7);
    lemma_bracket_step(xs, 7);
    let t8 = t7 + seq![','] + xs[7];
    assert(seq!['['] + comma_join(xs.subrange(0, 8)) == t8);
    lemma_bracket_step(xs, 8);
    let t9 = t8 + seq![','] + xs[8];
    assert(seq!['['] + comma_join(xs.subrange(0, 9)) == t9);
    lemma_bracket_step(xs, 9);
    let t10 = t9 + seq![','] + xs[9];
    assert(seq!['['] + comma_join(xs.subrange(0, 10)) == t10);
    lemma_bracket_step(xs, 10);
    let t11 = t10 + seq![','] + xs[10];
    assert(seq!['['] + comma_join(xs.subrange(0, 11)) == t11);
    lemma_bracket_step(xs, 11);
    let t12 = t11 + seq![','] + xs[11];
    assert(seq!['['] + comma_join(xs.subrange(0, 12)) == t12);
    lemma_bracket_step(xs, 12);
    let t13 = t12 + seq![','] + xs[12];
    assert(seq!['['] + comma_join(xs.subrange(0, 13)) == t13);
    lemma_bracket_step(xs, 13);
    let t14 = t13 + seq![','] + xs[13];
    assert(seq!['['] + comma_join(xs.subrange(0, 14)) == t14);
    lemma_bracket_step(xs, 14);
    let t15 = t14 + seq![','] + xs[14];
    assert(seq!['['] + comma_join(xs.subrange(0, 15)) == t15);
    lemma_bracket_step(xs, 15);
    let t16 = t15 + seq![','] + xs[15];
    assert(seq!['['] + comma_join(xs.subrange(0, 16)) == t16);
    lemma_bracket_step(xs, 16);
    let t17 = t16 + seq![','] + xs[16];
    assert(seq!['['] + comma_join(xs.subrange(0, 17)) == t17);
    assert(xs.subrange(0, 17) =~= xs);
    assert(noob_array_text(lead, m) == t17 + seq![']']);
}

fn el_exec(s: &str) -> (r: String)
    ensures
        r@ == el(s@),
{
    if s.unicode_len() == 0 {
        let mut r = String::new();
        push_char(&mut r, '"');
        push_char(&mut r, '"');
        r
    } else {
        let mut r = String::new();
        push_str(&mut r, s);
        r
    }
}

/// Build the 17-element association array (RFC 9140 §3.3.2) as whitespace-free
/// JSON bytes. `lead` is the verbatim leading element (`2` for MACs, `1` for
/// MACp, the direction for Hoob). Element 12 is the literal KeyingMode `0`.
pub fn noob_array(lead: &str, m: &MacInputs) -> (out: Vec<u8>)
    ensures
        out@ == encode_utf8(noob_array_text(lead@, *m)),
{
    let mut zero = String::new();
    push_char(&mut zero, '0');
    let mut lead_s = String::new();
    push_str(&mut lead_s, lead);
    let parts: Vec<String> = vec![
        lead_s,
        el_exec(m.vers.as_str()),
        el_exec(m.verp.as_str()),
        el_exec(m.peer_id.as_str()),
        el_exec(m.cryptosuites.as_str()),
        el_exec(m.dirs.as_str()),
        el_exec(m.server_info.as_str()),
        el_exec(m.cryptosuitep.as_str()),
        el_exec(m.dirp.as_str()),
        el_exec(m.nai.as_str()),
        el_exec(m.peer_info.as_str()),
        zero,
        el_exec(m.pks.as_str()),
        el_exec(m.ns.as_str()),
        el_exec(m.pkp.as_str()),
        el_exec(m.np.as_str()),
        el_exec(m.noob.as_str()),
    ];
    let ghost pv = parts@.map_values(|p: String| p@);
    proof {
        assert(pv =~= noob_parts(lead@, *m));
    }
    let mut text = String::new();
    push_char(&mut text, '[');
    let mut i: usize = 0;
    while i < parts.len()
        invariant
            i <= parts@.len(),
            pv == parts@.map_values(|p: String| p@),
            text@ == seq!['['] + comma_join(pv.subrange(0, i as int)),
        decreases parts@.len() - i,
    {
        if i > 0 {
            push_char(&mut text, ',');
        }
        push_str(&mut text, parts[i].as_str());
        proof {
            let after = pv.subrange(0, i + 1);
            assert(after.drop_last() =~= pv.subrange(0, i as int));
            assert(after.last() == parts@[i as int]@);
            if i == 0 {
                assert(comma_join(pv.subrange(0, 0)) =~= seq![]);
            }
            assert(text@ =~= seq!['['] + comma_join(after));
        }
        i = i + 1;
    }
    push_char(&mut text, ']');
    proof {
        assert(pv.subrange(0, 17) =~= pv);
        assert(text@ =~= noob_array_text(lead@, *m));
    }
    text.as_str().as_bytes_vec()
}

/// The first 16 bytes of a 32-byte digest.
fn first16(d: &[u8; 32]) -> (out: [u8; 16])
    ensures
        out@ == d@.subrange(0, 16),
{
    let mut out = [0u8; 16];
    let mut i: usize = 0;
    while i < 16
        invariant
            i <= 16,
            out@.len() == 16,
            d@.len() == 32,
            forall|j: int| 0 <= j < i ==> out@[j] == d@[j],
        decreases 16 - i,
    {
        out[i] = d[i];
        i = i + 1;
    }
    proof {
        assert(out@ =~= d@.subrange(0, 16));
    }
    out
}

/// The Completion-Exchange MAC over the association array led by `lead`.
pub open spec fn spec_compute_mac(key: Seq<u8>, lead: int, m: MacInputs) -> Seq<u8> {
    hmac_sha256_tag(key, encode_utf8(noob_array_text(int_str(lead), m)))
}

/// Completion-Exchange MAC (RFC 9140 §3.3.2): HMAC-SHA256 under `key` of the
/// association array led by `lead` (2 for MACs under Kms, 1 for MACp under Kmp).
pub fn compute_mac(key: &[u8], lead: i64, m: &MacInputs) -> (out: [u8; 32])
    ensures
        out@ == spec_compute_mac(key@, lead as int, *m),
{
    let l = i64_to_string(lead);
    let arr = noob_array(l.as_str(), m);
    hmac_sha256(key, arr.as_slice())
}

/// The out-of-band fingerprint of direction `dir`.
pub open spec fn spec_compute_hoob(dir: int, m: MacInputs) -> Seq<u8> {
    sha256_digest(encode_utf8(noob_array_text(int_str(dir), m))).subrange(0, 16)
}

/// Out-of-band fingerprint Hoob = SHA-256(array led by `dir`)[:16].
pub fn compute_hoob(dir: i64, m: &MacInputs) -> (out: [u8; 16])
    ensures
        out@ == spec_compute_hoob(dir as int, *m),
{
    let l = i64_to_string(dir);
    let arr = noob_array(l.as_str(), m);
    let full = sha256(arr.as_slice());
    first16(&full)
}

/// The text hashed for NoobId: `["NoobId",<noob_json>]`.
pub open spec fn noob_id_text(noob_json: Seq<char>) -> Seq<char> {
    seq!['[', '"', 'N', 'o', 'o', 'b', 'I', 'd', '"', ','] + noob_json + seq![']']
}

/// NoobId of the JSON string form of a Noob.
pub open spec fn spec_compute_noob_id(noob_json: Seq<char>) -> Seq<u8> {
    sha256_digest(encode_utf8(noob_id_text(noob_json))).subrange(0, 16)
}

/// NoobId = SHA-256(["NoobId", Noob])[:16], where `noob_json` is the base64url
/// JSON string form of Noob (verbatim, including quotes).
pub fn compute_noob_id(noob_json: &str) -> (out: [u8; 16])
    ensures
        out@ == spec_compute_noob_id(noob_json@),
{
    let mut text = String::new();
    push_char(&mut text, '[');
    push_char(&mut text, '"');
    push_char(&mut text, 'N');
    push_char(&mut text, 'o');
    push_char(&mut text, 'o');
    push_char(&mut text, 'b');
    push_char(&mut text, 'I');
    push_char(&mut text, 'd');
    push_char(&mut text, '"');
    push_char(&mut text, ',');
    push_str(&mut text, noob_json);
    push_char(&mut text, ']');
    proof {
        assert(text@ =~= noob_id_text(noob_json@));
    }
    let bytes = text.as_str().as_bytes_vec();
    let full = sha256(bytes.as_slice());
    first16(&full)
}

} // verus!
