//! `PairingInfo`: the identity object each side embeds in EAP-NOOB ServerInfo
//! (inviter) / PeerInfo (joiner).
//!
//! It binds the node's certificate and cluster identity into the exchange: the
//! object is folded verbatim into the Completion MACs, so a peer that alters it
//! fails MAC verification. On receipt the embedded certificate's node UUID must
//! equal `nodeUuid`, or the PairingInfo is rejected.

use vstd::prelude::*;
use crate::codec::{
    get_member_str, get_member_u64, json_members, json_object_text, json_quote, json_string_literal,
    lemma_json_quote_plain, lemma_object_first, lemma_object_push, lemma_push_member, member_lookup,
    member_str, member_text, member_u64, members_text, parse_json_members, plain_members,
};
use vstd::utf8::encode_utf8;
use crate::json_keys::{field_repeated, repeated_field, strs_view};
use crate::text::{nat_str, push_str, str_eq, u64_to_string};
use crate::trust::identity::{cert_node_uuid, node_uuid_from_cert, pem_cert_to_der, spec_pem_to_der};

verus! {

/// Current PairingInfo schema version. v>=2 carries a mandatory non-zero
/// `admissionEpoch`; v1 peers omitted it and map to admission epoch 1.
pub const PAIRING_INFO_VERSION: u32 = 2;

/// Admission incarnation assigned to v1 / pre-admission peers.
pub const LEGACY_ADMISSION_EPOCH: u64 = 1;

/// The identity object embedded in EAP-NOOB ServerInfo/PeerInfo.
#[derive(Debug, Clone)]
pub struct PairingInfo {
    pub v: u32,
    pub node_uuid: String,
    pub node_id: String,
    pub name: String,
    pub cluster_id: String,
    pub admission_epoch: u64,
    pub cluster_friendly_name: String,
    pub addr: String,
    /// PEM-encoded X.509 certificate (the node's mTLS identity).
    pub cert: String,
}

/// The content of a PairingInfo.
pub struct InfoView {
    pub v: u32,
    pub node_uuid: Seq<char>,
    pub node_id: Seq<char>,
    pub name: Seq<char>,
    pub cluster_id: Seq<char>,
    pub admission_epoch: u64,
    pub cluster_friendly_name: Seq<char>,
    pub addr: Seq<char>,
    pub cert: Seq<char>,
}

/// The content of a PairingInfo value.
pub open spec fn info_view(p: PairingInfo) -> InfoView {
    InfoView {
        v: p.v,
        node_uuid: p.node_uuid@,
        node_id: p.node_id@,
        name: p.name@,
        cluster_id: p.cluster_id@,
        admission_epoch: p.admission_epoch,
        cluster_friendly_name: p.cluster_friendly_name@,
        addr: p.addr@,
        cert: p.cert@,
    }
}

/// The compact JSON of a PairingInfo, members in declaration order, with a
/// zero `admissionEpoch` and an empty `addr` left out.
pub open spec fn info_json(p: InfoView) -> Seq<char> {
    "{\"v\":"@ + nat_str(p.v as nat) + ",\"nodeUuid\":"@ + json_quote(p.node_uuid) + ",\"nodeId\":"@
        + json_quote(p.node_id) + ",\"name\":"@ + json_quote(p.name) + ",\"clusterId\":"@ + json_quote(
        p.cluster_id,
    ) + (if p.admission_epoch != 0 {
        ",\"admissionEpoch\":"@ + nat_str(p.admission_epoch as nat)
    } else {
        seq![]
    }) + ",\"clusterFriendlyName\":"@ + json_quote(p.cluster_friendly_name) + (if p.addr.len() > 0 {
        ",\"addr\":"@ + json_quote(p.addr)
    } else {
        seq![]
    }) + ",\"cert\":"@ + json_quote(p.cert) + "}"@
}

/// Why a peer's PairingInfo was rejected.
#[derive(Debug, Clone, Copy, PartialEq, Eq, Structural)]
pub enum InfoError {
    /// Not a JSON object with the PairingInfo members.
    Decode,
    /// `nodeUuid` is empty.
    MissingNodeUuid,
    /// `cert` holds no CERTIFICATE block.
    NoCertificate,
    /// The certificate carries no node UUID.
    CertWithoutUuid,
    /// The certificate's node UUID is not `nodeUuid`.
    PrincipalMismatch,
    /// A v2 (or later) PairingInfo without an admission epoch.
    MissingAdmissionEpoch,
}

/// The description of a PairingInfo rejection.
pub open spec fn info_error_text(e: InfoError) -> Seq<char> {
    match e {
        InfoError::Decode => "decode PairingInfo"@,
        InfoError::MissingNodeUuid => "PairingInfo missing nodeUuid"@,
        InfoError::NoCertificate => "PairingInfo has no CERTIFICATE block"@,
        InfoError::CertWithoutUuid => "PairingInfo cert has no node UUID"@,
        InfoError::PrincipalMismatch => "PairingInfo cert principal != nodeUuid"@,
        InfoError::MissingAdmissionEpoch => "PairingInfo missing admissionEpoch"@,
    }
}

impl InfoError {
    /// A human-readable description.
    pub fn message(&self) -> (r: String)
        ensures
            r@ == info_error_text(*self),
    {
        match self {
            InfoError::Decode => String::from_str("decode PairingInfo"),
            InfoError::MissingNodeUuid => String::from_str("PairingInfo missing nodeUuid"),
            InfoError::NoCertificate => String::from_str("PairingInfo has no CERTIFICATE block"),
            InfoError::CertWithoutUuid => String::from_str("PairingInfo cert has no node UUID"),
            InfoError::PrincipalMismatch => String::from_str("PairingInfo cert principal != nodeUuid"),
            InfoError::MissingAdmissionEpoch => String::from_str("PairingInfo missing admissionEpoch"),
        }
    }
}

/// The members a PairingInfo reads; an object that gives one twice is refused.
pub open spec fn info_keys() -> Seq<Seq<char>> {
    seq![
        "v"@,
        "nodeUuid"@,
        "nodeId"@,
        "name"@,
        "clusterId"@,
        "admissionEpoch"@,
        "clusterFriendlyName"@,
        "addr"@,
        "cert"@,
    ]
}

/// The PairingInfo members read from JSON bytes: `v`, `nodeUuid`, `nodeId`,
/// `name`, `clusterId`, `clusterFriendlyName` and `cert` are required;
/// `admissionEpoch` defaults to 0 and `addr` to empty; `v` must fit 32 bits.
/// An object that gives one of these members twice is refused. Only the
/// object form is read: a JSON array of the fields in order is refused.
pub open spec fn info_from_json(raw: Seq<u8>) -> Option<InfoView> {
    match json_members(raw) {
        None => None,
        Some(ms) => if field_repeated(raw, info_keys()) {
            None
        } else {
            match (
            member_u64(ms, "v"@),
            member_str(ms, "nodeUuid"@),
            member_str(ms, "nodeId"@),
            member_str(ms, "name"@),
            member_str(ms, "clusterId"@),
            member_u64(ms, "admissionEpoch"@),
            member_str(ms, "clusterFriendlyName"@),
            member_str(ms, "addr"@),
            member_str(ms, "cert"@),
        ) {
            (
                Ok(Some(v)),
                Ok(Some(node_uuid)),
                Ok(Some(node_id)),
                Ok(Some(name)),
                Ok(Some(cluster_id)),
                Ok(epoch),
                Ok(Some(friendly)),
                Ok(addr),
                Ok(Some(cert)),
            ) => if v <= u32::MAX {
                Some(
                    InfoView {
                        v: v as u32,
                        node_uuid,
                        node_id,
                        name,
                        cluster_id,
                        admission_epoch: match epoch {
                            Some(e) => e,
                            None => 0,
                        },
                        cluster_friendly_name: friendly,
                        addr: match addr {
                            Some(a) => a,
                            None => seq![],
                        },
                        cert,
                    },
                )
            } else {
                None
            },
            _ => None,
        }},
    }
}

/// The outcome of validating a peer's PairingInfo: the decoded object (a v1
/// object without admission epoch given epoch 1) and the certificate DER.
pub open spec fn spec_parse_pairing_info(raw: Seq<u8>) -> Result<(InfoView, Seq<u8>), InfoError> {
    match info_from_json(raw) {
        None => Err(InfoError::Decode),
        Some(pi) => if pi.node_uuid.len() == 0 {
            Err(InfoError::MissingNodeUuid)
        } else {
            match spec_pem_to_der(pi.cert) {
                None => Err(InfoError::NoCertificate),
                Some(der) => match cert_node_uuid(der) {
                    None => Err(InfoError::CertWithoutUuid),
                    Some(principal) => if principal != pi.node_uuid {
                        Err(InfoError::PrincipalMismatch)
                    } else if pi.admission_epoch == 0 && pi.v >= PAIRING_INFO_VERSION {
                        Err(InfoError::MissingAdmissionEpoch)
                    } else if pi.admission_epoch == 0 {
                        Ok((InfoView { admission_epoch: LEGACY_ADMISSION_EPOCH, ..pi }, der))
                    } else {
                        Ok((pi, der))
                    },
                },
            }
        },
    }
}

impl PairingInfo {
    /// The compact JSON string put into ServerInfo/PeerInfo. These exact bytes
    /// are what the EAP-NOOB machine folds into the MAC.
    pub fn to_json(&self) -> (r: String)
        ensures
            r@ == info_json(info_view(*self)),
    {
        proof {
            reveal_strlit("{\"v\":");
            reveal_strlit(",\"nodeUuid\":");
            reveal_strlit(",\"nodeId\":");
            reveal_strlit(",\"name\":");
            reveal_strlit(",\"clusterId\":");
            reveal_strlit(",\"admissionEpoch\":");
            reveal_strlit(",\"clusterFriendlyName\":");
            reveal_strlit(",\"addr\":");
            reveal_strlit(",\"cert\":");
            reveal_strlit("}");
        }
        let mut out = String::new();
        push_str(&mut out, "{\"v\":");
        let n = u64_to_string(self.v as u64);
        push_str(&mut out, n.as_str());
        push_str(&mut out, ",\"nodeUuid\":");
        let q = json_string_literal(self.node_uuid.as_str());
        push_str(&mut out, q.as_str());
        push_str(&mut out, ",\"nodeId\":");
        let q = json_string_literal(self.node_id.as_str());
        push_str(&mut out, q.as_str());
        push_str(&mut out, ",\"name\":");
        let q = json_string_literal(self.name.as_str());
        push_str(&mut out, q.as_str());
        push_str(&mut out, ",\"clusterId\":");
        let q = json_string_literal(self.cluster_id.as_str());
        push_str(&mut out, q.as_str());
        let ghost head = out@;
        if self.admission_epoch != 0 {
            push_str(&mut out, ",\"admissionEpoch\":");
            let n = u64_to_string(self.admission_epoch);
            push_str(&mut out, n.as_str());
        }
        let ghost with_epoch = out@;
        push_str(&mut out, ",\"clusterFriendlyName\":");
        let q = json_string_literal(self.cluster_friendly_name.as_str());
        push_str(&mut out, q.as_str());
        let ghost mid = out@;
        if self.addr.unicode_len() > 0 {
            push_str(&mut out, ",\"addr\":");
            let q = json_string_literal(self.addr.as_str());
            push_str(&mut out, q.as_str());
        }
        let ghost with_addr = out@;
        push_str(&mut out, ",\"cert\":");
        let q = json_string_literal(self.cert.as_str());
        push_str(&mut out, q.as_str());
        push_str(&mut out, "}");
        proof {
            let p = info_view(*self);
            let ep: Seq<char> = if p.admission_epoch != 0 {
                ",\"admissionEpoch\":"@ + nat_str(p.admission_epoch as nat)
            } else {
                seq![]
            };
            let ad: Seq<char> = if p.addr.len() > 0 { ",\"addr\":"@ + json_quote(p.addr) } else { seq![] };
            assert(with_epoch =~= head + ep);
            assert(mid =~= head + ep + ",\"clusterFriendlyName\":"@ + json_quote(p.cluster_friendly_name));
            assert(with_addr =~= mid + ad);
            assert(out@ =~= info_json(p));
        }
        out
    }
}

/// The members of a PairingInfo's JSON object, in the order they are written.
pub open spec fn info_members(p: InfoView) -> Seq<(Seq<char>, Seq<char>)> {
    let m0 = seq![
        ("v"@, nat_str(p.v as nat)),
        ("nodeUuid"@, json_quote(p.node_uuid)),
        ("nodeId"@, json_quote(p.node_id)),
        ("name"@, json_quote(p.name)),
        ("clusterId"@, json_quote(p.cluster_id)),
    ];
    let m1 = if p.admission_epoch != 0 {
        m0.push(("admissionEpoch"@, nat_str(p.admission_epoch as nat)))
    } else {
        m0
    };
    let m2 = m1.push(("clusterFriendlyName"@, json_quote(p.cluster_friendly_name)));
    let m3 = if p.addr.len() > 0 {
        m2.push(("addr"@, json_quote(p.addr)))
    } else {
        m2
    };
    m3.push(("cert"@, json_quote(p.cert)))
}

/// The literal `<lead>"key":` is the lead character, the quoted plain key and
/// a colon.
proof fn lemma_info_lead(lit: Seq<char>, lead: char, key: Seq<char>)
    requires
        lit == seq![lead, '"'] + key + seq!['"', ':'],
        forall|i: int| 0 <= i < key.len() ==> crate::codec::json_plain_char(#[trigger] key[i]),
    ensures
        lit == seq![lead] + json_quote(key) + seq![':'],
{
    lemma_json_quote_plain(key);
    assert(lit =~= seq![lead] + json_quote(key) + seq![':']);
}

/// The literal pieces of a PairingInfo's JSON are its keys quoted, each led
/// by `{` or `,` and followed by a colon.
proof fn lemma_info_literals()
    ensures
        "{\"v\":"@ == seq!['{'] + json_quote("v"@) + seq![':'],
        ",\"nodeUuid\":"@ == seq![','] + json_quote("nodeUuid"@) + seq![':'],
        ",\"nodeId\":"@ == seq![','] + json_quote("nodeId"@) + seq![':'],
        ",\"name\":"@ == seq![','] + json_quote("name"@) + seq![':'],
        ",\"clusterId\":"@ == seq![','] + json_quote("clusterId"@) + seq![':'],
        ",\"admissionEpoch\":"@ == seq![','] + json_quote("admissionEpoch"@) + seq![':'],
        ",\"clusterFriendlyName\":"@ == seq![','] + json_quote("clusterFriendlyName"@) + seq![':'],
        ",\"addr\":"@ == seq![','] + json_quote("addr"@) + seq![':'],
        ",\"cert\":"@ == seq![','] + json_quote("cert"@) + seq![':'],
        "}"@ == seq!['}'],
{
    assert("{\"v\":"@ == seq!['{'] + json_quote("v"@) + seq![':']) by {
        reveal_strlit("v");
        reveal_strlit("{\"v\":");
        assert("{\"v\":"@ =~= seq!['{', '"'] + "v"@ + seq!['"', ':']);
        lemma_info_lead("{\"v\":"@, '{', "v"@);
    }
    assert(",\"nodeUuid\":"@ == seq![','] + json_quote("nodeUuid"@) + seq![':']) by {
        reveal_strlit("nodeUuid");
        reveal_strlit(",\"nodeUuid\":");
        assert(",\"nodeUuid\":"@ =~= seq![',', '"'] + "nodeUuid"@ + seq!['"', ':']);
        lemma_info_lead(",\"nodeUuid\":"@, ',', "nodeUuid"@);
    }
    assert(",\"nodeId\":"@ == seq![','] + json_quote("nodeId"@) + seq![':']) by {
        reveal_strlit("nodeId");
        reveal_strlit(",\"nodeId\":");
        assert(",\"nodeId\":"@ =~= seq![',', '"'] + "nodeId"@ + seq!['"', ':']);
        lemma_info_lead(",\"nodeId\":"@, ',', "nodeId"@);
    }
    assert(",\"name\":"@ == seq![','] + json_quote("name"@) + seq![':']) by {
        reveal_strlit("name");
        reveal_strlit(",\"name\":");
        assert(",\"name\":"@ =~= seq![',', '"'] + "name"@ + seq!['"', ':']);
        lemma_info_lead(",\"name\":"@, ',', "name"@);
    }
    assert(",\"clusterId\":"@ == seq![','] + json_quote("clusterId"@) + seq![':']) by {
        reveal_strlit("clusterId");
        reveal_strlit(",\"clusterId\":");
        assert(",\"clusterId\":"@ =~= seq![',', '"'] + "clusterId"@ + seq!['"', ':']);
        lemma_info_lead(",\"clusterId\":"@, ',', "clusterId"@);
    }
    assert(",\"admissionEpoch\":"@ == seq![','] + json_quote("admissionEpoch"@) + seq![':']) by {
        reveal_strlit("admissionEpoch");
        reveal_strlit(",\"admissionEpoch\":");
        assert(",\"admissionEpoch\":"@ =~= seq![',', '"'] + "admissionEpoch"@ + seq!['"', ':']);
        lemma_info_lead(",\"admissionEpoch\":"@, ',', "admissionEpoch"@);
    }
    assert(",\"clusterFriendlyName\":"@ == seq![','] + json_quote("clusterFriendlyName"@) + seq![':']) by {
        reveal_strlit("clusterFriendlyName");
        reveal_strlit(",\"clusterFriendlyName\":");
        assert(",\"clusterFriendlyName\":"@ =~= seq![',', '"'] + "clusterFriendlyName"@ + seq!['"', ':']);
        lemma_info_lead(",\"clusterFriendlyName\":"@, ',', "clusterFriendlyName"@);
    }
    assert(",\"addr\":"@ == seq![','] + json_quote("addr"@) + seq![':']) by {
        reveal_strlit("addr");
        reveal_strlit(",\"addr\":");
        assert(",\"addr\":"@ =~= seq![',', '"'] + "addr"@ + seq!['"', ':']);
        lemma_info_lead(",\"addr\":"@, ',', "addr"@);
    }
    assert(",\"cert\":"@ == seq![','] + json_quote("cert"@) + seq![':']) by {
        reveal_strlit("cert");
        reveal_strlit(",\"cert\":");
        assert(",\"cert\":"@ =~= seq![',', '"'] + "cert"@ + seq!['"', ':']);
        lemma_info_lead(",\"cert\":"@, ',', "cert"@);
    }
    assert("}"@ == seq!['}']) by {
        reveal_strlit("}");
    }
}

/// A PairingInfo's JSON is the compact object of its members.
pub proof fn lemma_info_text(p: InfoView)
    ensures
        info_json(p) == json_object_text(info_members(p)),
{
    lemma_info_literals();
    let a0 = ("v"@, nat_str(p.v as nat));
    let a1 = ("nodeUuid"@, json_quote(p.node_uuid));
    let a2 = ("nodeId"@, json_quote(p.node_id));
    let a3 = ("name"@, json_quote(p.name));
    let a4 = ("clusterId"@, json_quote(p.cluster_id));
    let a5 = ("admissionEpoch"@, nat_str(p.admission_epoch as nat));
    let a6 = ("clusterFriendlyName"@, json_quote(p.cluster_friendly_name));
    let a7 = ("addr"@, json_quote(p.addr));
    let a8 = ("cert"@, json_quote(p.cert));
    lemma_object_first(a0, "{\"v\":"@);
    let s0 = seq![a0];
    lemma_object_push(s0, a1, ",\"nodeUuid\":"@);
    let s1 = s0.push(a1);
    lemma_object_push(s1, a2, ",\"nodeId\":"@);
    let s2 = s1.push(a2);
    lemma_object_push(s2, a3, ",\"name\":"@);
    let s3 = s2.push(a3);
    lemma_object_push(s3, a4, ",\"clusterId\":"@);
    let m0 = s3.push(a4);
    assert(m0 =~= seq![a0, a1, a2, a3, a4]);
    let head = "{\"v\":"@ + nat_str(p.v as nat) + ",\"nodeUuid\":"@ + json_quote(p.node_uuid) + ",\"nodeId\":"@
        + json_quote(p.node_id) + ",\"name\":"@ + json_quote(p.name) + ",\"clusterId\":"@ + json_quote(p.cluster_id);
    assert(seq!['{'] + members_text(m0) =~= head);
    let m1 = if p.admission_epoch != 0 { m0.push(a5) } else { m0 };
    let pe: Seq<char> = if p.admission_epoch != 0 {
        ",\"admissionEpoch\":"@ + nat_str(p.admission_epoch as nat)
    } else {
        seq![]
    };
    if p.admission_epoch != 0 {
        lemma_object_push(m0, a5, ",\"admissionEpoch\":"@);
    }
    assert(seq!['{'] + members_text(m1) =~= head + pe);
    let m2 = m1.push(a6);
    lemma_object_push(m1, a6, ",\"clusterFriendlyName\":"@);
    let mid = head + pe + ",\"clusterFriendlyName\":"@ + json_quote(p.cluster_friendly_name);
    assert(seq!['{'] + members_text(m2) =~= mid);
    let m3 = if p.addr.len() > 0 { m2.push(a7) } else { m2 };
    let pa: Seq<char> = if p.addr.len() > 0 { ",\"addr\":"@ + json_quote(p.addr) } else { seq![] };
    if p.addr.len() > 0 {
        lemma_object_push(m2, a7, ",\"addr\":"@);
    }
    assert(seq!['{'] + members_text(m3) =~= mid + pa);
    let m4 = m3.push(a8);
    lemma_object_push(m3, a8, ",\"cert\":"@);
    assert(seq!['{'] + members_text(m4) =~= mid + pa + ",\"cert\":"@ + json_quote(p.cert));
    assert(m4 == info_members(p));
    assert(info_json(p) =~= json_object_text(m4));
}

/// The members of a PairingInfo have distinct keys and scalar values; each
/// member it writes is found under its key, a left-out one is absent.
pub proof fn lemma_info_lookup(p: InfoView)
    ensures
        plain_members(info_members(p)),
        member_lookup(info_members(p), "v"@) == Some(nat_str(p.v as nat)),
        member_lookup(info_members(p), "nodeUuid"@) == Some(json_quote(p.node_uuid)),
        member_lookup(info_members(p), "nodeId"@) == Some(json_quote(p.node_id)),
        member_lookup(info_members(p), "name"@) == Some(json_quote(p.name)),
        member_lookup(info_members(p), "clusterId"@) == Some(json_quote(p.cluster_id)),
        member_lookup(info_members(p), "admissionEpoch"@) == (if p.admission_epoch != 0 {
            Some(nat_str(p.admission_epoch as nat))
        } else {
            None
        }),
        member_lookup(info_members(p), "clusterFriendlyName"@) == Some(json_quote(p.cluster_friendly_name)),
        member_lookup(info_members(p), "addr"@) == (if p.addr.len() > 0 {
            Some(json_quote(p.addr))
        } else {
            None
        }),
        member_lookup(info_members(p), "cert"@) == Some(json_quote(p.cert)),
{
    reveal_strlit("v");
    reveal_strlit("nodeUuid");
    reveal_strlit("nodeId");
    reveal_strlit("name");
    reveal_strlit("clusterId");
    reveal_strlit("admissionEpoch");
    reveal_strlit("clusterFriendlyName");
    reveal_strlit("addr");
    reveal_strlit("cert");
    assert("name"@[0] != "addr"@[0] && "name"@[0] != "cert"@[0] && "addr"@[0] != "cert"@[0]);
    let e0 = Seq::<(Seq<char>, Seq<char>)>::empty();
    let a0 = ("v"@, nat_str(p.v as nat));
    let a1 = ("nodeUuid"@, json_quote(p.node_uuid));
    let a2 = ("nodeId"@, json_quote(p.node_id));
    let a3 = ("name"@, json_quote(p.name));
    let a4 = ("clusterId"@, json_quote(p.cluster_id));
    let a5 = ("admissionEpoch"@, nat_str(p.admission_epoch as nat));
    let a6 = ("clusterFriendlyName"@, json_quote(p.cluster_friendly_name));
    let a7 = ("addr"@, json_quote(p.addr));
    let a8 = ("cert"@, json_quote(p.cert));
    assert(plain_members(e0));
    lemma_push_member(e0, a0);
    let s0 = e0.push(a0);
    lemma_push_member(s0, a1);
    let s1 = s0.push(a1);
    lemma_push_member(s1, a2);
    let s2 = s1.push(a2);
    lemma_push_member(s2, a3);
    let s3 = s2.push(a3);
    lemma_push_member(s3, a4);
    let m0 = s3.push(a4);
    let m1 = if p.admission_epoch != 0 { m0.push(a5) } else { m0 };
    lemma_push_member(m0, a5);
    let m2 = m1.push(a6);
    lemma_push_member(m1, a6);
    let m3 = if p.addr.len() > 0 { m2.push(a7) } else { m2 };
    lemma_push_member(m2, a7);
    let m4 = m3.push(a8);
    lemma_push_member(m3, a8);
    assert(m0 =~= seq![a0, a1, a2, a3, a4]);
    assert(m4 == info_members(p));
}

fn info_fields(raw: &[u8]) -> (r: Option<PairingInfo>)
    ensures
        match r {
            Some(p) => info_from_json(raw@) == Some(info_view(p)),
            None => info_from_json(raw@) is None,
        },
        forall|p: InfoView| raw@ == encode_utf8(#[trigger] info_json(p)) ==> r is Some && info_view(r.unwrap()) == p,
{
    let ms = match parse_json_members(raw) {
        Some(ms) => ms,
        None => {
            proof {
                assert forall|p: InfoView| raw@ == encode_utf8(#[trigger] info_json(p)) implies false by {
                    lemma_info_text(p);
                    lemma_info_lookup(p);
                }
            }
            return None;
        },
    };
    let keys: Vec<&str> = vec![
        "v",
        "nodeUuid",
        "nodeId",
        "name",
        "clusterId",
        "admissionEpoch",
        "clusterFriendlyName",
        "addr",
        "cert",
    ];
    proof {
        assert(strs_view(keys@) =~= info_keys());
    }
    if repeated_field(raw, &keys) {
        proof {
            assert forall|p: InfoView| raw@ == encode_utf8(#[trigger] info_json(p)) implies false by {
                lemma_info_text(p);
                lemma_info_lookup(p);
            }
        }
        return None;
    }
    let ghost msv = crate::codec::members_view(ms@);
    proof {
        assert forall|p: InfoView| raw@ == encode_utf8(#[trigger] info_json(p)) implies {
            &&& member_lookup(msv, "v"@) == member_lookup(info_members(p), "v"@)
            &&& member_lookup(msv, "nodeUuid"@) == member_lookup(info_members(p), "nodeUuid"@)
            &&& member_lookup(msv, "nodeId"@) == member_lookup(info_members(p), "nodeId"@)
            &&& member_lookup(msv, "name"@) == member_lookup(info_members(p), "name"@)
            &&& member_lookup(msv, "clusterId"@) == member_lookup(info_members(p), "clusterId"@)
            &&& member_lookup(msv, "admissionEpoch"@) == member_lookup(info_members(p), "admissionEpoch"@)
            &&& member_lookup(msv, "clusterFriendlyName"@) == member_lookup(info_members(p), "clusterFriendlyName"@)
            &&& member_lookup(msv, "addr"@) == member_lookup(info_members(p), "addr"@)
            &&& member_lookup(msv, "cert"@) == member_lookup(info_members(p), "cert"@)
        } by {
            lemma_info_text(p);
            lemma_info_lookup(p);
        }
    }
    let g_v = get_member_u64(&ms, "v");
    let g_uuid = get_member_str(&ms, "nodeUuid");
    let g_id = get_member_str(&ms, "nodeId");
    let g_name = get_member_str(&ms, "name");
    let g_cluster = get_member_str(&ms, "clusterId");
    let g_epoch = get_member_u64(&ms, "admissionEpoch");
    let g_friendly = get_member_str(&ms, "clusterFriendlyName");
    let g_addr = get_member_str(&ms, "addr");
    let g_cert = get_member_str(&ms, "cert");
    proof {
        assert forall|p: InfoView| raw@ == encode_utf8(#[trigger] info_json(p)) implies {
            &&& g_v == Ok::<Option<u64>, ()>(Some(p.v as u64))
            &&& g_uuid matches Ok(Some(x)) && x@ == p.node_uuid
            &&& g_id matches Ok(Some(x)) && x@ == p.node_id
            &&& g_name matches Ok(Some(x)) && x@ == p.name
            &&& g_cluster matches Ok(Some(x)) && x@ == p.cluster_id
            &&& g_epoch == Ok::<Option<u64>, ()>(if p.admission_epoch != 0 { Some(p.admission_epoch) } else { None })
            &&& g_friendly matches Ok(Some(x)) && x@ == p.cluster_friendly_name
            &&& g_addr is Ok && (if p.addr.len() > 0 { g_addr->Ok_0 matches Some(x) && x@ == p.addr } else { g_addr->Ok_0 is None })
            &&& g_cert matches Ok(Some(x)) && x@ == p.cert
        } by {
            lemma_info_lookup(p);
            assert(nat_str(p.v as nat) == nat_str((p.v as u64) as nat));
            assert(member_lookup(msv, "v"@) == Some(nat_str((p.v as u64) as nat)));
            assert(member_lookup(msv, "nodeUuid"@) == Some(json_quote(p.node_uuid)));
            assert(member_lookup(msv, "nodeId"@) == Some(json_quote(p.node_id)));
            assert(member_lookup(msv, "name"@) == Some(json_quote(p.name)));
            assert(member_lookup(msv, "clusterId"@) == Some(json_quote(p.cluster_id)));
            if p.admission_epoch != 0 {
                assert(member_lookup(msv, "admissionEpoch"@) == Some(nat_str((p.admission_epoch as u64) as nat)));
            }
            assert(member_lookup(msv, "clusterFriendlyName"@) == Some(json_quote(p.cluster_friendly_name)));
            if p.addr.len() > 0 {
                assert(member_lookup(msv, "addr"@) == Some(json_quote(p.addr)));
            }
            assert(member_lookup(msv, "cert"@) == Some(json_quote(p.cert)));
        }
    }
    let v = match g_v {
        Ok(Some(v)) => v,
        _ => return None,
    };
    let node_uuid = match g_uuid {
        Ok(Some(s)) => s,
        _ => return None,
    };
    let node_id = match g_id {
        Ok(Some(s)) => s,
        _ => return None,
    };
    let name = match g_name {
        Ok(Some(s)) => s,
        _ => return None,
    };
    let cluster_id = match g_cluster {
        Ok(Some(s)) => s,
        _ => return None,
    };
    let epoch = match g_epoch {
        Ok(e) => e,
        Err(_) => return None,
    };
    let friendly = match g_friendly {
        Ok(Some(s)) => s,
        _ => return None,
    };
    let addr = match g_addr {
        Ok(a) => a,
        Err(_) => return None,
    };
    let cert = match g_cert {
        Ok(Some(s)) => s,
        _ => return None,
    };
    if v > 0xffff_ffff {
        return None;
    }
    let admission_epoch = match epoch {
        Some(e) => e,
        None => 0,
    };
    let addr = match addr {
        Some(a) => a,
        None => String::new(),
    };
    let r = PairingInfo {
        v: v as u32,
        node_uuid,
        node_id,
        name,
        cluster_id,
        admission_epoch,
        cluster_friendly_name: friendly,
        addr,
        cert,
    };
    proof {
        assert forall|p: InfoView| raw@ == encode_utf8(#[trigger] info_json(p)) implies info_view(r) == p by {
            if p.addr.len() == 0 {
                assert(p.addr =~= Seq::<char>::empty());
            }
        }
    }
    Some(r)
}

/// The bytes, when they are the JSON of some PairingInfo, read as that
/// PairingInfo.
pub open spec fn info_read(raw: Seq<u8>) -> bool {
    forall|p: InfoView| raw == encode_utf8(#[trigger] info_json(p)) ==> info_from_json(raw) == Some(p)
}

/// Parse and validate a peer's PairingInfo from the authenticated EAP-NOOB
/// transcript: decode the JSON, extract the embedded certificate, and require
/// its node UUID to equal `nodeUuid`. Returns the info plus the certificate
/// DER for pinning. v1 peers with no admission epoch get epoch 1.
pub fn parse_pairing_info(raw: &[u8]) -> (r: Result<(PairingInfo, Vec<u8>), InfoError>)
    ensures
        match r {
            Ok((p, der)) => spec_parse_pairing_info(raw@) == Ok::<(InfoView, Seq<u8>), InfoError>(
                (info_view(p), der@),
            ),
            Err(e) => spec_parse_pairing_info(raw@) == Err::<(InfoView, Seq<u8>), InfoError>(e),
        },
        info_read(raw@),
{
    let mut pi = match info_fields(raw) {
        Some(p) => p,
        None => return Err(InfoError::Decode),
    };
    if pi.node_uuid.unicode_len() == 0 {
        return Err(InfoError::MissingNodeUuid);
    }
    let der = match pem_cert_to_der(pi.cert.as_str()) {
        Some(d) => d,
        None => return Err(InfoError::NoCertificate),
    };
    let principal = match node_uuid_from_cert(der.as_slice()) {
        Some(u) => u,
        None => return Err(InfoError::CertWithoutUuid),
    };
    if !str_eq(principal.as_str(), pi.node_uuid.as_str()) {
        return Err(InfoError::PrincipalMismatch);
    }
    if pi.admission_epoch == 0 {
        if pi.v >= PAIRING_INFO_VERSION {
            return Err(InfoError::MissingAdmissionEpoch);
        }
        pi.admission_epoch = LEGACY_ADMISSION_EPOCH;
    }
    Ok((pi, der))
}

} // verus!
