//! The `/v1/cluster/pairing` wire envelope.
//!
//! Each request/response carries exactly one EAP-NOOB message on the pairing
//! channel. `msg` is the base64 (standard alphabet) of the opaque EAP-NOOB
//! blob, or empty for the Completion kickoff and for signals. The envelope
//! travels as a compact JSON object whose empty `msg`/`reason` and false
//! `rejected` members are left out.

use vstd::prelude::*;
use crate::codec::{b64std, b64std_decode, b64std_decoded, b64std_encode, get_member_bool, get_member_str, json_members, json_object_text, json_quote, json_string_literal, lemma_json_quote_plain, lemma_object_first, lemma_object_push, lemma_push_member, lemma_push_text, member_bool, member_lookup, member_str, member_text, members_text, parse_json_members, plain_members};
use vstd::utf8::encode_utf8;
use crate::json_keys::{field_repeated, repeated_field, strs_view};
use crate::text::push_str;

verus! {

/// HTTP path of the pairing channel.
pub const PAIRING_PATH: &'static str = "/v1/cluster/pairing";

/// Default inter-node pairing port (appended to a bare invite host).
pub const DEFAULT_PAIRING_PORT: u16 = 14321;

/// One message on the pairing channel.
#[derive(Debug, Clone)]
pub struct PairingEnvelope {
    pub invite_id: String,
    pub phase: String,
    /// base64 (standard) of the EAP-NOOB blob; empty when there is nothing to
    /// send (Completion kickoff, or a terminal signal).
    pub msg: String,
    /// Set by a joiner that explicitly refuses the pairing (vs. a transport
    /// error), carried with a `reason`.
    pub rejected: bool,
    pub reason: String,
}

/// The content of an envelope.
pub struct EnvelopeView {
    pub invite_id: Seq<char>,
    pub phase: Seq<char>,
    pub msg: Seq<char>,
    pub rejected: bool,
    pub reason: Seq<char>,
}

/// The content of an envelope value.
pub open spec fn env_view(e: PairingEnvelope) -> EnvelopeView {
    EnvelopeView { invite_id: e.invite_id@, phase: e.phase@, msg: e.msg@, rejected: e.rejected, reason: e.reason@ }
}

/// The blob an envelope carries: empty when `msg` is empty or does not decode.
pub open spec fn blob_of(msg: Seq<char>) -> Seq<u8> {
    if msg.len() == 0 {
        seq![]
    } else {
        match b64std_decoded(msg) {
            Some(b) => b,
            None => seq![],
        }
    }
}

impl Default for PairingEnvelope {
    fn default() -> (e: Self)
        ensures
            e.invite_id@.len() == 0 && e.phase@.len() == 0 && e.msg@.len() == 0 && !e.rejected
                && e.reason@.len() == 0,
    {
        PairingEnvelope {
            invite_id: String::new(),
            phase: String::new(),
            msg: String::new(),
            rejected: false,
            reason: String::new(),
        }
    }
}

fn owned(s: &str) -> (r: String)
    ensures
        r@ == s@,
{
    let mut r = String::new();
    push_str(&mut r, s);
    r
}

impl PairingEnvelope {
    /// A request/response carrying an EAP-NOOB blob for `phase`.
    pub fn with_msg(invite_id: &str, phase: &str, blob: &[u8]) -> (e: PairingEnvelope)
        ensures
            env_view(e) == (EnvelopeView {
                invite_id: invite_id@,
                phase: phase@,
                msg: b64std(blob@),
                rejected: false,
                reason: seq![],
            }),
            blob_of(e.msg@) == blob@,
    {
        let msg = encode_msg(blob);
        proof {
            if blob@.len() == 0 {
                assert(blob@ =~= Seq::<u8>::empty());
            } else {
                assert(msg@.len() > 0);
            }
        }
        PairingEnvelope {
            invite_id: owned(invite_id),
            phase: owned(phase),
            msg,
            rejected: false,
            reason: String::new(),
        }
    }

    /// An empty-`msg` envelope (Completion kickoff, or a terminal signal).
    pub fn signal(invite_id: &str, phase: &str, reason: &str) -> (e: PairingEnvelope)
        ensures
            env_view(e) == (EnvelopeView {
                invite_id: invite_id@,
                phase: phase@,
                msg: seq![],
                rejected: false,
                reason: reason@,
            }),
    {
        PairingEnvelope {
            invite_id: owned(invite_id),
            phase: owned(phase),
            msg: String::new(),
            rejected: false,
            reason: owned(reason),
        }
    }

    /// A `rejected` response carrying a reason.
    pub fn rejected(reason: &str) -> (e: PairingEnvelope)
        ensures
            env_view(e) == (EnvelopeView {
                invite_id: seq![],
                phase: seq![],
                msg: seq![],
                rejected: true,
                reason: reason@,
            }),
    {
        PairingEnvelope {
            invite_id: String::new(),
            phase: String::new(),
            msg: String::new(),
            rejected: true,
            reason: owned(reason),
        }
    }

    /// Decode the carried EAP-NOOB blob (empty if `msg` is empty or invalid).
    pub fn blob(&self) -> (r: Vec<u8>)
        ensures
            r@ == blob_of(self.msg@),
    {
        if self.msg.unicode_len() == 0 {
            Vec::new()
        } else {
            match decode_msg(self.msg.as_str()) {
                Some(b) => b,
                None => Vec::new(),
            }
        }
    }
}

/// base64-encode (standard alphabet) an EAP-NOOB blob for the `msg` field.
pub fn encode_msg(blob: &[u8]) -> (s: String)
    ensures
        s@ == b64std(blob@),
        b64std_decoded(s@) == Some(blob@),
        s@.len() == 4 * ((blob@.len() + 2) / 3),
{
    b64std_encode(blob)
}

/// Decode a base64 (standard alphabet) `msg` field.
pub fn decode_msg(s: &str) -> (r: Option<Vec<u8>>)
    ensures
        match r {
            Some(v) => b64std_decoded(s@) == Some(v@),
            None => b64std_decoded(s@) is None,
        },
{
    b64std_decode(s)
}

// --- JSON form ---------------------------------------------------------------------

/// The compact JSON object of an envelope, members in declaration order, with
/// an empty `msg`/`reason` and a false `rejected` left out.
pub open spec fn envelope_json(e: EnvelopeView) -> Seq<char> {
    "{\"inviteId\":"@ + json_quote(e.invite_id) + ",\"phase\":"@ + json_quote(e.phase) + (if e.msg.len() > 0 {
        ",\"msg\":"@ + json_quote(e.msg)
    } else {
        seq![]
    }) + (if e.rejected {
        ",\"rejected\":true"@
    } else {
        seq![]
    }) + (if e.reason.len() > 0 {
        ",\"reason\":"@ + json_quote(e.reason)
    } else {
        seq![]
    }) + "}"@
}

/// The members an envelope reads; an object that gives one twice is refused.
pub open spec fn envelope_fields() -> Seq<Seq<char>> {
    seq!["inviteId"@, "phase"@, "msg"@, "rejected"@, "reason"@]
}

/// The envelope read from JSON bytes: `inviteId` and `phase` are required
/// strings, `msg` and `reason` optional strings, `rejected` an optional
/// boolean; other members are ignored. `None` when the bytes are not such an
/// object, or when the object gives one of these members twice. Only the
/// object form is read: a JSON array of the fields in order is refused.
pub open spec fn envelope_from_json(bytes: Seq<u8>) -> Option<EnvelopeView> {
    match json_members(bytes) {
        None => None,
        Some(ms) => if field_repeated(bytes, envelope_fields()) {
            None
        } else {
            match (
            member_str(ms, "inviteId"@),
            member_str(ms, "phase"@),
            member_str(ms, "msg"@),
            member_bool(ms, "rejected"@),
            member_str(ms, "reason"@),
        ) {
            (Ok(Some(inv)), Ok(Some(ph)), Ok(msg), Ok(rej), Ok(rea)) => Some(
                EnvelopeView {
                    invite_id: inv,
                    phase: ph,
                    msg: match msg {
                        Some(m) => m,
                        None => seq![],
                    },
                    rejected: match rej {
                        Some(b) => b,
                        None => false,
                    },
                    reason: match rea {
                        Some(r) => r,
                        None => seq![],
                    },
                },
            ),
            _ => None,
        }},
    }
}

/// The members of an envelope's JSON object, in the order they are written.
pub open spec fn envelope_members(e: EnvelopeView) -> Seq<(Seq<char>, Seq<char>)> {
    let m0 = seq![("inviteId"@, json_quote(e.invite_id)), ("phase"@, json_quote(e.phase))];
    let m1 = if e.msg.len() > 0 {
        m0.push(("msg"@, json_quote(e.msg)))
    } else {
        m0
    };
    let m2 = if e.rejected {
        m1.push(("rejected"@, "true"@))
    } else {
        m1
    };
    if e.reason.len() > 0 {
        m2.push(("reason"@, json_quote(e.reason)))
    } else {
        m2
    }
}

/// The literal `,"key":` (or `{"key":`) is the lead character, the quoted
/// plain key and a colon.
proof fn lemma_key_lead(lit: Seq<char>, lead: char, key: Seq<char>)
    requires
        lit == seq![lead, '"'] + key + seq!['"', ':'],
        forall|i: int| 0 <= i < key.len() ==> crate::codec::json_plain_char(#[trigger] key[i]),
    ensures
        lit == seq![lead] + json_quote(key) + seq![':'],
{
    lemma_json_quote_plain(key);
    assert(lit =~= seq![lead] + json_quote(key) + seq![':']);
}

/// The literal pieces of an envelope's JSON are its keys quoted, each led by
/// `{` or `,` and followed by a colon.
proof fn lemma_envelope_literals()
    ensures
        "{\"inviteId\":"@ == seq!['{'] + json_quote("inviteId"@) + seq![':'],
        ",\"phase\":"@ == seq![','] + json_quote("phase"@) + seq![':'],
        ",\"msg\":"@ == seq![','] + json_quote("msg"@) + seq![':'],
        ",\"rejected\":"@ == seq![','] + json_quote("rejected"@) + seq![':'],
        ",\"rejected\":true"@ == ",\"rejected\":"@ + "true"@,
        ",\"reason\":"@ == seq![','] + json_quote("reason"@) + seq![':'],
        "}"@ == seq!['}'],
{
    let qi = json_quote("inviteId"@);
    let qp = json_quote("phase"@);
    let qm = json_quote("msg"@);
    let qr = json_quote("rejected"@);
    let qs = json_quote("reason"@);
    assert("{\"inviteId\":"@ == seq!['{'] + qi + seq![':']) by {
        reveal_strlit("inviteId");
        reveal_strlit("{\"inviteId\":");
        assert("{\"inviteId\":"@ =~= seq!['{', '"'] + "inviteId"@ + seq!['"', ':']);
        lemma_key_lead("{\"inviteId\":"@, '{', "inviteId"@);
    }
    assert(",\"phase\":"@ == seq![','] + qp + seq![':']) by {
        reveal_strlit("phase");
        reveal_strlit(",\"phase\":");
        assert(",\"phase\":"@ =~= seq![',', '"'] + "phase"@ + seq!['"', ':']);
        lemma_key_lead(",\"phase\":"@, ',', "phase"@);
    }
    assert(",\"msg\":"@ == seq![','] + qm + seq![':']) by {
        reveal_strlit("msg");
        reveal_strlit(",\"msg\":");
        assert(",\"msg\":"@ =~= seq![',', '"'] + "msg"@ + seq!['"', ':']);
        lemma_key_lead(",\"msg\":"@, ',', "msg"@);
    }
    assert(",\"rejected\":"@ == seq![','] + qr + seq![':'] && ",\"rejected\":true"@ == ",\"rejected\":"@ + "true"@) by {
        reveal_strlit("rejected");
        reveal_strlit("true");
        reveal_strlit(",\"rejected\":");
        reveal_strlit(",\"rejected\":true");
        assert(",\"rejected\":"@ =~= seq![',', '"'] + "rejected"@ + seq!['"', ':']);
        lemma_key_lead(",\"rejected\":"@, ',', "rejected"@);
        assert(",\"rejected\":true"@ =~= ",\"rejected\":"@ + "true"@);
    }
    assert(",\"reason\":"@ == seq![','] + qs + seq![':']) by {
        reveal_strlit("reason");
        reveal_strlit(",\"reason\":");
        assert(",\"reason\":"@ =~= seq![',', '"'] + "reason"@ + seq!['"', ':']);
        lemma_key_lead(",\"reason\":"@, ',', "reason"@);
    }
    assert("}"@ == seq!['}']) by {
        reveal_strlit("}");
    }
}

/// An envelope's JSON is the compact object of its members.
pub proof fn lemma_envelope_text(e: EnvelopeView)
    ensures
        envelope_json(e) == json_object_text(envelope_members(e)),
{
    lemma_envelope_literals();
    let a = ("inviteId"@, json_quote(e.invite_id));
    let b = ("phase"@, json_quote(e.phase));
    let c = ("msg"@, json_quote(e.msg));
    let d = ("rejected"@, "true"@);
    let f = ("reason"@, json_quote(e.reason));
    let m0 = seq![a, b];
    assert(seq![a].push(b) =~= m0);
    lemma_object_first(a, "{\"inviteId\":"@);
    lemma_object_push(seq![a], b, ",\"phase\":"@);
    let head = "{\"inviteId\":"@ + json_quote(e.invite_id) + ",\"phase\":"@ + json_quote(e.phase);
    assert(seq!['{'] + members_text(m0) == head);
    let m1 = if e.msg.len() > 0 { m0.push(c) } else { m0 };
    let pm: Seq<char> = if e.msg.len() > 0 { ",\"msg\":"@ + json_quote(e.msg) } else { seq![] };
    if e.msg.len() > 0 {
        lemma_object_push(m0, c, ",\"msg\":"@);
    } else {
        assert(head + pm =~= head);
    }
    assert(seq!['{'] + members_text(m1) =~= head + pm);
    let m2 = if e.rejected { m1.push(d) } else { m1 };
    let pr: Seq<char> = if e.rejected { ",\"rejected\":true"@ } else { seq![] };
    if e.rejected {
        lemma_object_push(m1, d, ",\"rejected\":"@);
    }
    assert(seq!['{'] + members_text(m2) =~= head + pm + pr);
    let m3 = if e.reason.len() > 0 { m2.push(f) } else { m2 };
    let ps: Seq<char> = if e.reason.len() > 0 { ",\"reason\":"@ + json_quote(e.reason) } else { seq![] };
    if e.reason.len() > 0 {
        lemma_object_push(m2, f, ",\"reason\":"@);
    }
    assert(seq!['{'] + members_text(m3) =~= head + pm + pr + ps);
    assert(m3 == envelope_members(e));
    assert(envelope_json(e) =~= json_object_text(m3));
}

/// The members of an envelope have distinct keys and scalar values; each
/// member the envelope writes is found under its key, a left-out one is absent.
pub proof fn lemma_envelope_lookup(e: EnvelopeView)
    ensures
        plain_members(envelope_members(e)),
        member_lookup(envelope_members(e), "inviteId"@) == Some(json_quote(e.invite_id)),
        member_lookup(envelope_members(e), "phase"@) == Some(json_quote(e.phase)),
        member_lookup(envelope_members(e), "msg"@) == (if e.msg.len() > 0 {
            Some(json_quote(e.msg))
        } else {
            None
        }),
        member_lookup(envelope_members(e), "rejected"@) == (if e.rejected {
            Some("true"@)
        } else {
            None
        }),
        member_lookup(envelope_members(e), "reason"@) == (if e.reason.len() > 0 {
            Some(json_quote(e.reason))
        } else {
            None
        }),
{
    reveal_strlit("inviteId");
    reveal_strlit("phase");
    reveal_strlit("msg");
    reveal_strlit("rejected");
    reveal_strlit("reason");
    reveal_strlit("true");
    let e0 = Seq::<(Seq<char>, Seq<char>)>::empty();
    let a = ("inviteId"@, json_quote(e.invite_id));
    let b = ("phase"@, json_quote(e.phase));
    let c = ("msg"@, json_quote(e.msg));
    let d = ("rejected"@, "true"@);
    let f = ("reason"@, json_quote(e.reason));
    let keys = seq!["inviteId"@, "phase"@, "msg"@, "rejected"@, "reason"@];
    let m0 = seq![a, b];
    assert(e0.push(a) =~= seq![a]);
    assert(seq![a].push(b) =~= m0);
    let m1 = if e.msg.len() > 0 { m0.push(c) } else { m0 };
    let m2 = if e.rejected { m1.push(d) } else { m1 };
    let m3 = if e.reason.len() > 0 { m2.push(f) } else { m2 };
    assert(plain_members(e0));
    assert forall|i: int| 0 <= i < 5 implies member_lookup(e0, #[trigger] keys[i]) is None by {}
    lemma_push_member(e0, a);
    lemma_push_member(seq![a], b);
    assert forall|i: int| 0 <= i < 5 implies #[trigger] member_lookup(m0, keys[i]) == member_lookup(
        seq![a, b],
        keys[i],
    ) by {}
    lemma_push_member(m0, c);
    lemma_push_member(m1, d);
    lemma_push_member(m2, f);
    assert("rejected"@[0] != "inviteId"@[0]);
    assert(member_lookup(m0, "inviteId"@) == Some(json_quote(e.invite_id)));
    assert(member_lookup(m0, "phase"@) == Some(json_quote(e.phase)));
    assert(member_lookup(m0, "msg"@) is None);
    assert(member_lookup(m0, "rejected"@) is None);
    assert(member_lookup(m0, "reason"@) is None);
    assert(member_lookup(m1, "rejected"@) is None);
    assert(member_lookup(m1, "reason"@) is None);
    assert(member_lookup(m2, "reason"@) is None);
    assert(m3 == envelope_members(e));
}

fn text_or_empty(o: Option<String>) -> (r: String)
    ensures
        r@ == match o {
            Some(s) => s@,
            None => Seq::<char>::empty(),
        },
{
    match o {
        Some(s) => s,
        None => String::new(),
    }
}

impl PairingEnvelope {
    /// The envelope as compact JSON, as sent on the pairing channel.
    pub fn to_json(&self) -> (r: String)
        ensures
            r@ == envelope_json(env_view(*self)),
    {
        proof {
            reveal_strlit("{\"inviteId\":");
            reveal_strlit(",\"phase\":");
            reveal_strlit(",\"msg\":");
            reveal_strlit(",\"rejected\":true");
            reveal_strlit(",\"reason\":");
            reveal_strlit("}");
        }
        let mut out = String::new();
        push_str(&mut out, "{\"inviteId\":");
        let q = json_string_literal(self.invite_id.as_str());
        push_str(&mut out, q.as_str());
        push_str(&mut out, ",\"phase\":");
        let q = json_string_literal(self.phase.as_str());
        push_str(&mut out, q.as_str());
        let ghost head = out@;
        if self.msg.unicode_len() > 0 {
            push_str(&mut out, ",\"msg\":");
            let q = json_string_literal(self.msg.as_str());
            push_str(&mut out, q.as_str());
        }
        let ghost with_msg = out@;
        if self.rejected {
            push_str(&mut out, ",\"rejected\":true");
        }
        let ghost with_rej = out@;
        if self.reason.unicode_len() > 0 {
            push_str(&mut out, ",\"reason\":");
            let q = json_string_literal(self.reason.as_str());
            push_str(&mut out, q.as_str());
        }
        let ghost with_reason = out@;
        push_str(&mut out, "}");
        proof {
            let e = env_view(*self);
            let m: Seq<char> = if e.msg.len() > 0 { ",\"msg\":"@ + json_quote(e.msg) } else { seq![] };
            let rj: Seq<char> = if e.rejected { ",\"rejected\":true"@ } else { seq![] };
            let rs: Seq<char> = if e.reason.len() > 0 { ",\"reason\":"@ + json_quote(e.reason) } else { seq![] };
            assert(with_msg =~= head + m);
            assert(with_rej =~= head + m + rj);
            assert(with_reason =~= head + m + rj + rs);
            assert(out@ =~= envelope_json(e));
        }
        out
    }

    /// Read an envelope from the JSON bytes of a request or response body.
    /// The JSON that [`PairingEnvelope::to_json`] writes reads back as the
    /// same envelope.
    pub fn from_json(bytes: &[u8]) -> (r: Option<PairingEnvelope>)
        ensures
            match r {
                Some(e) => envelope_from_json(bytes@) == Some(env_view(e)),
                None => envelope_from_json(bytes@) is None,
            },
            forall|e: EnvelopeView| bytes@ == encode_utf8(#[trigger] envelope_json(e)) ==> r is Some && env_view(r.unwrap()) == e,
    {
        let ms = match parse_json_members(bytes) {
            Some(ms) => ms,
            None => {
                proof {
                    assert forall|e: EnvelopeView| bytes@ == encode_utf8(#[trigger] envelope_json(e)) implies false by {
                        lemma_envelope_text(e);
                        lemma_envelope_lookup(e);
                    }
                }
                return None;
            },
        };
        let fields: Vec<&str> = vec!["inviteId", "phase", "msg", "rejected", "reason"];
        proof {
            assert(strs_view(fields@) =~= envelope_fields());
        }
        if repeated_field(bytes, &fields) {
            proof {
                assert forall|e: EnvelopeView| bytes@ == encode_utf8(#[trigger] envelope_json(e)) implies false by {
                    lemma_envelope_text(e);
                    lemma_envelope_lookup(e);
                }
            }
            return None;
        }
        let ghost msv = crate::codec::members_view(ms@);
        proof {
            assert forall|e: EnvelopeView| bytes@ == encode_utf8(#[trigger] envelope_json(e)) implies {
                &&& member_lookup(msv, "inviteId"@) == member_lookup(envelope_members(e), "inviteId"@)
                &&& member_lookup(msv, "phase"@) == member_lookup(envelope_members(e), "phase"@)
                &&& member_lookup(msv, "msg"@) == member_lookup(envelope_members(e), "msg"@)
                &&& member_lookup(msv, "rejected"@) == member_lookup(envelope_members(e), "rejected"@)
                &&& member_lookup(msv, "reason"@) == member_lookup(envelope_members(e), "reason"@)
            } by {
                lemma_envelope_text(e);
                lemma_envelope_lookup(e);
            }
        }
        let inv = get_member_str(&ms, "inviteId");
        let ph = get_member_str(&ms, "phase");
        let msg = get_member_str(&ms, "msg");
        let rejected = get_member_bool(&ms, "rejected");
        let reason = get_member_str(&ms, "reason");
        proof {
            reveal_strlit("true");
            assert forall|e: EnvelopeView| bytes@ == encode_utf8(#[trigger] envelope_json(e)) implies {
                &&& inv matches Ok(Some(x)) && x@ == e.invite_id
                &&& ph matches Ok(Some(x)) && x@ == e.phase
                &&& msg is Ok && (if e.msg.len() > 0 { msg->Ok_0 matches Some(x) && x@ == e.msg } else { msg->Ok_0 is None })
                &&& rejected == Ok::<Option<bool>, ()>(if e.rejected { Some(true) } else { None })
                &&& reason is Ok && (if e.reason.len() > 0 { reason->Ok_0 matches Some(x) && x@ == e.reason } else { reason->Ok_0 is None })
            } by {
                lemma_envelope_lookup(e);
                assert(member_lookup(msv, "inviteId"@) == Some(json_quote(e.invite_id)));
                assert(member_lookup(msv, "phase"@) == Some(json_quote(e.phase)));
                if e.msg.len() > 0 {
                    assert(member_lookup(msv, "msg"@) == Some(json_quote(e.msg)));
                }
                if e.reason.len() > 0 {
                    assert(member_lookup(msv, "reason"@) == Some(json_quote(e.reason)));
                }
            }
        }
        let invite_id = match inv {
            Ok(Some(s)) => s,
            _ => return None,
        };
        let phase = match ph {
            Ok(Some(s)) => s,
            _ => return None,
        };
        let msg = match msg {
            Ok(m) => m,
            Err(_) => return None,
        };
        let rejected = match rejected {
            Ok(b) => b,
            Err(_) => return None,
        };
        let reason = match reason {
            Ok(m) => m,
            Err(_) => return None,
        };
        let rej = match rejected {
            Some(b) => b,
            None => false,
        };
        let r = PairingEnvelope { invite_id, phase, msg: text_or_empty(msg), rejected: rej, reason: text_or_empty(reason) };
        proof {
            assert forall|e: EnvelopeView| bytes@ == encode_utf8(#[trigger] envelope_json(e)) implies env_view(r) == e by {
                if e.msg.len() == 0 {
                    assert(e.msg =~= Seq::<char>::empty());
                }
                if e.reason.len() == 0 {
                    assert(e.reason =~= Seq::<char>::empty());
                }
            }
        }
        Some(r)
    }
}

} // verus!
