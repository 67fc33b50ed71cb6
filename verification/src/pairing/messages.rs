//! EAP-NOOB wire messages (RFC 9140) and the base64url helpers for their
//! binary fields. `Type` selects the phase: 1 Discovery, 2 Negotiation,
//! 3 KeyExchange, 4 Waiting, 5 NoobID, 6 Completion.

use vstd::prelude::*;
use crate::codec::{b64url, b64url_decode, b64url_decoded, b64url_encode};
use crate::pairing::suite::{random_16, Jwk};

verus! {

/// EAP-NOOB message phase (the `Type` field).
#[derive(Debug, Clone, Copy, PartialEq, Eq, Structural)]
pub enum MsgType {
    Discovery,
    Negotiation,
    KeyExchange,
    Waiting,
    NoobId,
    Completion,
}

/// The `Type` number of a message phase.
pub open spec fn msg_type_num(t: MsgType) -> u8 {
    match t {
        MsgType::Discovery => 1,
        MsgType::Negotiation => 2,
        MsgType::KeyExchange => 3,
        MsgType::Waiting => 4,
        MsgType::NoobId => 5,
        MsgType::Completion => 6,
    }
}

impl MsgType {
    /// The phase with `Type` number `v` (1..=6).
    pub fn from_u8(v: u8) -> (r: Option<MsgType>)
        ensures
            match r {
                Some(t) => msg_type_num(t) == v,
                None => v < 1 || v > 6,
            },
    {
        match v {
            1 => Some(MsgType::Discovery),
            2 => Some(MsgType::Negotiation),
            3 => Some(MsgType::KeyExchange),
            4 => Some(MsgType::Waiting),
            5 => Some(MsgType::NoobId),
            6 => Some(MsgType::Completion),
            _ => None,
        }
    }

    /// The `Type` number of this phase.
    pub fn to_u8(self) -> (r: u8)
        ensures
            r == msg_type_num(self),
    {
        match self {
            MsgType::Discovery => 1,
            MsgType::Negotiation => 2,
            MsgType::KeyExchange => 3,
            MsgType::Waiting => 4,
            MsgType::NoobId => 5,
            MsgType::Completion => 6,
        }
    }
}

/// Reading back the number of a phase gives the phase.
pub proof fn lemma_msg_type_roundtrip(t: MsgType, u: MsgType)
    ensures
        msg_type_num(t) == msg_type_num(u) ==> t == u,
        1 <= msg_type_num(t) <= 6,
{
}

/// A single EAP-NOOB exchange message. Fields are optional because each `Type`
/// carries a different subset (RFC 9140 section 3.3).
#[derive(Debug, Clone)]
pub struct WireMessage {
    pub type_: u8,
    pub peer_id: Option<String>,
    pub vers: Option<Vec<u32>>,
    pub verp: Option<u32>,
    pub cryptosuites: Option<Vec<u8>>,
    pub cryptosuitep: Option<u8>,
    pub dirs: Option<u8>,
    pub dirp: Option<u8>,
    pub nai: Option<String>,
    pub pks: Option<Jwk>,
    pub pkp: Option<Jwk>,
    /// Server nonce (base64url).
    pub ns: Option<String>,
    /// Peer nonce (base64url).
    pub np: Option<String>,
    pub noob_id: Option<String>,
    pub macs: Option<String>,
    pub macp: Option<String>,
}

impl Default for WireMessage {
    fn default() -> (m: Self)
        ensures
            m.type_ == 0 && m.peer_id is None && m.vers is None && m.verp is None
                && m.cryptosuites is None && m.cryptosuitep is None && m.dirs is None
                && m.dirp is None && m.nai is None && m.pks is None && m.pkp is None
                && m.ns is None && m.np is None && m.noob_id is None && m.macs is None
                && m.macp is None,
    {
        WireMessage {
            type_: 0,
            peer_id: None,
            vers: None,
            verp: None,
            cryptosuites: None,
            cryptosuitep: None,
            dirs: None,
            dirp: None,
            nai: None,
            pks: None,
            pkp: None,
            ns: None,
            np: None,
            noob_id: None,
            macs: None,
            macp: None,
        }
    }
}

/// Text that is not valid unpadded base64url.
#[derive(Debug, Clone, Copy, PartialEq, Eq, Structural)]
pub struct B64Error;

/// base64url (no padding) encode.
pub fn b64u(bytes: &[u8]) -> (s: String)
    ensures
        s@ == b64url(bytes@),
        b64url_decoded(s@) == Some(bytes@),
{
    b64url_encode(bytes)
}

/// base64url (no padding) decode.
pub fn unb64u(s: &str) -> (r: Result<Vec<u8>, B64Error>)
    ensures
        match r {
            Ok(v) => b64url_decoded(s@) == Some(v@),
            Err(_) => b64url_decoded(s@) is None,
        },
{
    match b64url_decode(s) {
        Some(v) => Ok(v),
        None => Err(B64Error),
    }
}

/// A 16-byte random nonce and its base64url encoding.
pub fn fresh_nonce() -> (r: (String, Vec<u8>))
    ensures
        r.1@.len() == 16,
        r.0@ == b64url(r.1@),
        b64url_decoded(r.0@) == Some(r.1@),
{
    let n = random_16();
    let v = vstd::slice::slice_to_vec(&n);
    let s = b64u(v.as_slice());
    (s, v)
}

} // verus!
