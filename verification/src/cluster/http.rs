//! The decisions of the plain-HTTP pairing channel: what a server answers a
//! request, and what a client makes of a response. The pairing channel is
//! unauthenticated by design; the EAP-NOOB MACs authenticate the exchange.

use vstd::prelude::*;
use crate::cluster::wire::{env_view, envelope_from_json, EnvelopeView, PairingEnvelope, PAIRING_PATH};
use crate::proxy::live::{lossy_text, utf8_lossy};
use crate::text::str_eq;

verus! {

/// What the pairing server does with a request.
#[derive(Debug)]
pub enum PairingRequest {
    /// Hand the envelope to the pairing node.
    Handle(PairingEnvelope),
    /// Answer with this status and plain-text message.
    Refuse(u16, String),
}

/// The server's answer to a request: 404 off the pairing path, 405 for a
/// method other than POST, 400 for a body that is not an envelope.
pub open spec fn spec_pairing_request(path: Seq<char>, method: Seq<char>, body: Seq<u8>) -> Result<
    EnvelopeView,
    (u16, Seq<char>),
> {
    if path != "/v1/cluster/pairing"@ {
        Err((404u16, "not found"@))
    } else if method != "POST"@ {
        Err((405u16, "method not allowed"@))
    } else {
        match envelope_from_json(body) {
            Some(e) => Ok(e),
            None => Err((400u16, "bad request"@)),
        }
    }
}

/// Decide what the pairing server does with a request.
pub fn pairing_request(path: &str, method: &str, body: &[u8]) -> (r: PairingRequest)
    ensures
        match r {
            PairingRequest::Handle(e) => spec_pairing_request(path@, method@, body@) == Ok::<
                EnvelopeView,
                (u16, Seq<char>),
            >(env_view(e)),
            PairingRequest::Refuse(code, msg) => spec_pairing_request(path@, method@, body@) == Err::<
                EnvelopeView,
                (u16, Seq<char>),
            >((code, msg@)),
        },
{
    proof {
        reveal_strlit("/v1/cluster/pairing");
    }
    if !str_eq(path, PAIRING_PATH) {
        return PairingRequest::Refuse(404, String::from_str("not found"));
    }
    if !str_eq(method, "POST") {
        return PairingRequest::Refuse(405, String::from_str("method not allowed"));
    }
    match PairingEnvelope::from_json(body) {
        Some(e) => PairingRequest::Handle(e),
        None => PairingRequest::Refuse(400, String::from_str("bad request")),
    }
}

/// A pairing POST that did not yield an envelope.
#[derive(Debug)]
pub enum PostError {
    /// A status other than success (or a 409 without a `rejected` envelope),
    /// with the body as text.
    Status(u16, String),
    /// A success whose body is not an envelope.
    Decode,
}

/// The envelope a client takes from a response: a 409 carrying a `rejected`
/// envelope is that explicit refusal; any other 409 or non-2xx status is an
/// error with the body's text; a 2xx must carry an envelope.
pub open spec fn spec_pairing_response(status: u16, body: Seq<u8>) -> Result<EnvelopeView, Option<(u16, Seq<char>)>> {
    if status == 409 {
        match envelope_from_json(body) {
            Some(e) => if e.rejected {
                Ok(e)
            } else {
                Err(Some((409u16, utf8_lossy(body))))
            },
            None => Err(Some((409u16, utf8_lossy(body)))),
        }
    } else if !(200 <= status && status < 300) {
        Err(Some((status, utf8_lossy(body))))
    } else {
        match envelope_from_json(body) {
            Some(e) => Ok(e),
            None => Err(None),
        }
    }
}

/// What a pairing client makes of a response's status and body.
pub fn pairing_response(status: u16, body: &[u8]) -> (r: Result<PairingEnvelope, PostError>)
    ensures
        match r {
            Ok(e) => spec_pairing_response(status, body@) == Ok::<EnvelopeView, Option<(u16, Seq<char>)>>(
                env_view(e),
            ),
            Err(PostError::Status(code, text)) => spec_pairing_response(status, body@) == Err::<
                EnvelopeView,
                Option<(u16, Seq<char>)>,
            >(Some((code, text@))),
            Err(PostError::Decode) => spec_pairing_response(status, body@) == Err::<
                EnvelopeView,
                Option<(u16, Seq<char>)>,
            >(None),
        },
{
    if status == 409 {
        match PairingEnvelope::from_json(body) {
            Some(e) => if e.rejected {
                return Ok(e);
            },
            None => {},
        }
        return Err(PostError::Status(409, lossy_text(body)));
    }
    if !(200 <= status && status < 300) {
        return Err(PostError::Status(status, lossy_text(body)));
    }
    match PairingEnvelope::from_json(body) {
        Some(e) => Ok(e),
        None => Err(PostError::Decode),
    }
}

} // verus!
