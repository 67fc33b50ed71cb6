//! The per-request routing decision of the live proxy: read the requested
//! model, build the candidate set from the routing table, select a target,
//! and say whether to serve locally or wrap the request for a peer's
//! `/ingress`; and the decisions of the `/ingress` receiver.

use vstd::prelude::*;
use vstd::utf8::encode_utf8;
use crate::proto::endpoints;
use crate::proxy::ingress::{ingress_from_json, ingress_view, IngressEnvelope, IngressView};
use crate::proxy::model::{extract_model, spec_extract_model};
use crate::proxy::router::{chosen, eligible, select, Candidate};
use crate::proxy::routing::{candidates_ok, RoutingTable};
use crate::text::{push_str, str_eq};

verus! {

/// What `String::from_utf8_lossy` makes of `bytes`.
pub uninterp spec fn utf8_lossy(bytes: Seq<u8>) -> Seq<char>;

/// `String::from_utf8_lossy(bytes).into_owned()`. Claims: the text is the one
/// named `utf8_lossy(bytes)`, and valid UTF-8 decodes to the text it encodes
/// (as the standard library documents).
#[verifier::external_body]
pub(crate) fn lossy_text(bytes: &[u8]) -> (r: String)
    ensures
        r@ == utf8_lossy(bytes@),
        forall|s: Seq<char>| encode_utf8(s) == bytes@ ==> r@ == s,
{
    String::from_utf8_lossy(bytes).into_owned()
}

/// Where a request goes.
#[derive(Debug)]
pub enum RoutePlan {
    /// Serve it with the local engine.
    Local,
    /// Wrap it in this envelope for the peer's `/ingress` at `host:port`.
    Peer { host: String, port: u16, envelope: IngressEnvelope },
    /// No node can serve the model.
    NoTarget,
}

/// The plan for routing to candidate `c`: locally for this node, else the
/// request's path, body text and model wrapped for the peer's address.
pub open spec fn plan_for(c: Candidate, path: Seq<char>, body: Seq<u8>, model: Option<Seq<char>>, r: RoutePlan) -> bool {
    if c.is_self {
        r is Local
    } else {
        &&& r matches RoutePlan::Peer { host, port, envelope }
        &&& host@ == match c.host {
            Some(h) => h@,
            None => Seq::<char>::empty(),
        }
        &&& port == match c.ingress_port {
            Some(p) => p,
            None => 0u16,
        }
        &&& ingress_view(envelope) == IngressView {
            host: None,
            port: None,
            path: Some(path),
            method: None,
            name: model,
            data: Some(utf8_lossy(body)),
            txt: None,
            code: None,
        }
    }
}

/// The plan `r` for a request with `body` for `path`: the one selection
/// makes among the candidates for its model (this node first, then the
/// peers); no target when none is eligible.
pub open spec fn route_planned(table: RoutingTable, body: Seq<u8>, path: Seq<char>, backend: Seq<char>, r: RoutePlan) -> bool {
    exists|cs: Seq<Candidate>| {
        &&& #[trigger] candidates_ok(table, spec_extract_model(body), backend, cs)
        &&& match r {
            RoutePlan::NoTarget => forall|i: int| 0 <= i < cs.len() ==> !eligible(#[trigger] cs[i]),
            _ => exists|i: int| chosen(cs, i) && #[trigger] plan_for(cs[i], path, body, spec_extract_model(body), r),
        }
    }
}

/// A request goes to a peer only when it names a model that a known, pinned
/// peer advertises, at that peer's address; it is served locally only when
/// this node serves the model it names (or it names none).
pub proof fn lemma_route_targets_serve_the_model(
    table: RoutingTable,
    body: Seq<u8>,
    path: Seq<char>,
    backend: Seq<char>,
    r: RoutePlan,
)
    requires
        route_planned(table, body, path, backend, r),
    ensures
        r matches RoutePlan::Peer { host, port, envelope } ==> {
            &&& spec_extract_model(body) is Some
            &&& exists|k: Seq<char>| {
                &&& #[trigger] table.peers().dom().contains(k)
                &&& table.peers()[k].pinned
                &&& table.peers()[k].models.contains(spec_extract_model(body).unwrap())
                &&& table.peers()[k].host == host@
                &&& table.peers()[k].ingress_port == port
            }
        },
        r is Local ==> match spec_extract_model(body) {
            Some(m) => table.local_models().contains(m),
            None => true,
        },
{
    let me = spec_extract_model(body);
    let cs = choose|cs: Seq<Candidate>| {
        &&& #[trigger] candidates_ok(table, me, backend, cs)
        &&& match r {
            RoutePlan::NoTarget => forall|i: int| 0 <= i < cs.len() ==> !eligible(#[trigger] cs[i]),
            _ => exists|i: int| chosen(cs, i) && #[trigger] plan_for(cs[i], path, body, me, r),
        }
    };
    if !(r is NoTarget) {
        let i = choose|i: int| chosen(cs, i) && #[trigger] plan_for(cs[i], path, body, me, r);
        if i == 0 {
            assert(cs[0].is_self);
        } else {
            assert(!cs[i].is_self);
            assert(table.peers().dom().contains(cs[i].node_id@));
        }
    }
}

/// Decide where a request with `body` for `path` goes: the candidates for
/// its model (this node first, then the peers), then selection.
pub fn plan_route(table: &RoutingTable, body: &[u8], path: &str, backend: &str) -> (r: RoutePlan)
    requires
        table.wf(),
    ensures
        route_planned(*table, body@, path@, backend@, r),
{
    let model = extract_model(body);
    let ghost mv = match &model {
        Some(m) => Some(m@),
        None => None::<Seq<char>>,
    };
    let cands = match &model {
        Some(m) => table.candidates_for(Some(m.as_str()), backend),
        None => table.candidates_for(None, backend),
    };
    let ghost cs = cands@;
    let ghost me = spec_extract_model(body@);
    match select(cands.as_slice()) {
        None => {
            let r = RoutePlan::NoTarget;
            proof {
                assert(candidates_ok(*table, me, backend@, cs));
            }
            r
        },
        Some(c) => {
            let ghost wi = choose|i: int| chosen(cs, i) && cs[i] == *c;
            if c.is_self {
                let r = RoutePlan::Local;
                proof {
                    assert(candidates_ok(*table, me, backend@, cs));
                    assert(chosen(cs, wi) && plan_for(cs[wi], path@, body@, me, r));
                }
                r
            } else {
                let host = match &c.host {
                    Some(h) => copy(h.as_str()),
                    None => String::new(),
                };
                let port = match c.ingress_port {
                    Some(p) => p,
                    None => 0,
                };
                let mut env = IngressEnvelope::default();
                env.path = Some(copy(path));
                env.data = Some(lossy_text(body));
                env.name = match &model {
                    Some(m) => Some(copy(m.as_str())),
                    None => None,
                };
                let r = RoutePlan::Peer { host, port, envelope: env };
                proof {
                    assert(candidates_ok(*table, me, backend@, cs));
                    assert(chosen(cs, wi) && plan_for(cs[wi], path@, body@, me, r));
                }
                r
            }
        },
    }
}

fn copy(s: &str) -> (r: String)
    ensures
        r@ == s@,
{
    let mut r = String::new();
    push_str(&mut r, s);
    r
}

/// The status and body to answer with from a peer's `/ingress` response:
/// its code (502 when absent) and its data (empty when absent).
pub fn peer_reply(resp: &IngressEnvelope) -> (r: (u16, Vec<u8>))
    ensures
        r.0 == match resp.code {
            Some(c) => c,
            None => 502u16,
        },
        r.1@ == match resp.data {
            Some(d) => encode_utf8(d@),
            None => Seq::<u8>::empty(),
        },
{
    let code = match resp.code {
        Some(c) => c,
        None => 502,
    };
    let data = match &resp.data {
        Some(d) => vstd::slice::slice_to_vec(d.as_str().as_bytes()),
        None => Vec::new(),
    };
    (code, data)
}

/// What the `/ingress` receiver does with a request.
#[derive(Debug)]
pub enum IngressAction {
    /// The path is not `/ingress`: 404.
    NotFound,
    /// The body is not an envelope: 400.
    BadRequest,
    /// Send `method path` with `data` to the local engine.
    Forward { method: String, path: String, data: Vec<u8> },
}

/// Decide what to do with an `/ingress` request: the wrapped method (POST by
/// default), path (`/` by default) and body (empty by default).
pub fn ingress_action(path: &str, body: &[u8]) -> (r: IngressAction)
    ensures
        if path@ != "/ingress"@ {
            r is NotFound
        } else {
            match ingress_from_json(body@) {
                None => r is BadRequest,
                Some(e) => r matches IngressAction::Forward { method, path: p, data } && method@ == match e.method {
                    Some(m) => m,
                    None => "POST"@,
                } && p@ == match e.path {
                    Some(q) => q,
                    None => "/"@,
                } && data@ == match e.data {
                    Some(d) => encode_utf8(d),
                    None => Seq::<u8>::empty(),
                },
            }
        },
{
    proof {
        reveal_strlit("/ingress");
        assert(endpoints::INGRESS@ == "/ingress"@);
    }
    if !str_eq(path, endpoints::INGRESS) {
        return IngressAction::NotFound;
    }
    let env = match IngressEnvelope::from_json(body) {
        Some(e) => e,
        None => return IngressAction::BadRequest,
    };
    let method = match &env.method {
        Some(m) => copy(m.as_str()),
        None => String::from_str("POST"),
    };
    let p = match &env.path {
        Some(q) => copy(q.as_str()),
        None => String::from_str("/"),
    };
    let data = match &env.data {
        Some(d) => vstd::slice::slice_to_vec(d.as_str().as_bytes()),
        None => Vec::new(),
    };
    IngressAction::Forward { method, path: p, data }
}

/// The `/ingress` reply for the local engine's answer.
pub fn ingress_ok_reply(code: u16, body: &[u8]) -> (r: IngressEnvelope)
    ensures
        ingress_view(r) == (IngressView {
            host: None,
            port: None,
            path: None,
            method: None,
            name: None,
            data: Some(utf8_lossy(body@)),
            txt: Some("ok"@),
            code: Some(code),
        }),
{
    let mut e = IngressEnvelope::default();
    e.code = Some(code);
    e.data = Some(lossy_text(body));
    e.txt = Some(String::from_str("ok"));
    e
}

/// The `/ingress` reply when the local engine could not be reached.
pub fn ingress_err_reply(msg: &str) -> (r: IngressEnvelope)
    ensures
        ingress_view(r) == (IngressView {
            host: None,
            port: None,
            path: None,
            method: None,
            name: None,
            data: None,
            txt: Some(msg@),
            code: Some(502),
        }),
{
    let mut e = IngressEnvelope::default();
    e.code = Some(502);
    e.txt = Some(copy(msg));
    e
}

} // verus!
