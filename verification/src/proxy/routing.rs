//! Shared routing table: what this node and its peers can serve, consulted
//! per request to build the candidate set.

use vstd::prelude::*;
use crate::keyed::Keyed;
use crate::proxy::router::Candidate;
use crate::text::{nat_str, push_char, push_str, str_eq, u64_to_string};

verus! {

/// A known peer and what it can serve.
#[derive(Debug, Clone)]
pub struct PeerEntry {
    pub node_id: String,
    pub host: String,
    /// Peer's mutual-TLS `/ingress` port.
    pub ingress_port: u16,
    /// The models it serves (each once).
    pub models: Vec<String>,
    /// True once the peer's certificate is pinned (required to route to it).
    pub pinned: bool,
    pub priority_rank: Option<u32>,
    /// Manually selected target (overrides priority).
    pub manually_selected: bool,
}

/// The set of texts in a list of strings.
pub open spec fn text_set(v: Seq<String>) -> Set<Seq<char>> {
    Set::new(|t: Seq<char>| exists|i: int| 0 <= i < v.len() && (#[trigger] v[i])@ == t)
}

/// The content of a peer entry.
pub struct PeerView {
    pub node_id: Seq<char>,
    pub host: Seq<char>,
    pub ingress_port: u16,
    pub models: Set<Seq<char>>,
    pub pinned: bool,
    pub priority_rank: Option<u32>,
    pub manually_selected: bool,
}

/// The content of a peer entry value.
pub open spec fn peer_view(p: PeerEntry) -> PeerView {
    PeerView {
        node_id: p.node_id@,
        host: p.host@,
        ingress_port: p.ingress_port,
        models: text_set(p.models@),
        pinned: p.pinned,
        priority_rank: p.priority_rank,
        manually_selected: p.manually_selected,
    }
}

/// The views of a map of peer entries.
pub open spec fn peer_views(m: Map<Seq<char>, PeerEntry>) -> Map<Seq<char>, PeerView> {
    m.map_values(|p: PeerEntry| peer_view(p))
}

/// Models this node and its peers can serve.
#[derive(Debug)]
pub struct RoutingTable {
    local_models: Vec<String>,
    peers: Keyed<PeerEntry>,
    local_id: String,
}

/// The candidate for this node: eligible when it serves the model (or no
/// model was named).
pub open spec fn self_candidate(c: Candidate, local_id: Seq<char>, backend: Seq<char>, serves: bool) -> bool {
    &&& c.node_id@ == local_id
    &&& c.base_url@ == "http://"@ + backend
    &&& c.advertises_model == serves
    &&& c.is_self && !c.pinned && c.priority_rank is None && !c.manually_selected
    &&& c.host is None && c.ingress_port is None
}

/// The candidate for peer `p` for model `m`.
pub open spec fn peer_candidate(c: Candidate, p: PeerView, m: Seq<char>) -> bool {
    &&& c.node_id@ == p.node_id
    &&& c.base_url@ == "https://"@ + p.host + seq![':'] + nat_str(p.ingress_port as nat)
    &&& c.advertises_model == p.models.contains(m)
    &&& !c.is_self
    &&& c.pinned == p.pinned
    &&& c.priority_rank == p.priority_rank
    &&& c.manually_selected == p.manually_selected
    &&& c.host is Some && c.host.unwrap()@ == p.host
    &&& c.ingress_port == Some(p.ingress_port)
}

fn copy_str(s: &str) -> (r: String)
    ensures
        r@ == s@,
{
    let mut r = String::new();
    push_str(&mut r, s);
    r
}

fn contains_text(v: &Vec<String>, t: &str) -> (r: bool)
    ensures
        r == text_set(v@).contains(t@),
{
    let mut i: usize = 0;
    while i < v.len()
        invariant
            i <= v@.len(),
            forall|j: int| 0 <= j < i ==> (#[trigger] v@[j])@ != t@,
        decreases v@.len() - i,
    {
        if str_eq(v[i].as_str(), t) {
            return true;
        }
        i = i + 1;
    }
    false
}

impl RoutingTable {
    /// The models this node serves.
    pub closed spec fn local_models(&self) -> Set<Seq<char>> {
        text_set(self.local_models@)
    }

    /// The known peers, by node id.
    pub closed spec fn peers(&self) -> Map<Seq<char>, PeerView> {
        peer_views(self.peers.view())
    }

    /// This node's id.
    pub closed spec fn local_id(&self) -> Seq<char> {
        self.local_id@
    }

    /// The table's invariant: one entry per peer, keyed by its node id.
    pub closed spec fn wf(&self) -> bool {
        &&& self.peers.wf()
        &&& forall|k: Seq<char>| #[trigger] self.peers.view().dom().contains(k) ==> self.peers.view()[k].node_id@ == k
    }

    /// An empty table for node `local_id`.
    pub fn new(local_id: &str) -> (t: RoutingTable)
        ensures
            t.wf(),
            t.local_id() == local_id@,
            t.local_models() == Set::<Seq<char>>::empty(),
            t.peers() == Map::<Seq<char>, PeerView>::empty(),
    {
        let t = RoutingTable { local_models: Vec::new(), peers: Keyed::new(), local_id: copy_str(local_id) };
        proof {
            assert(t.local_models() =~= Set::<Seq<char>>::empty());
            assert(t.peers() =~= Map::<Seq<char>, PeerView>::empty());
        }
        t
    }

    /// Replace the models this node serves.
    pub fn set_local_models(&mut self, models: Vec<String>)
        requires
            old(self).wf(),
        ensures
            final(self).wf(),
            final(self).local_models() == text_set(models@),
            final(self).peers() == old(self).peers(),
            final(self).local_id() == old(self).local_id(),
    {
        self.local_models = models;
    }

    /// Insert or replace a peer.
    pub fn upsert_peer(&mut self, peer: PeerEntry)
        requires
            old(self).wf(),
        ensures
            final(self).wf(),
            final(self).peers() == old(self).peers().insert(peer.node_id@, peer_view(peer)),
            final(self).local_models() == old(self).local_models(),
            final(self).local_id() == old(self).local_id(),
    {
        let ghost pm = self.peers.view();
        let ghost pv = peer_view(peer);
        let ghost key = peer.node_id@;
        let k = copy_str(peer.node_id.as_str());
        self.peers.insert(k, peer);
        proof {
            assert(peer_views(self.peers.view()) =~= peer_views(pm).insert(key, pv));
        }
    }

    /// Forget a peer.
    pub fn remove_peer(&mut self, node_id: &str)
        requires
            old(self).wf(),
        ensures
            final(self).wf(),
            final(self).peers() == old(self).peers().remove(node_id@),
            final(self).local_models() == old(self).local_models(),
            final(self).local_id() == old(self).local_id(),
    {
        let ghost pm = self.peers.view();
        let _ = self.peers.remove(node_id);
        proof {
            assert(peer_views(self.peers.view()) =~= peer_views(pm).remove(node_id@));
        }
    }

    /// Insert or update a peer's address and pin state without disturbing the
    /// models, rank and selection already known for it.
    pub fn upsert_peer_meta(&mut self, node_id: &str, host: String, ingress_port: u16, pinned: bool)
        requires
            old(self).wf(),
        ensures
            final(self).wf(),
            final(self).peers() == old(self).peers().insert(
                node_id@,
                if old(self).peers().dom().contains(node_id@) {
                    PeerView { host: host@, ingress_port, pinned, ..old(self).peers()[node_id@] }
                } else {
                    PeerView {
                        node_id: node_id@,
                        host: host@,
                        ingress_port,
                        models: Set::empty(),
                        pinned,
                        priority_rank: None,
                        manually_selected: false,
                    }
                },
            ),
            final(self).local_models() == old(self).local_models(),
            final(self).local_id() == old(self).local_id(),
    {
        let ghost pm = self.peers.view();
        let entry = match self.peers.remove(node_id) {
            Some(p) => PeerEntry {
                node_id: p.node_id,
                host,
                ingress_port,
                models: p.models,
                pinned,
                priority_rank: p.priority_rank,
                manually_selected: p.manually_selected,
            },
            None => PeerEntry {
                node_id: copy_str(node_id),
                host,
                ingress_port,
                models: Vec::new(),
                pinned,
                priority_rank: None,
                manually_selected: false,
            },
        };
        let ghost pv = peer_view(entry);
        self.peers.insert(copy_str(node_id), entry);
        proof {
            assert(text_set(Seq::<String>::empty()) =~= Set::<Seq<char>>::empty());
            assert(peer_views(self.peers.view()) =~= peer_views(pm).insert(node_id@, pv));
        }
    }

    /// Replace the models known for a peer (no effect for an unknown peer).
    pub fn set_peer_models(&mut self, node_id: &str, models: Vec<String>)
        requires
            old(self).wf(),
        ensures
            final(self).wf(),
            final(self).peers() == if old(self).peers().dom().contains(node_id@) {
                old(self).peers().insert(node_id@, PeerView { models: text_set(models@), ..old(self).peers()[node_id@] })
            } else {
                old(self).peers()
            },
            final(self).local_models() == old(self).local_models(),
            final(self).local_id() == old(self).local_id(),
    {
        let ghost pm = self.peers.view();
        match self.peers.remove(node_id) {
            Some(p) => {
                let entry = PeerEntry {
                    node_id: p.node_id,
                    host: p.host,
                    ingress_port: p.ingress_port,
                    models,
                    pinned: p.pinned,
                    priority_rank: p.priority_rank,
                    manually_selected: p.manually_selected,
                };
                let ghost pv = peer_view(entry);
                self.peers.insert(copy_str(node_id), entry);
                proof {
                    assert(peer_views(self.peers.view()) =~= peer_views(pm).insert(node_id@, pv));
                }
            },
            None => {
                proof {
                    assert(peer_views(self.peers.view()) =~= peer_views(pm));
                }
            },
        }
    }

    /// Set a peer's scheduler priority rank (no effect for an unknown peer).
    pub fn set_peer_priority(&mut self, node_id: &str, rank: Option<u32>)
        requires
            old(self).wf(),
        ensures
            final(self).wf(),
            final(self).peers() == if old(self).peers().dom().contains(node_id@) {
                old(self).peers().insert(node_id@, PeerView { priority_rank: rank, ..old(self).peers()[node_id@] })
            } else {
                old(self).peers()
            },
            final(self).local_models() == old(self).local_models(),
            final(self).local_id() == old(self).local_id(),
    {
        let ghost pm = self.peers.view();
        match self.peers.remove(node_id) {
            Some(p) => {
                let entry = PeerEntry {
                    node_id: p.node_id,
                    host: p.host,
                    ingress_port: p.ingress_port,
                    models: p.models,
                    pinned: p.pinned,
                    priority_rank: rank,
                    manually_selected: p.manually_selected,
                };
                let ghost pv = peer_view(entry);
                self.peers.insert(copy_str(node_id), entry);
                proof {
                    assert(peer_views(self.peers.view()) =~= peer_views(pm).insert(node_id@, pv));
                }
            },
            None => {
                proof {
                    assert(peer_views(self.peers.view()) =~= peer_views(pm));
                }
            },
        }
    }

    /// The number of known peers.
    pub fn peer_count(&self) -> (n: usize)
        requires
            self.wf(),
        ensures
            n == self.peers().len(),
    {
        let n = self.peers.len();
        proof {
            assert(self.peers().dom() =~= self.peers.view().dom());
        }
        n
    }

    /// The models this node serves, as a list.
    pub fn local_model_names(&self) -> (r: Vec<String>)
        ensures
            text_set(r@) == self.local_models(),
    {
        let mut out: Vec<String> = Vec::new();
        let mut i: usize = 0;
        while i < self.local_models.len()
            invariant
                i <= self.local_models@.len(),
                out@.len() == i,
                forall|j: int| 0 <= j < i ==> (#[trigger] out@[j])@ == self.local_models@[j]@,
            decreases self.local_models@.len() - i,
        {
            out.push(copy_str(self.local_models[i].as_str()));
            i = i + 1;
        }
        proof {
            assert forall|t: Seq<char>| text_set(out@).contains(t) <==> self.local_models().contains(t) by {
                if text_set(out@).contains(t) {
                    let j = choose|j: int| 0 <= j < out@.len() && (#[trigger] out@[j])@ == t;
                    assert(self.local_models@[j]@ == t);
                }
                if self.local_models().contains(t) {
                    let j = choose|j: int| 0 <= j < self.local_models@.len() && (#[trigger] self.local_models@[j])@ == t;
                    assert(out@[j]@ == t);
                }
            }
            assert(text_set(out@) =~= self.local_models());
        }
        out
    }

    /// (node id, host, ingress port) of every pinned peer, each once.
    pub fn pinned_peers(&self) -> (r: Vec<(String, String, u16)>)
        requires
            self.wf(),
        ensures
            forall|i: int| 0 <= i < r@.len() ==> {
                let k = (#[trigger] r@[i]).0@;
                &&& self.peers().dom().contains(k)
                &&& self.peers()[k].pinned
                &&& r@[i].1@ == self.peers()[k].host
                &&& r@[i].2 == self.peers()[k].ingress_port
            },
            forall|k: Seq<char>| #[trigger] self.peers().dom().contains(k) && self.peers()[k].pinned ==> exists|i: int|
                0 <= i < r@.len() && r@[i].0@ == k,
            forall|i: int, j: int| 0 <= i < r@.len() && 0 <= j < r@.len() && i != j ==> r@[i].0@ != r@[j].0@,
    {
        let n = self.peers.len();
        let mut out: Vec<(String, String, u16)> = Vec::new();
        let mut i: usize = 0;
        while i < n
            invariant
                self.wf(),
                n == self.peers.view().len(),
                i <= n,
                forall|j: int| 0 <= j < out@.len() ==> {
                    let k = (#[trigger] out@[j]).0@;
                    &&& self.peers.view().dom().contains(k)
                    &&& self.peers.view()[k].pinned
                    &&& out@[j].1@ == self.peers.view()[k].host@
                    &&& out@[j].2 == self.peers.view()[k].ingress_port
                },
                forall|j: int| 0 <= j < out@.len() ==> exists|a: int| 0 <= a < i && #[trigger] out@[j].0@ == self.peers.key_at(a),
                forall|a: int| 0 <= a < i && self.peers.view()[#[trigger] self.peers.key_at(a)].pinned ==> exists|j: int|
                    0 <= j < out@.len() && out@[j].0@ == self.peers.key_at(a),
                forall|a: int, b: int| 0 <= a < out@.len() && 0 <= b < out@.len() && a != b ==> (#[trigger] out@[a]).0@ != (#[trigger] out@[b]).0@,
            decreases n - i,
        {
            proof {
                self.peers.lemma_keys();
            }
            let p = self.peers.value_at(i);
            if p.pinned {
                let ghost k = self.peers.key_at(i as int);
                proof {
                    assert(p.node_id@ == k);
                    assert forall|j: int| 0 <= j < out@.len() implies (#[trigger] out@[j]).0@ != k by {
                        let a = choose|a: int| 0 <= a < i && out@[j].0@ == self.peers.key_at(a);
                        assert(self.peers.key_at(a) != self.peers.key_at(i as int));
                    }
                }
                let ghost before = out@;
                out.push((copy_str(p.node_id.as_str()), copy_str(p.host.as_str()), p.ingress_port));
                proof {
                    let last = out@.len() - 1;
                    assert(out@[last].0@ == self.peers.key_at(i as int));
                    assert forall|a: int| 0 <= a < i + 1 && self.peers.view()[#[trigger] self.peers.key_at(a)].pinned implies exists|j: int|
                        0 <= j < out@.len() && out@[j].0@ == self.peers.key_at(a) by {
                        if a < i {
                            let j = choose|j: int| 0 <= j < before.len() && before[j].0@ == self.peers.key_at(a);
                            assert(out@[j] == before[j]);
                        } else {
                            assert(out@[last].0@ == self.peers.key_at(a));
                        }
                    }
                    assert forall|j: int| 0 <= j < out@.len() implies exists|a: int| 0 <= a < i + 1 && #[trigger] out@[j].0@ == self.peers.key_at(a) by {
                        if j < last {
                            assert(out@[j] == before[j]);
                            let a = choose|a: int| 0 <= a < i && before[j].0@ == self.peers.key_at(a);
                            assert(out@[j].0@ == self.peers.key_at(a));
                        } else {
                            assert(out@[j].0@ == self.peers.key_at(i as int));
                        }
                    }
                }
            } else {
                proof {
                    assert(!self.peers.view()[self.peers.key_at(i as int)].pinned);
                }
            }
            i = i + 1;
        }
        proof {
            self.peers.lemma_keys();
            assert(self.peers().dom() =~= self.peers.view().dom());
            assert forall|k: Seq<char>| #[trigger] self.peers().dom().contains(k) && self.peers()[k].pinned implies exists|j: int|
                0 <= j < out@.len() && out@[j].0@ == k by {
                let a = choose|a: int| 0 <= a < self.peers.view().len() && self.peers.key_at(a) == k;
                assert(self.peers.view()[self.peers.key_at(a)].pinned);
            }
        }
        out
    }
}

/// The text of an optional string slice.
pub open spec fn opt_text(m: Option<&str>) -> Option<Seq<char>> {
    match m {
        Some(s) => Some(s@),
        None => None,
    }
}

/// `cs` is the candidate set for a request for `model`: this node first
/// (eligible when it serves the model, or when no model is named), then, when
/// a model is named, one candidate per known peer.
pub open spec fn candidates_ok(t: RoutingTable, model: Option<Seq<char>>, backend: Seq<char>, cs: Seq<Candidate>) -> bool {
    &&& cs.len() >= 1
    &&& self_candidate(
        cs[0],
        t.local_id(),
        backend,
        match model {
            Some(m) => t.local_models().contains(m),
            None => true,
        },
    )
    &&& match model {
        None => cs.len() == 1,
        Some(m) => {
            &&& cs.len() == 1 + t.peers().len()
            &&& forall|i: int| 1 <= i < cs.len() ==> t.peers().dom().contains((#[trigger] cs[i]).node_id@)
                && peer_candidate(cs[i], t.peers()[cs[i].node_id@], m)
            &&& forall|k: Seq<char>| #[trigger] t.peers().dom().contains(k) ==> exists|i: int|
                1 <= i < cs.len() && cs[i].node_id@ == k
            &&& forall|i: int, j: int| 1 <= i < cs.len() && 1 <= j < cs.len() && i != j ==> (#[trigger] cs[i]).node_id@
                != (#[trigger] cs[j]).node_id@
        },
    }
}

fn port_text(p: u16) -> (r: String)
    ensures
        r@ == nat_str(p as nat),
{
    u64_to_string(p as u64)
}

impl RoutingTable {
    /// The candidates for a request for `model` (`None`: no model in the
    /// body, so only this node is a candidate): this node first, then, when a
    /// model is named, one candidate per known peer.
    pub fn candidates_for(&self, model: Option<&str>, backend: &str) -> (r: Vec<Candidate>)
        requires
            self.wf(),
        ensures
            candidates_ok(*self, opt_text(model), backend@, r@),
    {
        proof {
            reveal_strlit("http://");
            reveal_strlit("https://");
        }
        let mut out: Vec<Candidate> = Vec::new();
        let self_has = match model {
            Some(m) => contains_text(&self.local_models, m),
            None => true,
        };
        let mut url = String::from_str("http://");
        push_str(&mut url, backend);
        out.push(
            Candidate {
                node_id: copy_str(self.local_id.as_str()),
                base_url: url,
                advertises_model: self_has,
                is_self: true,
                pinned: false,
                priority_rank: None,
                manually_selected: false,
                host: None,
                ingress_port: None,
            },
        );
        let m = match model {
            Some(m) => m,
            None => {
                return out;
            },
        };
        let n = self.peers.len();
        let mut i: usize = 0;
        proof {
            assert(self.peers().dom() =~= self.peers.view().dom());
        }
        while i < n
            invariant
                self.wf(),
                n == self.peers.view().len(),
                n == self.peers().len(),
                i <= n,
                out@.len() == 1 + i,
                self_candidate(out@[0], self.local_id(), backend@, self_has),
                forall|j: int| 1 <= j < out@.len() ==> #[trigger] out@[j].node_id@ == self.peers.key_at(j - 1),
                forall|j: int| 1 <= j < out@.len() ==> self.peers().dom().contains((#[trigger] out@[j]).node_id@)
                    && peer_candidate(out@[j], self.peers()[out@[j].node_id@], m@),
            decreases n - i,
        {
            proof {
                self.peers.lemma_keys();
            }
            let p = self.peers.value_at(i);
            let mut url = String::from_str("https://");
            push_str(&mut url, p.host.as_str());
            push_char(&mut url, ':');
            let pt = port_text(p.ingress_port);
            push_str(&mut url, pt.as_str());
            let adv = contains_text(&p.models, m);
            proof {
                assert(url@ =~= "https://"@ + p.host@ + seq![':'] + nat_str(p.ingress_port as nat));
            }
            let ghost before = out@;
            out.push(
                Candidate {
                    node_id: copy_str(p.node_id.as_str()),
                    base_url: url,
                    advertises_model: adv,
                    is_self: false,
                    pinned: p.pinned,
                    priority_rank: p.priority_rank,
                    manually_selected: p.manually_selected,
                    host: Some(copy_str(p.host.as_str())),
                    ingress_port: Some(p.ingress_port),
                },
            );
            proof {
                let k = self.peers.key_at(i as int);
                assert(p.node_id@ == k);
                assert(self.peers()[k] == peer_view(*p));
                assert(peer_candidate(out@[i + 1], self.peers()[k], m@));
                assert forall|j: int| 1 <= j < out@.len() implies #[trigger] out@[j].node_id@ == self.peers.key_at(j - 1) by {
                    if j < i + 1 {
                        assert(out@[j] == before[j]);
                    }
                }
            }
            i = i + 1;
        }
        proof {
            self.peers.lemma_keys();
            assert forall|k: Seq<char>| #[trigger] self.peers().dom().contains(k) implies exists|j: int|
                1 <= j < out@.len() && out@[j].node_id@ == k by {
                let a = choose|a: int| 0 <= a < self.peers.view().len() && self.peers.key_at(a) == k;
                assert(out@[a + 1].node_id@ == k);
            }
            assert forall|a: int, b: int| 1 <= a < out@.len() && 1 <= b < out@.len() && a != b implies (#[trigger] out@[a]).node_id@
                != (#[trigger] out@[b]).node_id@ by {
                assert(self.peers.key_at(a - 1) != self.peers.key_at(b - 1));
            }
        }
        out
    }
}

} // verus!
