//! Peer certificate pinning: cluster membership is trust by pinned raw DER.
//! Only certificates that carry a `urn:nvpair:node` SAN UUID enter the store,
//! which holds at most one certificate per node UUID.

use vstd::prelude::*;
use crate::text::str_eq;
use crate::trust::identity::{cert_fingerprint, cert_node_uuid, fingerprint_text, node_uuid_from_cert};

verus! {

/// A pinned peer certificate.
#[derive(Debug, Clone)]
pub struct PinnedPeer {
    pub node_uuid: String,
    pub cert_der: Vec<u8>,
    pub fingerprint: String,
}

/// The certificate DER and fingerprint of a pinned peer.
pub open spec fn pin_value(p: PinnedPeer) -> (Seq<u8>, Seq<char>) {
    (p.cert_der@, p.fingerprint@)
}

/// Whether some entry of `s` is for node `k`.
pub open spec fn holds_uuid(s: Seq<PinnedPeer>, k: Seq<char>) -> bool {
    exists|i: int| 0 <= i < s.len() && (#[trigger] s[i]).node_uuid@ == k
}

/// The entries of `s` as a map from node UUID to (DER, fingerprint).
pub open spec fn pins_map(s: Seq<PinnedPeer>) -> Map<Seq<char>, (Seq<u8>, Seq<char>)> {
    Map::new(
        |k: Seq<char>| holds_uuid(s, k),
        |k: Seq<char>| pin_value(s[choose|i: int| 0 <= i < s.len() && (#[trigger] s[i]).node_uuid@ == k]),
    )
}

/// No two entries of `s` are for the same node.
pub open spec fn uuids_unique(s: Seq<PinnedPeer>) -> bool {
    forall|i: int, j: int| 0 <= i < s.len() && 0 <= j < s.len() && i != j ==> (#[trigger] s[i]).node_uuid@
        != (#[trigger] s[j]).node_uuid@
}

/// A set of pinned peer certificates (raw DER), indexed by node UUID.
#[derive(Debug, Clone)]
pub struct PeerPinStore {
    peers: Vec<PinnedPeer>,
}

/// Why a certificate was refused.
#[derive(Debug, Clone, Copy, PartialEq, Eq, Structural)]
pub enum PinError {
    /// The certificate carries no `urn:nvpair:node` SAN.
    NoNodeUuid,
}

impl PinError {
    /// A human-readable description.
    pub fn message(&self) -> (r: String)
        ensures
            r@ == "refusing to pin: cert has no urn:nvpair:node SAN"@,
    {
        String::from_str("refusing to pin: cert has no urn:nvpair:node SAN")
    }
}

/// In a store without duplicate UUIDs, the map entry of the node at index `i`
/// is that entry.
proof fn lemma_entry(s: Seq<PinnedPeer>, i: int)
    requires
        uuids_unique(s),
        0 <= i < s.len(),
    ensures
        pins_map(s).dom().contains(s[i].node_uuid@),
        pins_map(s)[s[i].node_uuid@] == pin_value(s[i]),
{
    let k = s[i].node_uuid@;
    assert(holds_uuid(s, k));
    let j = choose|j: int| 0 <= j < s.len() && (#[trigger] s[j]).node_uuid@ == k;
    assert(s[j].node_uuid@ == k);
    if j != i {
        assert(s[i].node_uuid@ != s[j].node_uuid@);
    }
}

impl PeerPinStore {
    /// The pins as a map from node UUID to (certificate DER, fingerprint).
    pub closed spec fn view(&self) -> Map<Seq<char>, (Seq<u8>, Seq<char>)> {
        pins_map(self.peers@)
    }

    /// The store's invariant: at most one entry per node UUID, each entry's
    /// UUID and fingerprint read from its certificate.
    pub closed spec fn wf(&self) -> bool {
        &&& uuids_unique(self.peers@)
        &&& forall|i: int| 0 <= i < self.peers@.len() ==> {
            &&& cert_node_uuid((#[trigger] self.peers@[i]).cert_der@) == Some(self.peers@[i].node_uuid@)
            &&& self.peers@[i].fingerprint@ == fingerprint_text(self.peers@[i].cert_der@)
        }
    }

    /// Every pinned entry is keyed by the UUID its certificate carries and has
    /// that certificate's fingerprint.
    pub proof fn lemma_entries_consistent(&self, k: Seq<char>)
        requires
            self.wf(),
            self.view().dom().contains(k),
        ensures
            cert_node_uuid(self.view()[k].0) == Some(k),
            self.view()[k].1 == fingerprint_text(self.view()[k].0),
    {
        let i = choose|i: int| 0 <= i < self.peers@.len() && (#[trigger] self.peers@[i]).node_uuid@ == k;
        lemma_entry(self.peers@, i);
    }

    /// An empty store.
    pub fn new() -> (s: PeerPinStore)
        ensures
            s.wf(),
            s.view() == Map::<Seq<char>, (Seq<u8>, Seq<char>)>::empty(),
    {
        let s = PeerPinStore { peers: Vec::new() };
        proof {
            assert(s.view() =~= Map::<Seq<char>, (Seq<u8>, Seq<char>)>::empty());
        }
        s
    }

    fn index_of(&self, node_uuid: &str) -> (r: Option<usize>)
        requires
            self.wf(),
        ensures
            match r {
                Some(i) => i < self.peers@.len() && self.peers@[i as int].node_uuid@ == node_uuid@,
                None => !holds_uuid(self.peers@, node_uuid@),
            },
    {
        let mut i: usize = 0;
        while i < self.peers.len()
            invariant
                i <= self.peers@.len(),
                forall|j: int| 0 <= j < i ==> (#[trigger] self.peers@[j]).node_uuid@ != node_uuid@,
            decreases self.peers@.len() - i,
        {
            if str_eq(self.peers[i].node_uuid.as_str(), node_uuid) {
                return Some(i);
            }
            i = i + 1;
        }
        None
    }

    /// Pin a peer certificate under the node UUID it carries, replacing any
    /// certificate pinned for that node. Refuses certificates without the
    /// node-UUID SAN.
    pub fn pin(&mut self, cert_der: &[u8]) -> (r: Result<String, PinError>)
        requires
            old(self).wf(),
        ensures
            final(self).wf(),
            match r {
                Ok(u) => cert_node_uuid(cert_der@) == Some(u@) && final(self).view() == old(self).view().insert(
                    u@,
                    (cert_der@, fingerprint_text(cert_der@)),
                ),
                Err(e) => e == PinError::NoNodeUuid && cert_node_uuid(cert_der@) is None && final(self).view()
                    == old(self).view(),
            },
    {
        let node_uuid = match node_uuid_from_cert(cert_der) {
            Some(u) => u,
            None => return Err(PinError::NoNodeUuid),
        };
        let fingerprint = cert_fingerprint(cert_der);
        let der = vstd::slice::slice_to_vec(cert_der);
        let entry = PinnedPeer { node_uuid: node_uuid.clone(), cert_der: der, fingerprint };
        let ghost old_peers = self.peers@;
        let ghost e = entry;
        match self.index_of(node_uuid.as_str()) {
            Some(i) => {
                self.peers.set(i, entry);
                proof {
                    let s = self.peers@;
                    assert(s == old_peers.update(i as int, e));
                    assert forall|a: int, b: int| 0 <= a < s.len() && 0 <= b < s.len() && a != b implies (
                    #[trigger] s[a]).node_uuid@ != (#[trigger] s[b]).node_uuid@ by {
                        if a != i && b != i {
                            assert(old_peers[a].node_uuid@ != old_peers[b].node_uuid@);
                        } else if a == i {
                            assert(old_peers[i as int].node_uuid@ != old_peers[b].node_uuid@);
                        } else {
                            assert(old_peers[a].node_uuid@ != old_peers[i as int].node_uuid@);
                        }
                    }
                    let nm = pins_map(s);
                    let om = pins_map(old_peers).insert(node_uuid@, (cert_der@, fingerprint_text(cert_der@)));
                    assert forall|k: Seq<char>| #![auto] nm.dom().contains(k) <==> om.dom().contains(k) by {
                        if nm.dom().contains(k) {
                            let j = choose|j: int| 0 <= j < s.len() && (#[trigger] s[j]).node_uuid@ == k;
                            if j != i {
                                assert(old_peers[j].node_uuid@ == k);
                            }
                        }
                        if om.dom().contains(k) && k != node_uuid@ {
                            let j = choose|j: int| 0 <= j < old_peers.len() && (#[trigger] old_peers[j]).node_uuid@
                                == k;
                            assert(s[j].node_uuid@ == k);
                        }
                        if k == node_uuid@ {
                            assert(s[i as int].node_uuid@ == k);
                        }
                    }
                    assert forall|k: Seq<char>| #![auto] nm.dom().contains(k) implies nm[k] == om[k] by {
                        let j = choose|j: int| 0 <= j < s.len() && (#[trigger] s[j]).node_uuid@ == k;
                        lemma_entry(s, j);
                        if j != i {
                            lemma_entry(old_peers, j);
                        }
                    }
                    assert(nm =~= om);
                }
            },
            None => {
                self.peers.push(entry);
                proof {
                    let s = self.peers@;
                    assert(s == old_peers.push(e));
                    assert forall|a: int, b: int| 0 <= a < s.len() && 0 <= b < s.len() && a != b implies (
                    #[trigger] s[a]).node_uuid@ != (#[trigger] s[b]).node_uuid@ by {
                        let n = old_peers.len() as int;
                        if a != n && b != n {
                            assert(old_peers[a].node_uuid@ != old_peers[b].node_uuid@);
                        } else if a == n {
                            assert(old_peers[b].node_uuid@ != node_uuid@);
                        } else {
                            assert(old_peers[a].node_uuid@ != node_uuid@);
                        }
                    }
                    let nm = pins_map(s);
                    let om = pins_map(old_peers).insert(node_uuid@, (cert_der@, fingerprint_text(cert_der@)));
                    assert forall|k: Seq<char>| #![auto] nm.dom().contains(k) <==> om.dom().contains(k) by {
                        if nm.dom().contains(k) {
                            let j = choose|j: int| 0 <= j < s.len() && (#[trigger] s[j]).node_uuid@ == k;
                            if j < old_peers.len() {
                                assert(old_peers[j].node_uuid@ == k);
                            }
                        }
                        if om.dom().contains(k) && k != node_uuid@ {
                            let j = choose|j: int| 0 <= j < old_peers.len() && (#[trigger] old_peers[j]).node_uuid@
                                == k;
                            assert(s[j].node_uuid@ == k);
                        }
                        if k == node_uuid@ {
                            assert(s[old_peers.len() as int].node_uuid@ == k);
                        }
                    }
                    assert forall|k: Seq<char>| #![auto] nm.dom().contains(k) implies nm[k] == om[k] by {
                        let j = choose|j: int| 0 <= j < s.len() && (#[trigger] s[j]).node_uuid@ == k;
                        lemma_entry(s, j);
                        if j < old_peers.len() {
                            lemma_entry(old_peers, j);
                        }
                    }
                    assert(nm =~= om);
                }
            },
        }
        Ok(node_uuid)
    }

    /// True if this exact certificate DER is pinned.
    pub fn is_pinned(&self, cert_der: &[u8]) -> (r: bool)
        requires
            self.wf(),
        ensures
            r == exists|k: Seq<char>| #[trigger] self.view().dom().contains(k) && self.view()[k].0 == cert_der@,
    {
        let mut i: usize = 0;
        while i < self.peers.len()
            invariant
                i <= self.peers@.len(),
                uuids_unique(self.peers@),
                forall|j: int| 0 <= j < i ==> (#[trigger] self.peers@[j]).cert_der@ != cert_der@,
            decreases self.peers@.len() - i,
        {
            if crate::pairing::mac::mac_equal(self.peers[i].cert_der.as_slice(), cert_der) {
                proof {
                    lemma_entry(self.peers@, i as int);
                    let k = self.peers@[i as int].node_uuid@;
                    assert(self.view().dom().contains(k) && self.view()[k].0 == cert_der@);
                }
                return true;
            }
            i = i + 1;
        }
        proof {
            if exists|k: Seq<char>| #[trigger] self.view().dom().contains(k) && self.view()[k].0 == cert_der@ {
                let k = choose|k: Seq<char>| #[trigger] self.view().dom().contains(k) && self.view()[k].0
                    == cert_der@;
                let j = choose|j: int| 0 <= j < self.peers@.len() && (#[trigger] self.peers@[j]).node_uuid@ == k;
                lemma_entry(self.peers@, j);
            }
        }
        false
    }

    /// The pinned entry for a node UUID.
    pub fn get(&self, node_uuid: &str) -> (r: Option<&PinnedPeer>)
        requires
            self.wf(),
        ensures
            match r {
                Some(p) => self.view().dom().contains(node_uuid@) && p.node_uuid@ == node_uuid@
                    && self.view()[node_uuid@] == pin_value(*p),
                None => !self.view().dom().contains(node_uuid@),
            },
    {
        match self.index_of(node_uuid) {
            Some(i) => {
                proof {
                    lemma_entry(self.peers@, i as int);
                }
                Some(&self.peers[i])
            },
            None => None,
        }
    }

    /// Remove and return the entry for a node UUID.
    pub fn remove(&mut self, node_uuid: &str) -> (r: Option<PinnedPeer>)
        requires
            old(self).wf(),
        ensures
            final(self).wf(),
            final(self).view() == old(self).view().remove(node_uuid@),
            match r {
                Some(p) => old(self).view().dom().contains(node_uuid@) && p.node_uuid@ == node_uuid@
                    && old(self).view()[node_uuid@] == pin_value(p),
                None => !old(self).view().dom().contains(node_uuid@),
            },
    {
        match self.index_of(node_uuid) {
            Some(i) => {
                let ghost old_peers = self.peers@;
                proof {
                    lemma_entry(old_peers, i as int);
                }
                let p = self.peers.remove(i);
                proof {
                    let s = self.peers@;
                    assert(s == old_peers.remove(i as int));
                    assert forall|a: int, b: int| 0 <= a < s.len() && 0 <= b < s.len() && a != b implies (
                    #[trigger] s[a]).node_uuid@ != (#[trigger] s[b]).node_uuid@ by {
                        let a2 = if a < i { a } else { a + 1 };
                        let b2 = if b < i { b } else { b + 1 };
                        assert(s[a] == old_peers[a2]);
                        assert(s[b] == old_peers[b2]);
                        assert(old_peers[a2].node_uuid@ != old_peers[b2].node_uuid@);
                    }
                    assert forall|j: int| 0 <= j < s.len() implies {
                        &&& cert_node_uuid((#[trigger] s[j]).cert_der@) == Some(s[j].node_uuid@)
                        &&& s[j].fingerprint@ == fingerprint_text(s[j].cert_der@)
                    } by {
                        let j2 = if j < i { j } else { j + 1 };
                        assert(s[j] == old_peers[j2]);
                    }
                    let nm = pins_map(s);
                    let om = pins_map(old_peers).remove(node_uuid@);
                    assert forall|k: Seq<char>| #![auto] nm.dom().contains(k) <==> om.dom().contains(k) by {
                        if nm.dom().contains(k) {
                            let j = choose|j: int| 0 <= j < s.len() && (#[trigger] s[j]).node_uuid@ == k;
                            let j2 = if j < i { j } else { j + 1 };
                            assert(s[j] == old_peers[j2]);
                            assert(old_peers[j2].node_uuid@ == k);
                            assert(j2 != i);
                        }
                        if om.dom().contains(k) {
                            let j = choose|j: int| 0 <= j < old_peers.len() && (#[trigger] old_peers[j]).node_uuid@
                                == k;
                            assert(j != i);
                            let j1 = if j < i { j } else { j - 1 };
                            assert(s[j1] == old_peers[j]);
                        }
                    }
                    assert forall|k: Seq<char>| #![auto] nm.dom().contains(k) implies nm[k] == om[k] by {
                        let j = choose|j: int| 0 <= j < s.len() && (#[trigger] s[j]).node_uuid@ == k;
                        let j2 = if j < i { j } else { j + 1 };
                        assert(s[j] == old_peers[j2]);
                        lemma_entry(s, j);
                        lemma_entry(old_peers, j2);
                    }
                    assert(nm =~= om);
                }
                Some(p)
            },
            None => {
                proof {
                    assert(self.view().remove(node_uuid@) =~= self.view());
                }
                None
            },
        }
    }

    /// The number of pinned peers.
    pub fn len(&self) -> (r: usize)
        requires
            self.wf(),
        ensures
            r == self.view().len(),
    {
        proof {
            lemma_map_len(self.peers@);
        }
        self.peers.len()
    }

    /// Whether nothing is pinned.
    pub fn is_empty(&self) -> (r: bool)
        requires
            self.wf(),
        ensures
            r == (self.view().len() == 0),
    {
        self.len() == 0
    }

    /// The pinned peers, each once.
    pub fn iter(&self) -> (r: Vec<PinnedPeer>)
        requires
            self.wf(),
        ensures
            r@.len() == self.view().len(),
            forall|i: int| 0 <= i < r@.len() ==> self.view().dom().contains((#[trigger] r@[i]).node_uuid@)
                && self.view()[r@[i].node_uuid@] == pin_value(r@[i]),
            forall|k: Seq<char>| #[trigger] self.view().dom().contains(k) ==> exists|i: int|
                0 <= i < r@.len() && r@[i].node_uuid@ == k,
    {
        let mut r: Vec<PinnedPeer> = Vec::new();
        let mut i: usize = 0;
        while i < self.peers.len()
            invariant
                i <= self.peers@.len(),
                r@.len() == i,
                forall|j: int| 0 <= j < i ==> (#[trigger] r@[j]).node_uuid@ == self.peers@[j].node_uuid@
                    && pin_value(r@[j]) == pin_value(self.peers@[j]),
            decreases self.peers@.len() - i,
        {
            r.push(clone_pinned(&self.peers[i]));
            i = i + 1;
        }
        proof {
            lemma_map_len(self.peers@);
            assert forall|k: Seq<char>| #[trigger] self.view().dom().contains(k) implies exists|i: int|
                0 <= i < r@.len() && r@[i].node_uuid@ == k by {
                let j = choose|j: int| 0 <= j < self.peers@.len() && (#[trigger] self.peers@[j]).node_uuid@ == k;
                assert(r@[j].node_uuid@ == k);
            }
            assert forall|i: int| 0 <= i < r@.len() implies self.view().dom().contains((#[trigger] r@[i]).node_uuid@)
                && self.view()[r@[i].node_uuid@] == pin_value(r@[i]) by {
                lemma_entry(self.peers@, i);
            }
        }
        r
    }
}

/// A field-by-field copy of a pinned entry.
fn clone_pinned(p: &PinnedPeer) -> (r: PinnedPeer)
    ensures
        r.node_uuid@ == p.node_uuid@,
        pin_value(r) == pin_value(*p),
{
    let der = vstd::slice::slice_to_vec(p.cert_der.as_slice());
    PinnedPeer { node_uuid: p.node_uuid.clone(), cert_der: der, fingerprint: p.fingerprint.clone() }
}

/// A store without duplicate UUIDs has as many map entries as elements.
proof fn lemma_map_len(s: Seq<PinnedPeer>)
    requires
        uuids_unique(s),
    ensures
        pins_map(s).dom().finite(),
        pins_map(s).len() == s.len(),
    decreases s.len(),
{
    if s.len() == 0 {
        assert(pins_map(s).dom() =~= Set::<Seq<char>>::empty());
    } else {
        let t = s.drop_last();
        assert(uuids_unique(t)) by {
            assert forall|a: int, b: int| 0 <= a < t.len() && 0 <= b < t.len() && a != b implies (
            #[trigger] t[a]).node_uuid@ != (#[trigger] t[b]).node_uuid@ by {
                assert(t[a] == s[a] && t[b] == s[b]);
            }
        }
        lemma_map_len(t);
        let k = s.last().node_uuid@;
        assert(!pins_map(t).dom().contains(k)) by {
            if holds_uuid(t, k) {
                let j = choose|j: int| 0 <= j < t.len() && (#[trigger] t[j]).node_uuid@ == k;
                assert(s[j].node_uuid@ != s[s.len() - 1].node_uuid@);
            }
        }
        assert(pins_map(s).dom() =~= pins_map(t).dom().insert(k)) by {
            assert forall|x: Seq<char>| #![auto] pins_map(s).dom().contains(x) <==> pins_map(t).dom().insert(
                k,
            ).contains(x) by {
                if holds_uuid(s, x) && x != k {
                    let j = choose|j: int| 0 <= j < s.len() && (#[trigger] s[j]).node_uuid@ == x;
                    assert(j < t.len());
                    assert(t[j].node_uuid@ == x);
                }
                if holds_uuid(t, x) {
                    let j = choose|j: int| 0 <= j < t.len() && (#[trigger] t[j]).node_uuid@ == x;
                    assert(s[j].node_uuid@ == x);
                }
                if x == k {
                    assert(s[s.len() - 1].node_uuid@ == x);
                }
            }
        }
    }
}

} // verus!
